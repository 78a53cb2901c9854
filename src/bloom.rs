//! Bloom filters over canonical key bytes, and their self-describing encoding.
//!
//! Encoded layout, all integers little-endian: number of bits (8 bytes),
//! number of hash functions (4 bytes), the four SipHash key words (8 bytes
//! each), then the bitmap.
use crate::error::GossipError;
use crate::key::append_bytes;
use bloomfilter::Bloom;
use vstd::bytes::{
    spec_u32_from_le_bytes, spec_u32_to_le_bytes, spec_u64_from_le_bytes, spec_u64_to_le_bytes,
    u32_from_le_bytes, u32_to_le_bytes, u64_from_le_bytes, u64_to_le_bytes,
    lemma_auto_spec_u32_to_from_le_bytes, lemma_auto_spec_u64_to_from_le_bytes,
};
use vstd::prelude::*;
use vstd::slice::slice_subrange;

verus! {

/// The filter type of the `bloomfilter` crate, opaque to proofs: what it
/// holds is described by `bloom_state` and `filter_members`.
#[verifier::external_type_specification]
#[verifier::external_body]
#[verifier::reject_recursive_types(T)]
pub struct ExBloom<T: ?Sized>(Bloom<T>);

/// What a `bloomfilter::Bloom` holds: its bitmap bytes (as `Bloom::bitmap`
/// gives them), its number of bits, its number of hash functions and its
/// four SipHash key words.
pub uninterp spec fn bloom_state(b: Bloom<Vec<u8>>) -> (Seq<u8>, u64, u32, Seq<u64>);

/// The keys for which `Bloom::check` answers `true` on a filter with this
/// bitmap, number of bits, number of hash functions and SipHash keys. The
/// answer is a function of these parts and the key alone: the hash functions
/// are SipHash-1-3 under the given keys, applied to the key through std's
/// `Hash` for `Vec<u8>` on the running target.
pub uninterp spec fn filter_members(bitmap: Seq<u8>, bits: u64, k_num: u32, sip_keys: Seq<u64>) -> Set<Seq<u8>>;

/// How many bits the bit vector inside a `bloomfilter::Bloom` holds, as
/// `Bloom::bit_vec().len()` gives it; `Bloom::bitmap` pads it to whole bytes.
pub uninterp spec fn bloom_bit_len(b: Bloom<Vec<u8>>) -> nat;

pub type FilterState = (Seq<u8>, u64, u32, Seq<u64>);

/// The keys that a filter in state `s` reports as present.
pub open spec fn members_of(s: FilterState) -> Set<Seq<u8>> {
    filter_members(s.0, s.1, s.2, s.3)
}

/// A state that `set` and `check` can work on: at least one bit, every bit
/// inside the bitmap, a bitmap whose bits can be counted in a `usize`, four
/// key words.
pub open spec fn state_wf(s: FilterState) -> bool {
    &&& 0 < s.1
    &&& s.0.len() <= usize::MAX / 8
    &&& s.1 <= 8 * s.0.len()
    &&& s.3.len() == 4
}

/// A filter that `set` and `check` can work on: a usable state whose bits
/// all lie inside its bit vector.
pub open spec fn bloom_wf(b: Bloom<Vec<u8>>) -> bool {
    &&& state_wf(bloom_state(b))
    &&& bloom_state(b).1 <= bloom_bit_len(b)
}

/// Relies on `Bloom::new`: a filter of `bitmap_size` bytes with every bit
/// clear, at least one hash function, and random SipHash keys.
#[verifier::external_body]
pub(crate) fn bloom_new(bitmap_size: usize, items_count: usize) -> (r: Bloom<Vec<u8>>)
    requires
        0 < bitmap_size <= usize::MAX / 8,
        0 < items_count,
    ensures
        bloom_state(r).0.len() == bitmap_size,
        bloom_state(r).1 == 8 * bitmap_size,
        bloom_bit_len(r) == 8 * bitmap_size,
        bloom_state(r).2 >= 1,
        bloom_state(r).3.len() == 4,
        filter_members(bloom_state(r).0, bloom_state(r).1, bloom_state(r).2, bloom_state(r).3) == Set::<Seq<u8>>::empty(),
{
    Bloom::new(bitmap_size, items_count)
}

/// Relies on `Bloom::set`: it only sets bits, those of the key among them,
/// so the key and every key present before are present after; the sizes
/// and the SipHash keys stay.
#[verifier::external_body]
pub(crate) fn bloom_set(b: &mut Bloom<Vec<u8>>, key: &Vec<u8>)
    requires
        bloom_wf(*old(b)),
    ensures
        bloom_bit_len(*final(b)) == bloom_bit_len(*old(b)),
        bloom_state(*final(b)).0.len() == bloom_state(*old(b)).0.len(),
        bloom_state(*final(b)).1 == bloom_state(*old(b)).1,
        bloom_state(*final(b)).2 == bloom_state(*old(b)).2,
        bloom_state(*final(b)).3 == bloom_state(*old(b)).3,
        filter_members(bloom_state(*old(b)).0, bloom_state(*old(b)).1, bloom_state(*old(b)).2, bloom_state(*old(b)).3).insert(key@).subset_of(
            filter_members(bloom_state(*final(b)).0, bloom_state(*final(b)).1, bloom_state(*final(b)).2, bloom_state(*final(b)).3)),
{
    b.set(key)
}

/// Relies on `Bloom::check`: whether the filter reports the key as present.
#[verifier::external_body]
pub(crate) fn bloom_check(b: &Bloom<Vec<u8>>, key: &Vec<u8>) -> (r: bool)
    requires
        bloom_wf(*b),
    ensures
        r == filter_members(bloom_state(*b).0, bloom_state(*b).1, bloom_state(*b).2, bloom_state(*b).3).contains(key@),
{
    b.check(key)
}

/// Relies on `Bloom::bitmap`: the bitmap as bytes.
#[verifier::external_body]
pub(crate) fn bloom_bitmap(b: &Bloom<Vec<u8>>) -> (r: Vec<u8>)
    ensures
        r@ == bloom_state(*b).0,
{
    b.bitmap()
}

/// Relies on `Bloom::number_of_bits`.
#[verifier::external_body]
pub(crate) fn bloom_number_of_bits(b: &Bloom<Vec<u8>>) -> (r: u64)
    ensures
        r == bloom_state(*b).1,
{
    b.number_of_bits()
}

/// Relies on `Bloom::number_of_hash_functions`.
#[verifier::external_body]
pub(crate) fn bloom_number_of_hash_functions(b: &Bloom<Vec<u8>>) -> (r: u32)
    ensures
        r == bloom_state(*b).2,
{
    b.number_of_hash_functions()
}

/// Relies on `Bloom::sip_keys`: the two SipHash key pairs.
#[verifier::external_body]
pub(crate) fn bloom_sip_keys(b: &Bloom<Vec<u8>>) -> (r: [(u64, u64); 2])
    ensures
        seq![r@[0].0, r@[0].1, r@[1].0, r@[1].1] == bloom_state(*b).3,
{
    b.sip_keys()
}

/// Relies on `Bloom::from_existing`: a filter with exactly the given bitmap,
/// number of bits, number of hash functions and SipHash keys.
#[verifier::external_body]
pub(crate) fn bloom_from_existing(bitmap: &[u8], bits: u64, k_num: u32, sip_keys: [(u64, u64); 2]) -> (r: Bloom<Vec<u8>>)
    requires
        bitmap@.len() <= usize::MAX / 8,
    ensures
        bloom_bit_len(r) == 8 * bitmap@.len(),
        bloom_state(r) == (bitmap@, bits, k_num, seq![sip_keys@[0].0, sip_keys@[0].1, sip_keys@[1].0, sip_keys@[1].1]),
{
    Bloom::from_existing(bitmap, bits, k_num, sip_keys)
}

/// Length of the encoded header before the bitmap.
pub const HEADER_LEN: usize = 44;

/// Encoding of a filter state.
pub open spec fn encode_state(s: FilterState) -> Seq<u8> {
    spec_u64_to_le_bytes(s.1) + spec_u32_to_le_bytes(s.2) + spec_u64_to_le_bytes(s.3[0])
        + spec_u64_to_le_bytes(s.3[1]) + spec_u64_to_le_bytes(s.3[2]) + spec_u64_to_le_bytes(s.3[3])
        + s.0
}

/// The state that encoded bytes describe, if they hold a whole header.
pub open spec fn decode_state(b: Seq<u8>) -> Option<FilterState> {
    if b.len() < HEADER_LEN {
        None
    } else {
        Some(
            (
                b.subrange(HEADER_LEN as int, b.len() as int),
                spec_u64_from_le_bytes(b.subrange(0, 8)),
                spec_u32_from_le_bytes(b.subrange(8, 12)),
                seq![
                    spec_u64_from_le_bytes(b.subrange(12, 20)),
                    spec_u64_from_le_bytes(b.subrange(20, 28)),
                    spec_u64_from_le_bytes(b.subrange(28, 36)),
                    spec_u64_from_le_bytes(b.subrange(36, 44)),
                ],
            ),
        )
    }
}

/// The keys that a filter decoded from `b` reports as present, where `b`
/// decodes to a usable filter.
pub open spec fn encoded_members(b: Seq<u8>) -> Set<Seq<u8>> {
    members_of(decode_state(b).unwrap())
}

/// Whether `b` decodes to a usable filter.
pub open spec fn decodes(b: Seq<u8>) -> bool {
    decode_state(b) is Some && state_wf(decode_state(b).unwrap())
}

/// Decoding an encoded state gives the state back.
pub proof fn lemma_decode_encode(s: FilterState)
    requires
        s.3.len() == 4,
    ensures
        decode_state(encode_state(s)) == Some(s),
{
    lemma_auto_spec_u64_to_from_le_bytes();
    lemma_auto_spec_u32_to_from_le_bytes();
    let e = encode_state(s);
    assert(e.subrange(0, 8) =~= spec_u64_to_le_bytes(s.1));
    assert(e.subrange(8, 12) =~= spec_u32_to_le_bytes(s.2));
    assert(e.subrange(12, 20) =~= spec_u64_to_le_bytes(s.3[0]));
    assert(e.subrange(20, 28) =~= spec_u64_to_le_bytes(s.3[1]));
    assert(e.subrange(28, 36) =~= spec_u64_to_le_bytes(s.3[2]));
    assert(e.subrange(36, 44) =~= spec_u64_to_le_bytes(s.3[3]));
    assert(e.subrange(HEADER_LEN as int, e.len() as int) =~= s.0);
    let d = decode_state(e).unwrap();
    assert(d.3 =~= s.3);
}

/// Encodes a filter with its sizing parameters, so that a peer with no
/// other knowledge can decode and query it.
pub fn encode_bloom_filter(b: &Bloom<Vec<u8>>) -> (r: Vec<u8>)
    ensures
        bloom_state(*b).3.len() == 4,
        r@ == encode_state(bloom_state(*b)),
{
    let bits = bloom_number_of_bits(b);
    let k_num = bloom_number_of_hash_functions(b);
    let keys = bloom_sip_keys(b);
    let bitmap = bloom_bitmap(b);
    let mut out: Vec<u8> = Vec::new();
    append_bytes(&mut out, &u64_to_le_bytes(bits));
    append_bytes(&mut out, &u32_to_le_bytes(k_num));
    append_bytes(&mut out, &u64_to_le_bytes(keys[0].0));
    append_bytes(&mut out, &u64_to_le_bytes(keys[0].1));
    append_bytes(&mut out, &u64_to_le_bytes(keys[1].0));
    append_bytes(&mut out, &u64_to_le_bytes(keys[1].1));
    append_bytes(&mut out, &bitmap);
    proof {
        let s = bloom_state(*b);
        assert(s.3[0] == keys@[0].0 && s.3[1] == keys@[0].1 && s.3[2] == keys@[1].0 && s.3[3] == keys@[1].1);
        assert(out@ =~= encode_state(s));
    }
    out
}

/// Decodes a filter. Fails with `DecodeFailure` when the bytes hold no whole
/// header, a header with no bits or with more bits than the bitmap holds,
/// or a bitmap too long to count its bits in a `usize`.
pub fn decode_bloom_filter(bytes: &[u8]) -> (r: Result<Bloom<Vec<u8>>, GossipError>)
    ensures
        match r {
            Ok(f) => decodes(bytes@) && decode_state(bytes@) == Some(bloom_state(f)) && bloom_wf(f),
            Err(e) => !decodes(bytes@) && e == GossipError::DecodeFailure,
        },
{
    if bytes.len() < HEADER_LEN {
        return Err(GossipError::DecodeFailure);
    }
    let bits = u64_from_le_bytes(slice_subrange(bytes, 0, 8));
    let k_num = u32_from_le_bytes(slice_subrange(bytes, 8, 12));
    let k0 = u64_from_le_bytes(slice_subrange(bytes, 12, 20));
    let k1 = u64_from_le_bytes(slice_subrange(bytes, 20, 28));
    let k2 = u64_from_le_bytes(slice_subrange(bytes, 28, 36));
    let k3 = u64_from_le_bytes(slice_subrange(bytes, 36, 44));
    let bitmap = slice_subrange(bytes, HEADER_LEN, bytes.len());
    if bitmap.len() > usize::MAX / 8 || bits == 0 || bits / 8 > bitmap.len() as u64 || (bits / 8 == bitmap.len() as u64 && bits % 8 != 0) {
        return Err(GossipError::DecodeFailure);
    }
    let f = bloom_from_existing(bitmap, bits, k_num, [(k0, k1), (k2, k3)]);
    proof {
        assert(bloom_state(f).3 =~= decode_state(bytes@).unwrap().3);
    }
    Ok(f)
}

/// A filter that went through encoding and decoding reports the same keys
/// as the original, and in particular every key that was set in it.
pub proof fn lemma_round_trip_members(b: Bloom<Vec<u8>>, e: Seq<u8>, d: Bloom<Vec<u8>>, key: Seq<u8>)
    requires
        state_wf(bloom_state(b)),
        e == encode_state(bloom_state(b)),
        decode_state(e) == Some(bloom_state(d)),
    ensures
        decodes(e),
        members_of(bloom_state(d)).contains(key) == members_of(bloom_state(b)).contains(key),
{
    lemma_decode_encode(bloom_state(b));
}

/// No false negatives: a key that a usable filter reports, for instance one
/// set in it, is reported by the filter decoded from its encoding.
pub proof fn lemma_no_false_negatives(b: Bloom<Vec<u8>>, key: Seq<u8>)
    requires
        state_wf(bloom_state(b)),
        members_of(bloom_state(b)).contains(key),
    ensures
        decodes(encode_state(bloom_state(b))),
        encoded_members(encode_state(bloom_state(b))).contains(key),
{
    lemma_decode_encode(bloom_state(b));
}

/// Encoding the decoded filter again gives the same bytes, so repeated
/// encode/decode cycles keep the filter's answers.
pub proof fn lemma_reencode_stable(e: Seq<u8>)
    requires
        decodes(e),
    ensures
        encode_state(decode_state(e).unwrap()) == e,
{
    lemma_auto_spec_u64_to_from_le_bytes();
    lemma_auto_spec_u32_to_from_le_bytes();
    let s = decode_state(e).unwrap();
    assert(spec_u64_to_le_bytes(s.1) == e.subrange(0, 8));
    assert(spec_u32_to_le_bytes(s.2) == e.subrange(8, 12));
    assert(spec_u64_to_le_bytes(s.3[0]) == e.subrange(12, 20));
    assert(spec_u64_to_le_bytes(s.3[1]) == e.subrange(20, 28));
    assert(spec_u64_to_le_bytes(s.3[2]) == e.subrange(28, 36));
    assert(spec_u64_to_le_bytes(s.3[3]) == e.subrange(36, 44));
    assert(encode_state(s) =~= e);
}

} // verus!
