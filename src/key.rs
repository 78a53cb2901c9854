//! Canonical filter keys for agents and operations.
use vstd::bytes::{spec_u64_to_le_bytes, u64_to_le_bytes, lemma_auto_spec_u64_to_from_le_bytes};
use vstd::prelude::*;

verus! {

/// First byte of the hash input of an agent key.
pub const AGENT_TAG: u8 = 0;

/// First byte of the hash input of an operation key.
pub const OP_TAG: u8 = 1;

/// The single hashable representation of an entity in a bloom filter.
#[derive(Clone, Debug, PartialEq, Eq, Hash)]
pub enum MetaOpKey {
    /// An operation, by its content hash.
    Op(Vec<u8>),
    /// An agent, by its identity and the time its descriptor was signed.
    Agent(Vec<u8>, u64),
}

/// Big-endian bytes of a `u64`.
pub open spec fn u64_be(x: u64) -> Seq<u8> {
    Seq::new(8, |i: int| spec_u64_to_le_bytes(x)[7 - i])
}

/// Hash input of an agent key: tag, identity, big-endian signing time.
pub open spec fn agent_key_bytes(agent: Seq<u8>, signed_at_ms: u64) -> Seq<u8> {
    seq![AGENT_TAG] + agent + u64_be(signed_at_ms)
}

/// Hash input of an operation key: tag, then the hash.
pub open spec fn op_key_bytes(hash: Seq<u8>) -> Seq<u8> {
    seq![OP_TAG] + hash
}

/// Hash input of a key.
pub open spec fn key_bytes(k: MetaOpKey) -> Seq<u8> {
    match k {
        MetaOpKey::Op(h) => op_key_bytes(h@),
        MetaOpKey::Agent(a, t) => agent_key_bytes(a@, t),
    }
}

/// Appends the bytes of `src` to `out`.
pub(crate) fn append_bytes(out: &mut Vec<u8>, src: &Vec<u8>)
    ensures
        final(out)@ == old(out)@ + src@,
{
    let mut i: usize = 0;
    while i < src.len()
        invariant
            i <= src@.len(),
            out@ == old(out)@ + src@.subrange(0, i as int),
        decreases src@.len() - i,
    {
        out.push(src[i]);
        i = i + 1;
        assert(src@.subrange(0, i as int) == src@.subrange(0, i - 1) + seq![src@[i - 1]]);
    }
    assert(src@.subrange(0, src@.len() as int) == src@);
}

/// Hash input of an agent key.
pub fn agent_key(agent: &Vec<u8>, signed_at_ms: u64) -> (r: Vec<u8>)
    ensures
        r@ == agent_key_bytes(agent@, signed_at_ms),
{
    let mut out: Vec<u8> = Vec::new();
    out.push(AGENT_TAG);
    append_bytes(&mut out, agent);
    let le = u64_to_le_bytes(signed_at_ms);
    proof {
        lemma_auto_spec_u64_to_from_le_bytes();
    }
    let ghost before = out@;
    let mut i: usize = 0;
    while i < 8
        invariant
            i <= 8,
            le@ == spec_u64_to_le_bytes(signed_at_ms),
            le@.len() == 8,
            out@ == before + u64_be(signed_at_ms).subrange(0, i as int),
        decreases 8 - i,
    {
        out.push(le[7 - i]);
        i = i + 1;
        assert(u64_be(signed_at_ms).subrange(0, i as int) == u64_be(signed_at_ms).subrange(
            0,
            i - 1,
        ) + seq![u64_be(signed_at_ms)[i - 1]]);
    }
    assert(u64_be(signed_at_ms).subrange(0, 8) == u64_be(signed_at_ms));
    out
}

/// Hash input of an operation key.
pub fn op_key(hash: &Vec<u8>) -> (r: Vec<u8>)
    ensures
        r@ == op_key_bytes(hash@),
{
    let mut out: Vec<u8> = Vec::new();
    out.push(OP_TAG);
    append_bytes(&mut out, hash);
    out
}

impl MetaOpKey {
    /// The bytes that a bloom filter hashes for this key.
    pub fn hash_input(&self) -> (r: Vec<u8>)
        ensures
            r@ == key_bytes(*self),
    {
        match self {
            MetaOpKey::Op(h) => op_key(h),
            MetaOpKey::Agent(a, t) => agent_key(a, *t),
        }
    }
}

/// An agent key and an operation key never have the same hash input.
pub proof fn lemma_tags_never_collide(agent: Seq<u8>, signed_at_ms: u64, hash: Seq<u8>)
    ensures
        agent_key_bytes(agent, signed_at_ms) != op_key_bytes(hash),
{
    assert(agent_key_bytes(agent, signed_at_ms)[0] == AGENT_TAG);
    assert(op_key_bytes(hash)[0] == OP_TAG);
}

/// Two agent keys with the same hash input have the same identity and the
/// same signing time: an agent's newer descriptor is a different key.
pub proof fn lemma_agent_key_injective(a1: Seq<u8>, t1: u64, a2: Seq<u8>, t2: u64)
    requires
        agent_key_bytes(a1, t1) == agent_key_bytes(a2, t2),
    ensures
        a1 == a2,
        t1 == t2,
{
    let k = agent_key_bytes(a1, t1);
    let n = a1.len() as int;
    assert(k.len() == a1.len() + 9);
    assert(a1.len() == a2.len());
    assert(a1 =~= k.subrange(1, n + 1));
    assert(a2 =~= k.subrange(1, n + 1));
    assert(u64_be(t1) =~= k.subrange(n + 1, n + 9));
    assert(u64_be(t2) =~= k.subrange(n + 1, n + 9));
    lemma_auto_spec_u64_to_from_le_bytes();
    assert(spec_u64_to_le_bytes(t1) =~= spec_u64_to_le_bytes(t2)) by {
        assert forall|i: int| 0 <= i < 8 implies spec_u64_to_le_bytes(t1)[i]
            == spec_u64_to_le_bytes(t2)[i] by {
            assert(u64_be(t1)[7 - i] == u64_be(t2)[7 - i]);
        }
    }
}

} // verus!
