//! Snapshots of what a peer holds, as encoded bloom filters.
use crate::arc::{arcs_overlap, StorageArc};
use crate::bloom::{
    bloom_bit_len, bloom_new, bloom_set, bloom_state, decode_state, decodes, encode_bloom_filter,
    encoded_members, lemma_decode_encode, members_of,
};
use crate::key::{agent_key, agent_key_bytes, op_key, op_key_bytes};
use vstd::prelude::*;

verus! {

/// Bits per expected item for agent filters (a false-positive rate near 1e-4).
pub const AGENT_BITS_PER_ITEM: usize = 20;

/// Bits per expected item for operation filters (a false-positive rate near 1e-2).
pub const OP_BITS_PER_ITEM: usize = 10;

/// A signed agent descriptor: who, when it was signed, and the arc that the
/// agent claims.
#[derive(Clone, Debug)]
pub struct AgentEntry {
    pub agent: Vec<u8>,
    pub signed_at_ms: u64,
    pub storage_arc: StorageArc,
}

/// Bitmap bytes for a filter of `n` items (at least one) at `bits_per_item`,
/// rounded up to whole bytes, and at most what a `usize` can count in bits.
pub open spec fn filter_bytes(n: nat, bits_per_item: nat) -> nat {
    let items: nat = if n == 0 { 1 } else { n };
    let want: nat = ((items * bits_per_item + 7) / 8) as nat;
    if want > usize::MAX / 8 {
        (usize::MAX / 8) as nat
    } else {
        want
    }
}

/// Whether an agent is taken into a snapshot restricted to `filter`.
pub open spec fn selected(a: AgentEntry, filter: Option<StorageArc>) -> bool {
    match filter {
        Some(f) => arcs_overlap(a.storage_arc, f),
        None => true,
    }
}

/// Keys of the agents taken into a snapshot restricted to `filter`, in order.
pub open spec fn selected_keys(agents: Seq<AgentEntry>, filter: Option<StorageArc>) -> Seq<Seq<u8>>
    decreases agents.len(),
{
    if agents.len() == 0 {
        Seq::empty()
    } else {
        let prev = selected_keys(agents.drop_last(), filter);
        let a = agents.last();
        if selected(a, filter) {
            prev.push(agent_key_bytes(a.agent@, a.signed_at_ms))
        } else {
            prev
        }
    }
}

proof fn lemma_selected_keys_complete(agents: Seq<AgentEntry>, filter: Option<StorageArc>, i: int)
    requires
        0 <= i < agents.len(),
        selected(agents[i], filter),
    ensures
        selected_keys(agents, filter).contains(agent_key_bytes(agents[i].agent@, agents[i].signed_at_ms)),
    decreases agents.len(),
{
    let prev = selected_keys(agents.drop_last(), filter);
    if i < agents.len() - 1 {
        lemma_selected_keys_complete(agents.drop_last(), filter, i);
        let j = choose|j: int| 0 <= j < prev.len() && prev[j] == agent_key_bytes(agents[i].agent@, agents[i].signed_at_ms);
        assert(selected_keys(agents, filter)[j] == prev[j]);
    } else {
        assert(selected_keys(agents, filter).last() == agent_key_bytes(agents[i].agent@, agents[i].signed_at_ms));
    }
}

/// Builds and encodes one filter holding every key of `keys`.
fn filter_of_keys(keys: &Vec<Vec<u8>>, bits_per_item: usize) -> (r: Vec<u8>)
    requires
        0 < bits_per_item,
    ensures
        decodes(r@),
        keys@.len() == 0 ==> encoded_members(r@) == Set::<Seq<u8>>::empty(),
        decode_state(r@).unwrap().1 == 8 * filter_bytes(keys@.len(), bits_per_item as nat),
        forall|j: int| 0 <= j < keys@.len() ==> encoded_members(r@).contains(#[trigger] keys@[j]@),
{
    let items: usize = if keys.len() == 0 { 1 } else { keys.len() };
    proof {
        let a = items as int;
        let b = bits_per_item as int;
        assert(a * b <= 0xffff_ffff_ffff_ffff * 0xffff_ffff_ffff_ffff) by (nonlinear_arith)
            requires
                0 <= a <= 0xffff_ffff_ffff_ffff,
                0 <= b <= 0xffff_ffff_ffff_ffff;
        assert(a * b >= 1) by (nonlinear_arith)
            requires
                1 <= a,
                1 <= b;
    }
    let want: u128 = ((items as u128) * (bits_per_item as u128) + 7) / 8;
    let bitmap_size: usize = if want > (usize::MAX / 8) as u128 {
        usize::MAX / 8
    } else {
        want as usize
    };
    let mut bloom = bloom_new(bitmap_size, items);
    let mut i: usize = 0;
    while i < keys.len()
        invariant
            i <= keys@.len(),
            0 < bitmap_size <= usize::MAX / 8,
            bloom_state(bloom).0.len() == bitmap_size,
            bloom_state(bloom).1 == 8 * bitmap_size,
            bloom_bit_len(bloom) == 8 * bitmap_size,
            bloom_state(bloom).3.len() == 4,
            keys@.len() == 0 ==> members_of(bloom_state(bloom)) == Set::<Seq<u8>>::empty(),
            forall|j: int| 0 <= j < i ==> members_of(bloom_state(bloom)).contains(#[trigger] keys@[j]@),
        decreases keys@.len() - i,
    {
        bloom_set(&mut bloom, &keys[i]);
        i = i + 1;
    }
    let r = encode_bloom_filter(&bloom);
    proof {
        lemma_decode_encode(bloom_state(bloom));
    }
    r
}

/// Encodes a filter of the agents whose arc overlaps `filter` (all agents
/// when there is none), keyed by identity and signing time, sized to their
/// number at `bits_per_item`. With no such agent there is no filter.
pub fn build_agent_filter(agents: &Vec<AgentEntry>, filter: Option<&StorageArc>, bits_per_item: usize) -> (r: Option<Vec<u8>>)
    requires
        0 < bits_per_item,
    ensures
        ({
            let f = match filter { Some(a) => Some(*a), None => None };
            let keys = selected_keys(agents@, f);
            &&& r is None <==> keys.len() == 0
            &&& r is Some ==> {
                &&& decodes(r.unwrap()@)
                &&& decode_state(r.unwrap()@).unwrap().1 == 8 * filter_bytes(keys.len(), bits_per_item as nat)
                &&& forall|k: Seq<u8>| keys.contains(k) ==> #[trigger] encoded_members(r.unwrap()@).contains(k)
            }
            &&& forall|i: int| 0 <= i < agents@.len() && selected(#[trigger] agents@[i], f) ==> keys.contains(
                agent_key_bytes(agents@[i].agent@, agents@[i].signed_at_ms))
        }),
{
    let ghost f = match filter { Some(a) => Some(*a), None => None };
    let mut keys: Vec<Vec<u8>> = Vec::new();
    let mut i: usize = 0;
    while i < agents.len()
        invariant
            i <= agents@.len(),
            f == match filter { Some(a) => Some(*a), None => None::<StorageArc> },
            keys@.len() <= i,
            keys@.len() == selected_keys(agents@.take(i as int), f).len(),
            forall|j: int| 0 <= j < keys@.len() ==> #[trigger] keys@[j]@ == selected_keys(agents@.take(i as int), f)[j],
        decreases agents@.len() - i,
    {
        let a = &agents[i];
        let take = match filter {
            Some(arc) => a.storage_arc.overlaps(arc),
            None => true,
        };
        assert(agents@.take(i + 1).drop_last() == agents@.take(i as int));
        if take {
            keys.push(agent_key(&a.agent, a.signed_at_ms));
        }
        i = i + 1;
    }
    assert(agents@.take(agents@.len() as int) == agents@);
    proof {
        assert forall|i: int| 0 <= i < agents@.len() && selected(#[trigger] agents@[i], f) implies selected_keys(agents@, f).contains(
            agent_key_bytes(agents@[i].agent@, agents@[i].signed_at_ms)) by {
            lemma_selected_keys_complete(agents@, f, i);
        }
    }
    if keys.len() == 0 {
        None
    } else {
        let r = filter_of_keys(&keys, bits_per_item);
        proof {
            let sk = selected_keys(agents@, f);
            assert forall|k: Seq<u8>| sk.contains(k) implies #[trigger] encoded_members(r@).contains(k) by {
                let j = choose|j: int| 0 <= j < sk.len() && sk[j] == k;
                assert(keys@[j]@ == k);
            }
        }
        Some(r)
    }
}

/// Encodes a filter of the operation hashes, sized to their number at
/// `bits_per_item`. An empty collection still gives a filter.
pub fn build_ops_filter(ops: &Vec<Vec<u8>>, bits_per_item: usize) -> (r: Vec<u8>)
    requires
        0 < bits_per_item,
    ensures
        decodes(r@),
        ops@.len() == 0 ==> encoded_members(r@) == Set::<Seq<u8>>::empty(),
        decode_state(r@).unwrap().1 == 8 * filter_bytes(ops@.len(), bits_per_item as nat),
        forall|i: int| 0 <= i < ops@.len() ==> encoded_members(r@).contains(op_key_bytes(#[trigger] ops@[i]@)),
{
    let mut keys: Vec<Vec<u8>> = Vec::new();
    let mut i: usize = 0;
    while i < ops.len()
        invariant
            i <= ops@.len(),
            keys@.len() == i,
            forall|j: int| 0 <= j < i ==> #[trigger] keys@[j]@ == op_key_bytes(ops@[j]@),
        decreases ops@.len() - i,
    {
        keys.push(op_key(&ops[i]));
        i = i + 1;
    }
    let r = filter_of_keys(&keys, bits_per_item);
    assert forall|i: int| 0 <= i < ops@.len() implies encoded_members(r@).contains(op_key_bytes(#[trigger] ops@[i]@)) by {
        assert(keys@[i]@ == op_key_bytes(ops@[i]@));
    }
    r
}

/// Agent snapshot at the agent false-positive rate; `None` when no agent is
/// taken.
pub fn create_agent_bloom(agents: &Vec<AgentEntry>, filter: Option<&StorageArc>) -> (r: Option<Vec<u8>>)
    ensures
        ({
            let f = match filter { Some(a) => Some(*a), None => None };
            let keys = selected_keys(agents@, f);
            &&& r is None <==> keys.len() == 0
            &&& r is Some ==> {
                &&& decodes(r.unwrap()@)
                &&& decode_state(r.unwrap()@).unwrap().1 == 8 * filter_bytes(keys.len(), AGENT_BITS_PER_ITEM as nat)
                &&& forall|k: Seq<u8>| keys.contains(k) ==> #[trigger] encoded_members(r.unwrap()@).contains(k)
            }
            &&& forall|i: int| 0 <= i < agents@.len() && selected(#[trigger] agents@[i], f) ==> keys.contains(
                agent_key_bytes(agents@[i].agent@, agents@[i].signed_at_ms))
        }),
{
    build_agent_filter(agents, filter, AGENT_BITS_PER_ITEM)
}

/// Operation snapshot at the operation false-positive rate.
pub fn create_ops_bloom(ops: &Vec<Vec<u8>>) -> (r: Vec<u8>)
    ensures
        decodes(r@),
        ops@.len() == 0 ==> encoded_members(r@) == Set::<Seq<u8>>::empty(),
        decode_state(r@).unwrap().1 == 8 * filter_bytes(ops@.len(), OP_BITS_PER_ITEM as nat),
        forall|i: int| 0 <= i < ops@.len() ==> encoded_members(r@).contains(op_key_bytes(#[trigger] ops@[i]@)),
{
    build_ops_filter(ops, OP_BITS_PER_ITEM)
}

} // verus!
