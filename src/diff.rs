//! Time-windowed diff resolution: which local operations a remote peer is
//! missing, given what it said about one window of the timeline.
use crate::bloom::{
    bloom_check, bloom_state, decode_bloom_filter, decodes, encoded_members, members_of, bloom_wf,
};
use crate::error::GossipError;
use crate::key::{op_key, op_key_bytes};
use crate::snapshot::build_ops_filter;
use vstd::prelude::*;

verus! {

/// A closed range of timestamps (microseconds): both bounds are inside.
#[derive(Clone, Copy, Debug, PartialEq, Eq, Structural)]
pub struct TimeWindow {
    pub start: i64,
    pub end: i64,
}

impl TimeWindow {
    pub open spec fn spec_contains(self, t: i64) -> bool {
        self.start <= t && t <= self.end
    }

    pub fn new(start: i64, end: i64) -> (r: TimeWindow)
        ensures
            r.start == start,
            r.end == end,
    {
        TimeWindow { start, end }
    }

    /// Whether `t` lies in the window, bounds included.
    pub fn contains(&self, t: i64) -> (r: bool)
        ensures
            r == self.spec_contains(t),
    {
        self.start <= t && t <= self.end
    }
}

/// What a remote peer said about one window of the timeline.
#[derive(Clone, Debug)]
pub enum EncodedTimedBloomFilter {
    /// The two peers' windows of interest do not meet.
    NoOverlap,
    /// The remote peer sent no filter: it is missing everything in the window.
    MissingAllHashes { time_window: TimeWindow },
    /// The remote peer's encoded filter of what it holds in the window.
    HaveHashes { filter: Vec<u8>, time_window: TimeWindow },
}

/// Hashes of the operations of `ops` whose timestamp lies in `w` and, where
/// `present` is given, whose key is not in it; in the order of `ops`.
pub open spec fn missing_ops(ops: Seq<(i64, Vec<u8>)>, w: TimeWindow, present: Option<Set<Seq<u8>>>) -> Seq<Seq<u8>>
    decreases ops.len(),
{
    if ops.len() == 0 {
        Seq::empty()
    } else {
        let prev = missing_ops(ops.drop_last(), w, present);
        let (t, h) = ops.last();
        let absent = match present {
            Some(p) => !p.contains(op_key_bytes(h@)),
            None => true,
        };
        if w.spec_contains(t) && absent {
            prev.push(h@)
        } else {
            prev
        }
    }
}

/// What resolution gives: the missing hashes, or `None` where the remote
/// filter does not decode.
pub open spec fn resolve(ops: Seq<(i64, Vec<u8>)>, outcome: EncodedTimedBloomFilter) -> Option<Seq<Seq<u8>>> {
    match outcome {
        EncodedTimedBloomFilter::NoOverlap => Some(Seq::empty()),
        EncodedTimedBloomFilter::MissingAllHashes { time_window } => Some(missing_ops(ops, time_window, None)),
        EncodedTimedBloomFilter::HaveHashes { filter, time_window } => {
            if decodes(filter@) {
                Some(missing_ops(ops, time_window, Some(encoded_members(filter@))))
            } else {
                None
            }
        },
    }
}

/// Byte views of a sequence of hashes.
pub open spec fn hash_views(v: Seq<Vec<u8>>) -> Seq<Seq<u8>> {
    Seq::new(v.len(), |i: int| v[i]@)
}

/// Whether `r` is what resolving `outcome` against `ops` gives.
pub open spec fn resolves_to(ops: Seq<(i64, Vec<u8>)>, outcome: EncodedTimedBloomFilter, r: Result<Vec<Vec<u8>>, GossipError>) -> bool {
    match r {
        Ok(v) => resolve(ops, outcome) == Some(hash_views(v@)),
        Err(e) => resolve(ops, outcome) is None && e == GossipError::DecodeFailure,
    }
}

/// The hashes of the local operations `ops` (timestamp, hash) that the remote
/// peer is missing according to `bloom`: none for `NoOverlap`; those in the
/// window for `MissingAllHashes`; those in the window whose key the decoded
/// filter does not report for `HaveHashes`. A filter that does not decode
/// gives `DecodeFailure`.
pub fn check_ops_boom(ops: &Vec<(i64, Vec<u8>)>, bloom: &EncodedTimedBloomFilter) -> (r: Result<Vec<Vec<u8>>, GossipError>)
    ensures
        resolves_to(ops@, *bloom, r),
{
    let (window, decoded) = match bloom {
        EncodedTimedBloomFilter::NoOverlap => {
            let out: Vec<Vec<u8>> = Vec::new();
            assert(hash_views(out@) =~= Seq::<Seq<u8>>::empty());
            return Ok(out);
        },
        EncodedTimedBloomFilter::MissingAllHashes { time_window } => (*time_window, None),
        EncodedTimedBloomFilter::HaveHashes { filter, time_window } => {
            match decode_bloom_filter(filter.as_slice()) {
                Ok(f) => (*time_window, Some(f)),
                Err(e) => {
                    return Err(e);
                },
            }
        },
    };
    let ghost present: Option<Set<Seq<u8>>> = match bloom {
        EncodedTimedBloomFilter::HaveHashes { filter, .. } => Some(encoded_members(filter@)),
        _ => None,
    };
    let mut out: Vec<Vec<u8>> = Vec::new();
    let mut i: usize = 0;
    while i < ops.len()
        invariant
            i <= ops@.len(),
            hash_views(out@) == missing_ops(ops@.take(i as int), window, present),
            match decoded {
                Some(f) => present == Some(members_of(bloom_state(f)))
                    && bloom_wf(f),
                None => present is None,
            },
        decreases ops@.len() - i,
    {
        let (t, h) = &ops[i];
        assert(ops@.take(i + 1).drop_last() == ops@.take(i as int));
        let keep = if window.contains(*t) {
            match &decoded {
                Some(f) => !bloom_check(f, &op_key(h)),
                None => true,
            }
        } else {
            false
        };
        if keep {
            let c = h.clone();
            assert(c@ =~= h@);
            out.push(c);
            assert(hash_views(out@) =~= missing_ops(ops@.take(i as int), window, present).push(h@));
        }
        i = i + 1;
    }
    assert(ops@.take(ops@.len() as int) == ops@);
    proof {
        match bloom {
            EncodedTimedBloomFilter::HaveHashes { filter, .. } => {
                assert(decodes(filter@));
            },
            _ => {},
        }
    }
    Ok(out)
}

/// Given `NoOverlap`, resolution gives nothing, whatever the local operations.
pub proof fn lemma_no_overlap_resolves_empty(ops: Seq<(i64, Vec<u8>)>, r: Result<Vec<Vec<u8>>, GossipError>)
    requires
        resolves_to(ops, EncodedTimedBloomFilter::NoOverlap, r),
    ensures
        r is Ok,
        r.unwrap()@.len() == 0,
{
    assert(hash_views(r.unwrap()@).len() == r.unwrap()@.len());
}

/// Resolving the same outcome against the same operations twice gives the
/// same hashes, in the same order.
pub proof fn lemma_resolution_idempotent(
    ops: Seq<(i64, Vec<u8>)>,
    outcome: EncodedTimedBloomFilter,
    r1: Result<Vec<Vec<u8>>, GossipError>,
    r2: Result<Vec<Vec<u8>>, GossipError>,
)
    requires
        resolves_to(ops, outcome, r1),
        resolves_to(ops, outcome, r2),
    ensures
        r1 is Ok <==> r2 is Ok,
        r1 is Ok ==> hash_views(r1.unwrap()@) == hash_views(r2.unwrap()@),
        r1 is Err ==> r1 == r2,
{
}

/// Whether a hash `h` is absent from what the remote peer reported holding.
pub open spec fn absent_from(present: Option<Set<Seq<u8>>>, h: Seq<u8>) -> bool {
    match present {
        Some(p) => !p.contains(op_key_bytes(h)),
        None => true,
    }
}

/// A hash is reported exactly when some local operation with that hash lies
/// in the window and its key is absent from the remote filter (with no
/// filter, every operation in the window is reported).
pub proof fn lemma_missing_ops_exact(ops: Seq<(i64, Vec<u8>)>, w: TimeWindow, present: Option<Set<Seq<u8>>>, h: Seq<u8>)
    ensures
        missing_ops(ops, w, present).contains(h) <==> exists|i: int|
            0 <= i < ops.len() && w.spec_contains(#[trigger] ops[i].0) && ops[i].1@ == h && absent_from(present, h),
    decreases ops.len(),
{
    if ops.len() > 0 {
        let prev = ops.drop_last();
        lemma_missing_ops_exact(prev, w, present, h);
        let m = missing_ops(ops, w, present);
        let pm = missing_ops(prev, w, present);
        if m.contains(h) {
            let j = choose|j: int| 0 <= j < m.len() && m[j] == h;
            if j < pm.len() {
                assert(pm[j] == h);
                let i = choose|i: int|
                    0 <= i < prev.len() && w.spec_contains(#[trigger] prev[i].0) && prev[i].1@ == h && absent_from(present, h);
                assert(ops[i] == prev[i]);
            } else {
                let i = ops.len() - 1;
                assert(w.spec_contains(ops[i].0));
            }
        }
        if exists|i: int| 0 <= i < ops.len() && w.spec_contains(#[trigger] ops[i].0) && ops[i].1@ == h && absent_from(present, h) {
            let i = choose|i: int| 0 <= i < ops.len() && w.spec_contains(#[trigger] ops[i].0) && ops[i].1@ == h && absent_from(present, h);
            if i < ops.len() - 1 {
                assert(prev[i] == ops[i]);
                assert(pm.contains(h));
                let j = choose|j: int| 0 <= j < pm.len() && pm[j] == h;
                assert(m[j] == h);
            } else {
                assert(m.last() == h);
            }
        }
    }
}

/// A hash whose key the remote filter reports (every hash the remote peer
/// put in it, among others) is never reported as missing.
pub proof fn lemma_held_not_reported(ops: Seq<(i64, Vec<u8>)>, w: TimeWindow, filter: Seq<u8>, h: Seq<u8>)
    requires
        encoded_members(filter).contains(op_key_bytes(h)),
    ensures
        !missing_ops(ops, w, Some(encoded_members(filter))).contains(h),
{
    lemma_missing_ops_exact(ops, w, Some(encoded_members(filter)), h);
}

/// Against a filter that reports no key, such as the operation snapshot of
/// an empty collection, every local operation in the window is reported,
/// just as when the remote peer sent no filter.
pub proof fn lemma_empty_filter_reports_all(ops: Seq<(i64, Vec<u8>)>, w: TimeWindow)
    ensures
        missing_ops(ops, w, Some(Set::<Seq<u8>>::empty())) == missing_ops(ops, w, None),
    decreases ops.len(),
{
    if ops.len() > 0 {
        lemma_empty_filter_reports_all(ops.drop_last(), w);
    }
}

/// The common part of two windows, if they meet.
pub open spec fn window_meet(a: TimeWindow, b: TimeWindow) -> Option<TimeWindow> {
    let start = if a.start >= b.start { a.start } else { b.start };
    let end = if a.end <= b.end { a.end } else { b.end };
    if start <= end {
        Some(TimeWindow { start, end })
    } else {
        None
    }
}

/// What this peer tells a remote peer about the window `remote` that it
/// asked for, given its own window of interest `local` and its operations:
/// `NoOverlap` when the windows do not meet; `MissingAllHashes` over the
/// common window when no local operation lies in it; else `HaveHashes` with
/// a filter, at `bits_per_item`, that holds the key of every local operation
/// in the common window.
pub fn timed_outcome(ops: &Vec<(i64, Vec<u8>)>, local: TimeWindow, remote: TimeWindow, bits_per_item: usize) -> (r: EncodedTimedBloomFilter)
    requires
        0 < bits_per_item,
    ensures
        window_meet(local, remote) is None <==> r is NoOverlap,
        window_meet(local, remote) is Some ==> ({
            let w = window_meet(local, remote).unwrap();
            let any = exists|i: int| 0 <= i < ops@.len() && w.spec_contains(#[trigger] ops@[i].0);
            &&& !any ==> r == EncodedTimedBloomFilter::MissingAllHashes { time_window: w }
            &&& any ==> r is HaveHashes
            &&& r matches EncodedTimedBloomFilter::HaveHashes { filter, time_window } ==> {
                &&& time_window == w
                &&& decodes(filter@)
                &&& forall|i: int| 0 <= i < ops@.len() && w.spec_contains(#[trigger] ops@[i].0)
                    ==> encoded_members(filter@).contains(op_key_bytes(ops@[i].1@))
            }
        }),
{
    let start = if local.start >= remote.start { local.start } else { remote.start };
    let end = if local.end <= remote.end { local.end } else { remote.end };
    if start > end {
        return EncodedTimedBloomFilter::NoOverlap;
    }
    let w = TimeWindow { start, end };
    let mut hashes: Vec<Vec<u8>> = Vec::new();
    let ghost mut idx: Seq<int> = Seq::empty();
    let mut i: usize = 0;
    while i < ops.len()
        invariant
            i <= ops@.len(),
            hashes@.len() <= i,
            idx.len() == hashes@.len(),
            forall|k: int| 0 <= k < hashes@.len() ==> 0 <= #[trigger] idx[k] < i && hashes@[k]@ == ops@[idx[k]].1@
                && w.spec_contains(ops@[idx[k]].0),
            forall|j: int| 0 <= j < i && w.spec_contains(#[trigger] ops@[j].0) ==> exists|k: int|
                0 <= k < hashes@.len() && idx[k] == j,
        decreases ops@.len() - i,
    {
        let ghost prev_idx = idx;
        let ghost prev_len = hashes@.len();
        if w.contains(ops[i].0) {
            let c = ops[i].1.clone();
            assert(c@ =~= ops@[i as int].1@);
            hashes.push(c);
            proof {
                idx = idx.push(i as int);
                assert(idx[hashes@.len() - 1] == i);
            }
        }
        i = i + 1;
        proof {
            assert forall|j: int| 0 <= j < i && w.spec_contains(#[trigger] ops@[j].0) implies exists|k: int|
                0 <= k < hashes@.len() && idx[k] == j by {
                if j < i - 1 {
                    let k = choose|k: int| 0 <= k < prev_len && prev_idx[k] == j;
                    assert(idx[k] == j);
                } else {
                    assert(idx[hashes@.len() - 1] == j);
                }
            }
        }
    }
    if hashes.len() == 0 {
        proof {
            if exists|j: int| 0 <= j < ops@.len() && w.spec_contains(#[trigger] ops@[j].0) {
                let j = choose|j: int| 0 <= j < ops@.len() && w.spec_contains(#[trigger] ops@[j].0);
                let k = choose|k: int| 0 <= k < hashes@.len() && idx[k] == j;
            }
        }
        return EncodedTimedBloomFilter::MissingAllHashes { time_window: w };
    }
    let filter = build_ops_filter(&hashes, bits_per_item);
    proof {
        assert(w.spec_contains(ops@[idx[0]].0));
        assert forall|j: int| 0 <= j < ops@.len() && w.spec_contains(#[trigger] ops@[j].0)
            implies encoded_members(filter@).contains(op_key_bytes(ops@[j].1@)) by {
            let k = choose|k: int| 0 <= k < hashes@.len() && idx[k] == j;
            assert(hashes@[k]@ == ops@[j].1@);
        }
    }
    EncodedTimedBloomFilter::HaveHashes { filter, time_window: w }
}

} // verus!
