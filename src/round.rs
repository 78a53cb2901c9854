//! The reconciliation round of one peer session: its phases, and the
//! partition of a time range into bounded windows.
use crate::diff::TimeWindow;
use vstd::prelude::*;

verus! {

/// Phases of a round, in order.
#[derive(Clone, Copy, Debug, PartialEq, Eq, Structural)]
pub enum RoundState {
    Idle,
    ArcsExchanged,
    WindowSelected,
    FilterExchanged,
    OutcomeResolved,
    PushPull,
}

/// What happened in the current phase.
#[derive(Clone, Copy, Debug, PartialEq, Eq, Structural)]
pub enum RoundEvent {
    /// The phase's work finished.
    Completed,
    /// The phase's work failed (decode failure, timeout, store unavailable).
    Failed,
    /// The round was cancelled, for instance because the peer went away.
    Cancelled,
}

/// The phase that follows `s` when its work completes.
pub open spec fn next_phase(s: RoundState) -> RoundState {
    match s {
        RoundState::Idle => RoundState::ArcsExchanged,
        RoundState::ArcsExchanged => RoundState::WindowSelected,
        RoundState::WindowSelected => RoundState::FilterExchanged,
        RoundState::FilterExchanged => RoundState::OutcomeResolved,
        RoundState::OutcomeResolved => RoundState::PushPull,
        RoundState::PushPull => RoundState::Idle,
    }
}

/// Moves a round on: a completed phase leads to the next one, and the last
/// back to `Idle`; a failure or a cancellation in any phase ends the round
/// in `Idle`, from where the next gossip tick may start afresh.
pub fn round_step(s: RoundState, e: RoundEvent) -> (r: RoundState)
    ensures
        e == RoundEvent::Completed ==> r == next_phase(s),
        e != RoundEvent::Completed ==> r == RoundState::Idle,
{
    match e {
        RoundEvent::Completed => match s {
            RoundState::Idle => RoundState::ArcsExchanged,
            RoundState::ArcsExchanged => RoundState::WindowSelected,
            RoundState::WindowSelected => RoundState::FilterExchanged,
            RoundState::FilterExchanged => RoundState::OutcomeResolved,
            RoundState::OutcomeResolved => RoundState::PushPull,
            RoundState::PushPull => RoundState::Idle,
        },
        _ => RoundState::Idle,
    }
}

/// Whether `ws` splits the closed range `[start, end]` into consecutive
/// windows, in order, each of exactly `max_len` timestamps but the last,
/// which holds at most `max_len`.
pub open spec fn is_partition(ws: Seq<TimeWindow>, start: i64, end: i64, max_len: i64) -> bool {
    &&& ws.len() >= 1
    &&& ws[0].start == start
    &&& ws.last().end == end
    &&& forall|i: int| 0 <= i < ws.len() ==> #[trigger] ws[i].start <= ws[i].end
        && ws[i].end - ws[i].start < max_len
    &&& forall|i: int| 0 <= i < ws.len() - 1 ==> #[trigger] ws[i + 1].start == ws[i].end + 1
    &&& forall|i: int| 0 <= i < ws.len() - 1 ==> #[trigger] ws[i].end - ws[i].start == max_len - 1
}

/// Splits `[start, end]` into consecutive closed windows of `max_len`
/// timestamps, the last one possibly shorter.
pub fn partition_windows(start: i64, end: i64, max_len: i64) -> (r: Vec<TimeWindow>)
    requires
        start <= end,
        0 < max_len,
    ensures
        is_partition(r@, start, end, max_len),
{
    let mut out: Vec<TimeWindow> = Vec::new();
    let mut cur: i64 = start;
    loop
        invariant
            start <= cur <= end,
            0 < max_len,
            out@.len() == 0 ==> cur == start,
            out@.len() > 0 ==> out@.last().end + 1 == cur,
            out@.len() > 0 ==> out@[0].start == start,
            forall|i: int| 0 <= i < out@.len() ==> #[trigger] out@[i].start <= out@[i].end
                && out@[i].end - out@[i].start < max_len,
            forall|i: int| 0 <= i < out@.len() - 1 ==> #[trigger] out@[i + 1].start == out@[i].end + 1,
            forall|i: int| 0 <= i < out@.len() ==> #[trigger] out@[i].end - out@[i].start == max_len - 1,
        decreases end - cur,
    {
        if (end as i128) - (cur as i128) < max_len as i128 {
            out.push(TimeWindow { start: cur, end });
            return out;
        }
        let last: i64 = cur + (max_len - 1);
        out.push(TimeWindow { start: cur, end: last });
        cur = last + 1;
    }
}

/// Every timestamp of `[start, end]` lies in some window of a partition of
/// that range.
pub proof fn lemma_partition_covers(ws: Seq<TimeWindow>, start: i64, end: i64, max_len: i64, t: i64)
    requires
        is_partition(ws, start, end, max_len),
        start <= t <= end,
    ensures
        exists|i: int| 0 <= i < ws.len() && (#[trigger] ws[i]).spec_contains(t),
    decreases ws.len(),
{
    let n = ws.len() as int;
    if t >= ws[n - 1].start {
        assert(ws[n - 1].spec_contains(t));
    } else {
        let prefix = ws.drop_last();
        assert(n >= 2);
        let j = n - 2;
        assert(ws[j + 1].start == ws[j].end + 1);
        assert(is_partition(prefix, start, ws[n - 2].end, max_len)) by {
            assert forall|i: int| 0 <= i < prefix.len() - 1 implies #[trigger] prefix[i + 1].start == prefix[i].end + 1 by {
                assert(ws[i + 1].start == ws[i].end + 1);
            }
        }
        lemma_partition_covers(prefix, start, ws[n - 2].end, max_len, t);
        let i = choose|i: int| 0 <= i < prefix.len() && (#[trigger] prefix[i]).spec_contains(t);
        assert(ws[i].spec_contains(t));
    }
}

} // verus!
