//! The running balance of one card and the rule by which a newly reported
//! balance replaces it.

use crate::timestamp::Timestamp;
use vstd::prelude::*;

verus! {

/// The current balance of a card: the total last accepted, the change that
/// total made to the one before it, and when it was accepted.
#[derive(Clone, Copy, Debug, PartialEq, Eq, Structural)]
pub struct RunningState {
    pub last_total_due: i64,
    pub last_delta: i64,
    pub updated_at: Timestamp,
}

/// The monotonicity policy: a reported total replaces the current one only
/// if it is not below it. The change must also fit the signed delta, which
/// it always does when the current total is not negative.
pub open spec fn admissible(current: int, reported: int) -> bool {
    current <= reported && reported - current <= i64::MAX
}

impl RunningState {
    /// The state of a card with no accepted transaction: balance and delta
    /// are zero.
    pub open spec fn opened(at: Timestamp) -> RunningState {
        RunningState { last_total_due: 0, last_delta: 0, updated_at: at }
    }

    /// The state after `reported` has replaced the current total at `now`.
    pub open spec fn advanced(self, reported: i64, now: Timestamp) -> RunningState {
        RunningState {
            last_total_due: reported,
            last_delta: (reported - self.last_total_due) as i64,
            updated_at: now,
        }
    }

    /// Balances are never negative, and the last change never exceeds the
    /// balance it led to.
    pub open spec fn wf(self) -> bool {
        0 <= self.last_delta <= self.last_total_due
    }

    /// Whether `reported` may replace the current total.
    pub open spec fn accepts(self, reported: i64) -> bool {
        admissible(self.last_total_due as int, reported as int)
    }

    /// The zero state of a card created or reset at `at`.
    pub fn open(at: Timestamp) -> (state: RunningState)
        ensures
            state == RunningState::opened(at),
            state.wf(),
    {
        RunningState { last_total_due: 0, last_delta: 0, updated_at: at }
    }

    /// The conditional update: where the policy admits `reported`, the
    /// state advances to it and the change is returned; otherwise the
    /// state stays as it is and nothing is returned.
    pub fn conditional_update(&mut self, reported: i64, now: Timestamp) -> (delta: Option<i64>)
        ensures
            old(self).accepts(reported) ==> delta == Some(
                (reported - old(self).last_total_due) as i64,
            ) && *final(self) == old(self).advanced(reported, now),
            !old(self).accepts(reported) ==> delta.is_none() && *final(self) == *old(self),
            old(self).wf() ==> final(self).wf(),
            old(self).wf() ==> (old(self).accepts(reported) <==> reported
                >= old(self).last_total_due),
    {
        if reported < self.last_total_due {
            return None;
        }
        match reported.checked_sub(self.last_total_due) {
            Some(change) => {
                self.last_delta = change;
                self.last_total_due = reported;
                self.updated_at = now;
                Some(change)
            },
            None => None,
        }
    }
}

/// The state that `start` has come to after the totals `reports` were
/// reported in order, each at its time: a report that the policy admits
/// advances the state, one that it refuses leaves the state as it is.
pub open spec fn replayed(start: RunningState, reports: Seq<(i64, Timestamp)>) -> RunningState
    decreases reports.len(),
{
    if reports.len() == 0 {
        start
    } else {
        let before = replayed(start, reports.drop_last());
        if before.accepts(reports.last().0) {
            before.advanced(reports.last().0, reports.last().1)
        } else {
            before
        }
    }
}

/// Every one of `reports` was accepted when its turn came.
pub open spec fn all_accepted(start: RunningState, reports: Seq<(i64, Timestamp)>) -> bool
    decreases reports.len(),
{
    reports.len() > 0 ==> all_accepted(start, reports.drop_last()) && replayed(
        start,
        reports.drop_last(),
    ).accepts(reports.last().0)
}

/// The total that stood before the last of `reports` was accepted.
pub open spec fn total_before_last(start: RunningState, reports: Seq<(i64, Timestamp)>) -> int {
    if reports.len() <= 1 {
        start.last_total_due as int
    } else {
        reports[reports.len() - 2].0 as int
    }
}

/// Balance correctness: after any sequence of accepted reports on one
/// card, the balance is the total reported last, and the delta is its
/// difference from the total accepted just before it.
pub proof fn lemma_balance_follows_reports(start: RunningState, reports: Seq<(i64, Timestamp)>)
    requires
        start.wf(),
        reports.len() > 0,
        all_accepted(start, reports),
    ensures
        replayed(start, reports).last_total_due == reports.last().0,
        replayed(start, reports).last_delta == reports.last().0 - total_before_last(start, reports),
        replayed(start, reports).updated_at == reports.last().1,
        replayed(start, reports).wf(),
    decreases reports.len(),
{
    let earlier = reports.drop_last();
    if earlier.len() > 0 {
        lemma_balance_follows_reports(start, earlier);
        assert(earlier.last() == reports[reports.len() - 2]);
    }
}

/// Under the policy the balance never falls: whatever is reported, in
/// whatever order, a well-formed state stays well formed and its total
/// does not drop below where it started.
pub proof fn lemma_balance_never_falls(start: RunningState, reports: Seq<(i64, Timestamp)>)
    requires
        start.wf(),
    ensures
        replayed(start, reports).wf(),
        replayed(start, reports).last_total_due >= start.last_total_due,
    decreases reports.len(),
{
    if reports.len() > 0 {
        lemma_balance_never_falls(start, reports.drop_last());
    }
}

/// A reset state is the state of a new card: whatever is reported next,
/// both answer alike.
pub proof fn lemma_reset_state_is_new(reported: i64, now: Timestamp)
    ensures
        RunningState::opened(now).wf(),
        RunningState::opened(now).accepts(reported) <==> reported >= 0,
        RunningState::opened(now).accepts(reported) ==> RunningState::opened(now).advanced(
            reported,
            now,
        ).last_delta == reported,
{
}

} // verus!
