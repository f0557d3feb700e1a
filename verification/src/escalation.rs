//! When failing restarts are told to the people around.

use crate::clock::{Instant, NANOS_PER_SEC};
use crate::fleet::ESCALATION_MINS;
use crate::supervisor::{decided_by, outcomes_of, OutcomeModel, PassReport, RestartOutcome};
use vstd::prelude::*;

verus! {

/// Whether one of the outcomes is a restart.
pub open spec fn restarts_any(outcomes: Seq<OutcomeModel>) -> bool {
    exists|i: int| 0 <= i < outcomes.len() && (#[trigger] outcomes[i]) is Restarted
}

/// Since when restarts fail, after a pass at `now`: a failed restart begins it,
/// a restart in a pass without a failure ends it, and a pass that has nothing to
/// restart leaves it as it was.
pub open spec fn failing_since_of(
    since: Option<Instant>,
    r: PassReport,
    now: Instant,
) -> Option<Instant> {
    if r.restarted is Err {
        match since {
            Some(t) => Some(t),
            None => Some(now),
        }
    } else if restarts_any(decided_by(r.restarted)) {
        None
    } else {
        since
    }
}

/// Since when restarts fail, after a pass at `now` with this report.
pub fn failing_since(since: Option<Instant>, report: &PassReport, now: Instant) -> (r: Option<
    Instant,
>)
    ensures
        r == failing_since_of(since, *report, now),
{
    match &report.restarted {
        Err(_) => match since {
            Some(t) => Some(t),
            None => Some(now),
        },
        Ok(outcomes) => {
            let ghost os = outcomes_of(outcomes@);
            let mut i: usize = 0;
            while i < outcomes.len()
                invariant
                    i <= outcomes.len(),
                    os == outcomes_of(outcomes@),
                    os == decided_by(report.restarted),
                    report.restarted is Ok,
                    forall|j: int| 0 <= j < i ==> !((#[trigger] os[j]) is Restarted),
                decreases outcomes.len() - i,
            {
                assert(os[i as int] == outcomes@[i as int]@);
                match &outcomes[i] {
                    RestartOutcome::Restarted { name: _, child_pid: _, restart_count: _ } => {
                        return None;
                    },
                    RestartOutcome::EnteredBackoff { name: _, restarts_in_window: _ } => {},
                }
                i += 1;
            }
            since
        },
    }
}

/// Whether an error is to be spoken at `now`: restarts have failed for as long as
/// it takes, and the voice still runs.
pub fn escalates(since: Option<Instant>, now: Instant, voice_runs: bool) -> (r: bool)
    ensures
        r == match since {
            Some(t) => voice_runs && now.nanos - t.nanos >= ESCALATION_MINS * 60 * NANOS_PER_SEC,
            None => false,
        },
{
    match since {
        Some(t) => voice_runs && now.nanos >= t.nanos && now.nanos - t.nanos >= (
        ESCALATION_MINS as u128) * 60 * NANOS_PER_SEC,
        None => false,
    }
}

/// While restarts go on failing, the time since when they fail does not move, so
/// that the error is due once it is old enough.
pub proof fn law_failing_goes_on(
    since: Option<Instant>,
    first: PassReport,
    t: Instant,
    next: PassReport,
    now: Instant,
)
    requires
        first.restarted is Err,
        next.restarted is Err,
    ensures
        ({
            let begun = failing_since_of(since, first, t);
            &&& begun == if since is Some {
                since
            } else {
                Some(t)
            }
            &&& failing_since_of(begun, next, now) == begun
        }),
{
}

} // verus!
