//! What holds of the watchdog.

use crate::clock::{Instant, NANOS_PER_SEC};
use crate::text::texts;
use crate::watchdog::{
    all_attempts, events_of, handled, is_fleet_unit, lemma_handled_keeps, lemma_pause, may_come_up,
    pause_after, state_of, states_wf, tick_run, wants_attempt, HealthEvent, RecoveryState,
    SystemctlBackend, WatchdogError, GIVE_UP_AFTER, INITIAL_BACKOFF_SECS, MAX_BACKOFF_SECS,
    WATCHDOG_UNIT_NAME,
};
use vstd::prelude::*;

verus! {

/// The pauses never shrink, never exceed the longest, start at the initial one
/// and double until they reach the longest.
pub proof fn law_pauses_grow(k: nat)
    ensures
        pause_after(0) == INITIAL_BACKOFF_SECS,
        pause_after(k) <= pause_after(k + 1) <= MAX_BACKOFF_SECS,
        pause_after(k + 1) == pause_after(k) * 2 || pause_after(k + 1) == MAX_BACKOFF_SECS,
{
    lemma_pause(k);
    lemma_pause(k + 1);
}

/// The state after failures in a row at the given times.
pub open spec fn failed_all(s: RecoveryState, times: Seq<Instant>) -> RecoveryState
    decreases times.len(),
{
    if times.len() == 0 {
        s
    } else {
        failed_all(s, times.drop_last()).failed(times.last())
    }
}

/// A unit that fails again and again is given up with exactly the failure that
/// it takes, not earlier; until then its pause follows the schedule, and each
/// failure forbids attempts for just the pause that was due.
pub proof fn law_gives_up_in_time(times: Seq<Instant>)
    requires
        times.len() <= GIVE_UP_AFTER,
        forall|i: int|
            0 <= i < times.len() ==> (#[trigger] times[i]).nanos + MAX_BACKOFF_SECS * NANOS_PER_SEC
                <= u128::MAX,
    ensures
        ({
            let s = failed_all(RecoveryState::fresh(), times);
            &&& s.consecutive_failures == times.len()
            &&& s.gave_up <==> times.len() == GIVE_UP_AFTER
            &&& !s.gave_up ==> s.current_backoff.nanos == pause_after(times.len()) * NANOS_PER_SEC
            &&& !s.gave_up && times.len() > 0 ==> forall|now: Instant| #[trigger]
                s.ready(now) <==> now.nanos >= times.last().nanos + pause_after(
                    (times.len() - 1) as nat,
                ) * NANOS_PER_SEC
        }),
    decreases times.len(),
{
    if times.len() > 0 {
        let rest = times.drop_last();
        assert forall|i: int| 0 <= i < rest.len() implies (#[trigger] rest[i]).nanos
            + MAX_BACKOFF_SECS * NANOS_PER_SEC <= u128::MAX by {
            assert(rest[i] == times[i]);
        }
        law_gives_up_in_time(rest);
        lemma_pause(rest.len());
        lemma_pause(times.len());
        assert(times[times.len() - 1].nanos + MAX_BACKOFF_SECS * NANOS_PER_SEC <= u128::MAX);
    }
}

/// A recovery starts everything over: whatever failed before, the unit counts
/// no failure, has the initial pause, and may be attempted at once.
pub proof fn law_recovery_starts_over(s: RecoveryState, now: Instant)
    requires
        !s.gave_up,
    ensures
        s.recovered() == RecoveryState::fresh(),
        s.recovered().ready(now),
{
}

/// A unit that was given up is never attempted again, and stays given up.
pub proof fn law_given_up_for_good(s: RecoveryState, now: Instant)
    requires
        s.gave_up,
    ensures
        !s.ready(now),
        s.recovered().gave_up,
        s.failed(now).gave_up,
{
}

/// The watchdog's own unit is not in its scope.
pub proof fn law_never_itself()
    ensures
        !is_fleet_unit(WATCHDOG_UNIT_NAME@),
{
}

/// Whether `unit` is none of a tick's business: it cannot come out as failed, is
/// outside the fleet, was given up, or is still in its pause.
pub open spec fn left_alone<B: SystemctlBackend>(
    backend: &B,
    states: Map<Seq<char>, RecoveryState>,
    now: Instant,
    unit: Seq<char>,
) -> bool {
    ||| !is_fleet_unit(unit)
    ||| !state_of(states, unit).ready(now)
    ||| forall|units: Vec<String>| #[trigger]
        call_ensures(
            B::list_failed_units,
            (backend,),
            Ok::<Vec<String>, WatchdogError>(units),
        ) ==> !texts(units@).contains(unit)
}

/// A tick may name exactly the units that are not left alone: no manager has to
/// allow another one, so none is asked to change, or about, another one.
pub proof fn law_only_due_units_are_named<B: SystemctlBackend>(
    backend: &B,
    states: Map<Seq<char>, RecoveryState>,
    now: Instant,
    unit: Seq<char>,
)
    ensures
        may_come_up(backend, states, now, unit) <==> !left_alone(backend, states, now, unit),
        left_alone(backend, states, now, WATCHDOG_UNIT_NAME@),
{
}

/// A tick changes the state of no unit that was not listed, of none outside the
/// fleet, of none that was given up, of none that is still in its pause; nor
/// does it report one.
pub proof fn law_tick_keeps_out_of_scope<B: SystemctlBackend>(
    backend: &B,
    states: Map<Seq<char>, RecoveryState>,
    now: Instant,
    states_after: Map<Seq<char>, RecoveryState>,
    r: Result<Vec<HealthEvent>, WatchdogError>,
    unit: Seq<char>,
)
    requires
        tick_run(backend, states, now, states_after, r),
        left_alone(backend, states, now, unit),
    ensures
        states_after.contains_key(unit) == states.contains_key(unit),
        states.contains_key(unit) ==> states_after[unit] == states[unit],
        r matches Ok(events) ==> forall|i: int|
            0 <= i < events@.len() ==> (#[trigger] events@[i]).unit@ != unit,
{
    if let Ok(events) = r {
        let (units, ups) = choose|units: Vec<String>, ups: Seq<bool>|
            {
                &&& #[trigger] call_ensures(
                    B::list_failed_units,
                    (backend,),
                    Ok::<Vec<String>, WatchdogError>(units),
                )
                &&& #[trigger] all_attempts(backend, states, texts(units@), now, ups)
                &&& ups.len() == units@.len()
                &&& states_after == handled(states, texts(units@), now, ups).states
                &&& events_of(events@) == handled(states, texts(units@), now, ups).events
            };
        lemma_handled_keeps(states, texts(units@), now, ups, unit);
        assert forall|i: int| 0 <= i < events@.len() implies (#[trigger] events@[i]).unit@
            != unit by {
            assert(events_of(events@)[i].0 == events@[i].unit@);
        }
    }
}

/// What the events of a tick are.
proof fn lemma_handled_events(
    states: Map<Seq<char>, RecoveryState>,
    units: Seq<Seq<char>>,
    now: Instant,
    ups: Seq<bool>,
)
    requires
        states_wf(states),
        now.nanos + MAX_BACKOFF_SECS * NANOS_PER_SEC <= u128::MAX,
        ups.len() <= units.len(),
    ensures
        states_wf(handled(states, units, now, ups).states),
        ({
            let run = handled(states, units, now, ups);
            &&& forall|u: Seq<char>|
                state_of(states, u).gave_up ==> (#[trigger] state_of(run.states, u)).gave_up
            &&& forall|i: int|
                0 <= i < run.events.len() ==> {
                    let e = #[trigger] run.events[i];
                    &&& e.1 == GIVE_UP_AFTER
                    &&& !state_of(states, e.0).gave_up
                    &&& run.states.contains_key(e.0)
                    &&& run.states[e.0].gave_up
                }
            &&& forall|i: int, j: int|
                0 <= i < j < run.events.len() ==> (#[trigger] run.events[i]).0 != (
                #[trigger] run.events[j]).0
            &&& forall|u: Seq<char>|
                !state_of(states, u).gave_up && (#[trigger] state_of(run.states, u)).gave_up
                    ==> run.events.contains((u, GIVE_UP_AFTER))
        }),
    decreases ups.len(),
{
    if ups.len() > 0 {
        let k = ups.len() - 1;
        lemma_handled_events(states, units, now, ups.drop_last());
        let prev = handled(states, units, now, ups.drop_last());
        let run = handled(states, units, now, ups);
        let unit = units[k];
        let s = state_of(prev.states, unit);
        assert(s.wf());
        lemma_pause(s.consecutive_failures as nat);
        lemma_pause(s.consecutive_failures as nat + 1);
        if wants_attempt(prev.states, unit, now) && !ups.last() && s.failed(now).gave_up {
            let e = (unit, s.failed(now).consecutive_failures);
            assert(e.1 == GIVE_UP_AFTER);
            assert(run.events == prev.events.push(e));
            assert forall|i: int, j: int| 0 <= i < j < run.events.len() implies (
            #[trigger] run.events[i]).0 != (#[trigger] run.events[j]).0 by {
                assert(run.events[i] == prev.events[i]);
                if j < prev.events.len() {
                    assert(run.events[j] == prev.events[j]);
                } else {
                    assert(prev.states[prev.events[i].0].gave_up);
                }
            }
            assert forall|u: Seq<char>|
                !state_of(states, u).gave_up && (#[trigger] state_of(
                    run.states,
                    u,
                )).gave_up implies run.events.contains((u, GIVE_UP_AFTER)) by {
                if u == unit {
                    assert(run.events[run.events.len() - 1] == (u, GIVE_UP_AFTER));
                } else {
                    assert(state_of(run.states, u) == state_of(prev.states, u));
                    let i = prev.events.index_of((u, GIVE_UP_AFTER));
                    assert(run.events[i] == (u, GIVE_UP_AFTER));
                }
            }
        } else {
            assert(run.events == prev.events);
            assert forall|u: Seq<char>|
                !state_of(states, u).gave_up && (#[trigger] state_of(
                    run.states,
                    u,
                )).gave_up implies run.events.contains((u, GIVE_UP_AFTER)) by {
                assert(state_of(prev.states, u).gave_up);
            }
        }
        assert forall|u: Seq<char>| state_of(states, u).gave_up implies (#[trigger] state_of(
            run.states,
            u,
        )).gave_up by {
            assert(state_of(prev.states, u).gave_up);
        }
        assert forall|u: Seq<char>| #[trigger] run.states.contains_key(u) implies is_fleet_unit(u)
            && run.states[u].wf() by {
            if u != unit {
                assert(prev.states.contains_key(u));
            }
        }
        assert forall|i: int| 0 <= i < run.events.len() implies {
            let e = #[trigger] run.events[i];
            &&& e.1 == GIVE_UP_AFTER
            &&& !state_of(states, e.0).gave_up
            &&& run.states.contains_key(e.0)
            &&& run.states[e.0].gave_up
        } by {
            if i < prev.events.len() {
                assert(run.events[i] == prev.events[i]);
                assert(state_of(prev.states, prev.events[i].0).gave_up);
            } else {
                assert(run.events[i].0 == unit);
                if state_of(states, unit).gave_up {
                    assert(state_of(prev.states, unit).gave_up);
                }
            }
        }
    }
}

/// A tick reports a unit exactly when it gives the unit up, once, with the
/// number of attempts that it takes; and what was given up stays so. Since a
/// unit is given up once at most, it is reported once in a lifetime.
pub proof fn law_given_up_is_reported_once<B: SystemctlBackend>(
    backend: &B,
    states: Map<Seq<char>, RecoveryState>,
    now: Instant,
    states_after: Map<Seq<char>, RecoveryState>,
    events: Vec<HealthEvent>,
)
    requires
        states_wf(states),
        now.nanos + MAX_BACKOFF_SECS * NANOS_PER_SEC <= u128::MAX,
        tick_run(backend, states, now, states_after, Ok(events)),
    ensures
        states_wf(states_after),
        forall|u: Seq<char>|
            state_of(states, u).gave_up ==> (#[trigger] state_of(states_after, u)).gave_up,
        forall|u: Seq<char>|
            (!state_of(states, u).gave_up && (#[trigger] state_of(states_after, u)).gave_up)
                <==> events_of(events@).contains((u, GIVE_UP_AFTER)),
        forall|i: int|
            0 <= i < events@.len() ==> (#[trigger] events@[i]).attempts == GIVE_UP_AFTER,
        forall|i: int, j: int|
            0 <= i < j < events@.len() ==> (#[trigger] events@[i]).unit@ != (
            #[trigger] events@[j]).unit@,
{
    let (units, ups) = choose|units: Vec<String>, ups: Seq<bool>|
        {
            &&& #[trigger] call_ensures(
                B::list_failed_units,
                (backend,),
                Ok::<Vec<String>, WatchdogError>(units),
            )
            &&& #[trigger] all_attempts(backend, states, texts(units@), now, ups)
            &&& ups.len() == units@.len()
            &&& states_after == handled(states, texts(units@), now, ups).states
            &&& events_of(events@) == handled(states, texts(units@), now, ups).events
        };
    lemma_handled_events(states, texts(units@), now, ups);
    let run = handled(states, texts(units@), now, ups);
    assert forall|i: int| 0 <= i < events@.len() implies (#[trigger] events@[i]).attempts
        == GIVE_UP_AFTER by {
        assert(events_of(events@)[i] == (events@[i].unit@, events@[i].attempts));
    }
    assert forall|i: int, j: int| 0 <= i < j < events@.len() implies (#[trigger] events@[i]).unit@
        != (#[trigger] events@[j]).unit@ by {
        assert(events_of(events@)[i].0 == events@[i].unit@);
        assert(events_of(events@)[j].0 == events@[j].unit@);
    }
    assert forall|u: Seq<char>|
        events_of(events@).contains((u, GIVE_UP_AFTER)) implies !state_of(states, u).gave_up && (
    #[trigger] state_of(states_after, u)).gave_up by {
        let i = run.events.index_of((u, GIVE_UP_AFTER));
        assert(run.events[i].0 == u);
    }
}

} // verus!
