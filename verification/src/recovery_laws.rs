//! What a tick of the watchdog does for each unit.

use crate::clock::Instant;
use crate::text::texts;
use crate::watchdog::{
    all_attempts, attempt, fails, handled, is_fleet_unit, pause_after, resets, state_of, tick_run,
    unit_starts, HealthEvent, RecoveryState, SystemctlBackend, WatchdogError, WATCHDOG_UNIT_NAME,
};
use vstd::prelude::*;

verus! {

/// The pauses are two seconds, four, eight and so on, each twice the one before,
/// and five minutes from the ninth on.
pub proof fn law_pauses_double_up_to_five_minutes(k: nat)
    ensures
        pause_after(0) == 2,
        k < 7 ==> pause_after(k + 1) == 2 * pause_after(k) <= 256,
        k >= 8 ==> pause_after(k) == 300,
    decreases k,
{
    reveal_with_fuel(pause_after, 9);
    if k > 8 {
        law_pauses_double_up_to_five_minutes((k - 1) as nat);
    }
}

/// A failure is counted and nothing else of it depends on the time but when the
/// next attempt is due: after the pause that stood before it, which then doubles
/// up to five minutes. The eighth failure in a row gives the unit up and leaves
/// the pause as it was.
pub proof fn law_failure_is_counted_and_waits(s: RecoveryState, now: Instant)
    requires
        s.consecutive_failures < u32::MAX,
        s.current_backoff.nanos <= 300_000_000_000,
        now.nanos + 300_000_000_000 <= u128::MAX,
    ensures
        ({
            let f = s.failed(now);
            &&& f.consecutive_failures == s.consecutive_failures + 1
            &&& f.gave_up == (s.gave_up || s.consecutive_failures >= 7)
            &&& s.consecutive_failures < 7 ==> {
                &&& f.retry_after matches Some(t) && t.nanos == now.nanos + s.current_backoff.nanos
                &&& s.current_backoff.nanos <= 150_000_000_000 ==> f.current_backoff.nanos == 2
                    * s.current_backoff.nanos
                &&& s.current_backoff.nanos > 150_000_000_000 ==> f.current_backoff.nanos
                    == 300_000_000_000
            }
            &&& s.consecutive_failures >= 7 ==> f.retry_after == s.retry_after && f.current_backoff
                == s.current_backoff
        }),
{
}

/// A unit that was never seen, like one that recovered, has no failure, may be
/// attempted at any time, and will wait two seconds after its first failure.
pub proof fn law_fresh_unit_may_be_attempted(s: RecoveryState, now: Instant)
    ensures
        RecoveryState::fresh().consecutive_failures == 0,
        RecoveryState::fresh().current_backoff.nanos == 2_000_000_000,
        RecoveryState::fresh().retry_after is None,
        !RecoveryState::fresh().gave_up,
        s.recovered().consecutive_failures == 0,
        s.recovered().current_backoff.nanos == 2_000_000_000,
        s.recovered().retry_after is None,
        s.recovered().gave_up == s.gave_up,
{
}

/// The state of a unit is the one that is known, or that of a unit never seen.
pub proof fn law_unknown_unit_is_fresh(states: Map<Seq<char>, RecoveryState>, unit: Seq<char>)
    ensures
        states.contains_key(unit) ==> state_of(states, unit) == states[unit],
        !states.contains_key(unit) ==> state_of(states, unit) == RecoveryState::fresh(),
{
}

/// An attempt is due exactly if the unit was not given up and its pause, if it is
/// in one, has run out: at the very end of the pause it is.
pub proof fn law_attempt_is_due_when_the_pause_ends(s: RecoveryState, now: Instant)
    ensures
        s.gave_up ==> !s.ready(now),
        !s.gave_up && s.retry_after is None ==> s.ready(now),
        !s.gave_up ==> (s.retry_after matches Some(t) ==> (s.ready(now) <==> t.nanos <= now.nanos)),
{
}

/// The fleet's units are those whose names begin with `wm` or `wintermute` and a
/// separator, or with `wmd-`, and `wmd` itself; but for the watchdog's own.
pub proof fn law_fleet_units_are_named_so(unit: Seq<char>, rest: Seq<char>)
    ensures
        WATCHDOG_UNIT_NAME@ == "wintermute-watchdog.service"@,
        !is_fleet_unit("wintermute-watchdog.service"@),
        is_fleet_unit("wm-"@ + rest),
        is_fleet_unit("wm."@ + rest),
        is_fleet_unit("wmd-"@ + rest),
        is_fleet_unit("wintermute."@ + rest),
        rest != "watchdog.service"@ ==> is_fleet_unit("wintermute-"@ + rest),
        is_fleet_unit("wmd"@),
        is_fleet_unit("wmd.service"@),
        is_fleet_unit(unit) ==> {
            ||| exists|r: Seq<char>| unit == #[trigger] ("wm-"@ + r)
            ||| exists|r: Seq<char>| unit == #[trigger] ("wm."@ + r)
            ||| exists|r: Seq<char>| unit == #[trigger] ("wmd-"@ + r)
            ||| exists|r: Seq<char>| unit == #[trigger] ("wintermute-"@ + r)
            ||| exists|r: Seq<char>| unit == #[trigger] ("wintermute."@ + r)
            ||| unit == "wmd"@
            ||| unit == "wmd.service"@
        },
{
    reveal_strlit("wm-");
    reveal_strlit("wm.");
    reveal_strlit("wmd-");
    reveal_strlit("wmd");
    reveal_strlit("wmd.service");
    reveal_strlit("wintermute-");
    reveal_strlit("wintermute.");
    reveal_strlit("wintermute-watchdog.service");
    reveal_strlit("watchdog.service");
    let own = "wintermute-watchdog.service"@;
    assert(own[1] == 'i' && own[10] == '-');
    assert(own == "wintermute-"@ + "watchdog.service"@);
    lemma_joined("wm-"@, rest);
    lemma_joined("wm."@, rest);
    lemma_joined("wmd-"@, rest);
    lemma_joined("wintermute."@, rest);
    lemma_joined("wintermute-"@, rest);
    assert(("wm-"@ + rest)[1] == 'm');
    assert(("wm."@ + rest)[1] == 'm');
    assert(("wmd-"@ + rest)[1] == 'm');
    assert(("wintermute."@ + rest)[10] == '.');
    assert("wmd"@[1] == 'm');
    assert("wmd.service"@[1] == 'm');
    if "wintermute-"@ + rest == own {
        assert(("wintermute-"@ + rest).skip(11) == rest);
        assert(own.skip(11) == "watchdog.service"@);
    }
    if is_fleet_unit(unit) {
        lemma_split_prefix("wm-"@, unit);
        lemma_split_prefix("wm."@, unit);
        lemma_split_prefix("wmd-"@, unit);
        lemma_split_prefix("wintermute-"@, unit);
        lemma_split_prefix("wintermute."@, unit);
    }
}

proof fn lemma_joined(p: Seq<char>, rest: Seq<char>)
    ensures
        p.is_prefix_of(p + rest),
        forall|i: int| 0 <= i < p.len() ==> (p + rest)[i] == p[i],
{
    assert((p + rest).subrange(0, p.len() as int) == p);
}

proof fn lemma_split_prefix(p: Seq<char>, s: Seq<char>)
    ensures
        p.is_prefix_of(s) ==> s == p + s.skip(p.len() as int),
{
    if p.is_prefix_of(s) {
        assert(s == p + s.skip(p.len() as int));
    }
}

// ---------------------------------------------------------------------------
// A tick
// ---------------------------------------------------------------------------

/// What is not among the units stays.
proof fn lemma_untouched(
    states: Map<Seq<char>, RecoveryState>,
    units: Seq<Seq<char>>,
    now: Instant,
    ups: Seq<bool>,
    u: Seq<char>,
)
    requires
        ups.len() <= units.len(),
        forall|j: int| 0 <= j < ups.len() ==> #[trigger] units[j] != u,
    ensures
        state_of(handled(states, units, now, ups).states, u) == state_of(states, u),
    decreases ups.len(),
{
    if ups.len() > 0 {
        lemma_untouched(states, units, now, ups.drop_last(), u);
        assert(units[ups.len() - 1] != u);
    }
}

/// What is once among the units is handled once.
proof fn lemma_handled_once(
    states: Map<Seq<char>, RecoveryState>,
    units: Seq<Seq<char>>,
    now: Instant,
    ups: Seq<bool>,
    i: int,
)
    requires
        ups.len() <= units.len(),
        0 <= i < ups.len(),
        forall|j: int| 0 <= j < ups.len() && j != i ==> #[trigger] units[j] != units[i],
        is_fleet_unit(units[i]),
        state_of(states, units[i]).ready(now),
    ensures
        state_of(handled(states, units, now, ups).states, units[i]) == if ups[i] {
            state_of(states, units[i]).recovered()
        } else {
            state_of(states, units[i]).failed(now)
        },
        state_of(handled(states, units, now, ups.take(i)).states, units[i]) == state_of(
            states,
            units[i],
        ),
    decreases ups.len(),
{
    lemma_untouched(states, units, now, ups.take(i), units[i]);
    let rest = ups.drop_last();
    if i == ups.len() - 1 {
        assert(rest == ups.take(i));
    } else {
        lemma_handled_once(states, units, now, rest, i);
        assert(units[ups.len() - 1] != units[i]);
        assert(rest[i] == ups[i]);
    }
}

/// A tick attempts every unit that came out as failed, is of the fleet and due,
/// in this order: its failed state is cleared, it is started, and it is asked for
/// its state. It is up exactly if the first two succeed and the third says that
/// it has not failed; then it starts over. Otherwise its failure is counted.
pub proof fn law_tick_attempts_each_due_unit<B: SystemctlBackend>(
    backend: &B,
    states: Map<Seq<char>, RecoveryState>,
    now: Instant,
    states_after: Map<Seq<char>, RecoveryState>,
    events: Vec<HealthEvent>,
) -> (units: Vec<String>)
    requires
        tick_run(backend, states, now, states_after, Ok(events)),
    ensures
        call_ensures(
            B::list_failed_units,
            (backend,),
            Ok::<Vec<String>, WatchdogError>(units),
        ),
        forall|i: int|
            #![trigger units@[i]]
            0 <= i < units@.len() && is_fleet_unit(units@[i]@) && state_of(
                states,
                units@[i]@,
            ).ready(now) && (forall|j: int|
                0 <= j < units@.len() && j != i ==> (#[trigger] units@[j])@ != units@[i]@) ==> {
                let s = state_of(states, units@[i]@);
                let t = state_of(states_after, units@[i]@);
                ||| {
                    &&& t == s.recovered()
                    &&& exists|u: &str, out: Result<(), WatchdogError>| #[trigger]
                            call_ensures(B::reset_failed, (backend, u), out)
                                && out is Ok && u@ == units@[i]@
                    &&& exists|u: &str, out: Result<(), WatchdogError>| #[trigger]
                            call_ensures(B::start_unit, (backend, u), out)
                                && out is Ok && u@ == units@[i]@
                    &&& exists|u: &str| #[trigger]
                        call_ensures(
                            B::unit_is_failed,
                            (backend, u),
                            Ok::<bool, WatchdogError>(false),
                        ) && u@ == units@[i]@
                }
                ||| {
                    &&& t == s.failed(now)
                    &&& {
                        ||| exists|u: &str, e: WatchdogError| #[trigger]
                            call_ensures(
                                B::reset_failed,
                                (backend, u),
                                Err::<(), WatchdogError>(e),
                            ) && u@ == units@[i]@
                        ||| exists|u: &str, e: WatchdogError| #[trigger]
                            call_ensures(B::start_unit, (backend, u), Err::<(), WatchdogError>(e))
                                && u@ == units@[i]@
                        ||| exists|u: &str, out: Result<bool, WatchdogError>| #[trigger]
                            call_ensures(B::unit_is_failed, (backend, u), out) && u@ == units@[i]@
                                && out != Ok::<bool, WatchdogError>(false)
                    }
                }
            },
{
    let (units, ups) = choose|units: Vec<String>, ups: Seq<bool>|
        {
            &&& #[trigger] call_ensures(
                B::list_failed_units,
                (backend,),
                Ok::<Vec<String>, WatchdogError>(units),
            )
            &&& #[trigger] all_attempts(backend, states, texts(units@), now, ups)
            &&& ups.len() == units@.len()
            &&& states_after == handled(states, texts(units@), now, ups).states
        };
    let names = texts(units@);
    assert forall|i: int|
        #![trigger units@[i]]
        0 <= i < units@.len() && is_fleet_unit(units@[i]@) && state_of(states, units@[i]@).ready(
            now,
        ) && (forall|j: int|
            0 <= j < units@.len() && j != i ==> (#[trigger] units@[j])@ != units@[i]@) implies {
        let s = state_of(states, units@[i]@);
        let t = state_of(states_after, units@[i]@);
        ||| {
            &&& t == s.recovered()
            &&& exists|u: &str, out: Result<(), WatchdogError>| #[trigger]
                    call_ensures(B::reset_failed, (backend, u), out)
                        && out is Ok && u@ == units@[i]@
            &&& exists|u: &str, out: Result<(), WatchdogError>| #[trigger]
                    call_ensures(B::start_unit, (backend, u), out) && out is Ok && u@ == units@[i]@
            &&& exists|u: &str| #[trigger]
                call_ensures(B::unit_is_failed, (backend, u), Ok::<bool, WatchdogError>(false))
                    && u@ == units@[i]@
        }
        ||| {
            &&& t == s.failed(now)
            &&& {
                ||| exists|u: &str, e: WatchdogError| #[trigger]
                    call_ensures(B::reset_failed, (backend, u), Err::<(), WatchdogError>(e)) && u@
                        == units@[i]@
                ||| exists|u: &str, e: WatchdogError| #[trigger]
                    call_ensures(B::start_unit, (backend, u), Err::<(), WatchdogError>(e)) && u@
                        == units@[i]@
                ||| exists|u: &str, out: Result<bool, WatchdogError>| #[trigger]
                    call_ensures(B::unit_is_failed, (backend, u), out) && u@ == units@[i]@ && out
                        != Ok::<bool, WatchdogError>(false)
            }
        }
    } by {
        assert forall|j: int| 0 <= j < ups.len() && j != i implies #[trigger] names[j]
            != names[i] by {
            assert(units@[j]@ != units@[i]@);
        }
        assert(names[i] == units@[i]@);
        lemma_handled_once(states, names, now, ups, i);
        assert(attempt(backend, names[i], ups[i]));
        lemma_attempt(backend, names[i], ups[i]);
    }
    units
}

/// What the calls of an attempt gave.
proof fn lemma_attempt<B: SystemctlBackend>(backend: &B, unit: Seq<char>, up: bool)
    requires
        attempt(backend, unit, up),
    ensures
        up ==> {
            &&& exists|u: &str, out: Result<(), WatchdogError>| #[trigger]
                    call_ensures(B::reset_failed, (backend, u), out) && out is Ok && u@ == unit
            &&& exists|u: &str, out: Result<(), WatchdogError>| #[trigger]
                    call_ensures(B::start_unit, (backend, u), out) && out is Ok && u@ == unit
            &&& exists|u: &str| #[trigger]
                call_ensures(B::unit_is_failed, (backend, u), Ok::<bool, WatchdogError>(false))
                    && u@ == unit
        },
        !up ==> {
            ||| exists|u: &str, e: WatchdogError| #[trigger]
                call_ensures(B::reset_failed, (backend, u), Err::<(), WatchdogError>(e)) && u@
                    == unit
            ||| exists|u: &str, e: WatchdogError| #[trigger]
                call_ensures(B::start_unit, (backend, u), Err::<(), WatchdogError>(e)) && u@ == unit
            ||| exists|u: &str, out: Result<bool, WatchdogError>| #[trigger]
                call_ensures(B::unit_is_failed, (backend, u), out) && u@ == unit && out != Ok::<
                    bool,
                    WatchdogError,
                >(false)
        },
{
    if up {
        let (u, o) = choose|u: &str, out: Result<(), WatchdogError>|
            u@ == unit && #[trigger] call_ensures(B::reset_failed, (backend, u), out) && true == (
            out is Ok);
        assert(call_ensures(B::reset_failed, (backend, u), o) && o is Ok);
        let (v, p) = choose|u: &str, out: Result<(), WatchdogError>|
            u@ == unit && #[trigger] call_ensures(B::start_unit, (backend, u), out) && true == (
            out is Ok);
        assert(call_ensures(B::start_unit, (backend, v), p) && p is Ok);
        let out = choose|out: Result<bool, WatchdogError>| #[trigger]
            fails(backend, unit, out) && up == (out matches Ok(f) && !f);
        assert(out == Ok::<bool, WatchdogError>(false));
    } else if resets(backend, unit, false) {
        let (u, o) = choose|u: &str, out: Result<(), WatchdogError>|
            u@ == unit && #[trigger] call_ensures(B::reset_failed, (backend, u), out) && false == (
            out is Ok);
        assert(o == Err::<(), WatchdogError>(o->Err_0));
    } else if unit_starts(backend, unit, false) {
        let (u, o) = choose|u: &str, out: Result<(), WatchdogError>|
            u@ == unit && #[trigger] call_ensures(B::start_unit, (backend, u), out) && false == (
            out is Ok);
        assert(o == Err::<(), WatchdogError>(o->Err_0));
    } else {
        let out = choose|out: Result<bool, WatchdogError>| #[trigger]
            fails(backend, unit, out) && up == (out matches Ok(f) && !f);
        assert(out != Ok::<bool, WatchdogError>(false));
    }
}

/// Units are handled in the order in which they are listed: each one only adds to
/// what those before it did, and its event, if it is given up, comes last.
pub proof fn law_units_are_handled_in_order(
    states: Map<Seq<char>, RecoveryState>,
    units: Seq<Seq<char>>,
    now: Instant,
    ups: Seq<bool>,
    up: bool,
)
    requires
        ups.len() < units.len(),
    ensures
        ({
            let unit = units[ups.len() as int];
            let was = handled(states, units, now, ups);
            let is = handled(states, units, now, ups.push(up));
            let s = state_of(was.states, unit);
            let due = is_fleet_unit(unit) && s.ready(now);
            &&& !due ==> is == was
            &&& due && up ==> is.states == was.states.insert(unit, s.recovered()) && is.events
                == was.events
            &&& due && !up ==> is.states == was.states.insert(unit, s.failed(now))
            &&& due && !up && s.failed(now).gave_up ==> is.events == was.events.push(
                (unit, s.failed(now).consecutive_failures),
            )
            &&& due && !up && !s.failed(now).gave_up ==> is.events == was.events
        }),
        handled(states, units, now, Seq::empty()).states == states,
        handled(states, units, now, Seq::empty()).events.len() == 0,
{
    assert(ups.push(up).drop_last() == ups);
}

/// A tick that cannot list the failed units passes the error on and changes
/// nothing.
pub proof fn law_tick_without_a_listing_changes_nothing<B: SystemctlBackend>(
    backend: &B,
    states: Map<Seq<char>, RecoveryState>,
    now: Instant,
    states_after: Map<Seq<char>, RecoveryState>,
    e: WatchdogError,
)
    requires
        tick_run(backend, states, now, states_after, Err(e)),
    ensures
        states_after == states,
        call_ensures(B::list_failed_units, (backend,), Err::<Vec<String>, WatchdogError>(e)),
{
}

} // verus!
