//! The watchdog: recovers failed units of the fleet with a growing, capped
//! pause between attempts, and gives up on a unit that does not come back.

use crate::clock::{Duration, Instant, NANOS_PER_SEC};
use crate::number::{decimal, decimal_of};
use crate::string_map::StringMap;
use crate::text::{same, starts_with, texts};
use vstd::prelude::*;

verus! {

/// Pause before the first retry, in seconds.
pub const INITIAL_BACKOFF_SECS: u64 = 2;

/// Longest pause between attempts, in seconds.
pub const MAX_BACKOFF_SECS: u64 = 300;

/// Failed recoveries in a row after which a unit is given up.
pub const GIVE_UP_AFTER: u32 = 8;

/// Prefix of the fleet's units.
pub const WM_UNIT_PREFIX: &'static str = "wm";

/// Other prefix of the fleet's units.
pub const WM_UNIT_PREFIX2: &'static str = "wintermute";

/// The watchdog's own unit, which it never touches.
pub const WATCHDOG_UNIT_NAME: &'static str = "wintermute-watchdog.service";

// ---------------------------------------------------------------------------
// Recovery of one unit
// ---------------------------------------------------------------------------

/// How the recovery of one unit stands.
#[derive(Debug, Clone, Copy, PartialEq, Eq)]
pub struct RecoveryState {
    /// Failed recoveries in a row.
    pub consecutive_failures: u32,
    /// The pause after the next failure.
    pub current_backoff: Duration,
    /// When the next attempt may be made; none for now.
    pub retry_after: Option<Instant>,
    /// Whether the unit was given up.
    pub gave_up: bool,
}

/// The pause after `k` failed recoveries, in seconds: it starts at the initial
/// pause and doubles with each failure up to the longest.
pub open spec fn pause_after(k: nat) -> nat
    decreases k,
{
    if k == 0 {
        INITIAL_BACKOFF_SECS as nat
    } else if pause_after((k - 1) as nat) * 2 < MAX_BACKOFF_SECS {
        pause_after((k - 1) as nat) * 2
    } else {
        MAX_BACKOFF_SECS as nat
    }
}

impl RecoveryState {
    /// A unit with no failure.
    pub open spec fn fresh() -> Self {
        RecoveryState {
            consecutive_failures: 0,
            current_backoff: Duration {
                nanos: (INITIAL_BACKOFF_SECS * NANOS_PER_SEC) as u128,
            },
            retry_after: None,
            gave_up: false,
        }
    }

    /// A unit that is not given up has failed fewer times than it takes, and
    /// its pause is the one after as many failures.
    pub open spec fn wf(self) -> bool {
        !self.gave_up ==> self.consecutive_failures < GIVE_UP_AFTER && self.current_backoff.nanos
            == pause_after(self.consecutive_failures as nat) * NANOS_PER_SEC
    }

    /// Whether an attempt may be made at `now`.
    pub open spec fn ready(self, now: Instant) -> bool {
        !self.gave_up && match self.retry_after {
            Some(t) => now.nanos >= t.nanos,
            None => true,
        }
    }

    /// The state after a recovery.
    pub open spec fn recovered(self) -> Self {
        RecoveryState { gave_up: self.gave_up, ..RecoveryState::fresh() }
    }

    /// The state after a failed recovery at `now`.
    pub open spec fn failed(self, now: Instant) -> Self {
        let n = (self.consecutive_failures + 1) as u32;
        if n >= GIVE_UP_AFTER {
            RecoveryState { consecutive_failures: n, gave_up: true, ..self }
        } else {
            RecoveryState {
                consecutive_failures: n,
                current_backoff: Duration {
                    nanos: if self.current_backoff.nanos * 2 < MAX_BACKOFF_SECS * NANOS_PER_SEC {
                        (self.current_backoff.nanos * 2) as u128
                    } else {
                        (MAX_BACKOFF_SECS * NANOS_PER_SEC) as u128
                    },
                },
                retry_after: Some(
                    Instant { nanos: (now.nanos + self.current_backoff.nanos) as u128 },
                ),
                gave_up: self.gave_up,
            }
        }
    }

    /// Whether an attempt may be made at `now`.
    pub fn may_attempt(&self, now: Instant) -> (r: bool)
        ensures
            r == self.ready(now),
    {
        if self.gave_up {
            return false;
        }
        match self.retry_after {
            Some(t) => now.nanos >= t.nanos,
            None => true,
        }
    }

    /// Notes a recovery: the failures and the pause start over.
    pub fn record_success(&mut self)
        ensures
            *final(self) == old(self).recovered(),
            old(self).wf() ==> final(self).wf(),
    {
        self.consecutive_failures = 0;
        self.current_backoff = Duration::from_secs(INITIAL_BACKOFF_SECS);
        self.retry_after = None;
    }

    /// Notes a failed recovery at `now`; returns whether the unit is given up.
    pub fn record_failure(&mut self, now: Instant) -> (r: bool)
        requires
            old(self).consecutive_failures < u32::MAX,
            old(self).consecutive_failures + 1 < GIVE_UP_AFTER ==> now.nanos
                + old(self).current_backoff.nanos <= u128::MAX,
        ensures
            *final(self) == old(self).failed(now),
            r == (final(self).consecutive_failures >= GIVE_UP_AFTER),
            old(self).wf() ==> final(self).wf(),
    {
        self.consecutive_failures = self.consecutive_failures + 1;
        if self.consecutive_failures >= GIVE_UP_AFTER {
            self.gave_up = true;
            return true;
        }
        self.retry_after = Some(now.plus(self.current_backoff));
        let ceiling = Duration::from_secs(MAX_BACKOFF_SECS);
        self.current_backoff = if self.current_backoff.nanos < ceiling.nanos / 2 {
            Duration { nanos: self.current_backoff.nanos * 2 }
        } else {
            ceiling
        };
        false
    }
}

impl Default for RecoveryState {
    /// A unit with no failure.
    fn default() -> (r: Self)
        ensures
            r == RecoveryState::fresh(),
            r.wf(),
    {
        RecoveryState {
            consecutive_failures: 0,
            current_backoff: Duration::from_secs(INITIAL_BACKOFF_SECS),
            retry_after: None,
            gave_up: false,
        }
    }
}

// ---------------------------------------------------------------------------
// Units of the fleet
// ---------------------------------------------------------------------------

/// Whether a unit belongs to the fleet and is not the watchdog itself.
pub open spec fn is_fleet_unit(unit: Seq<char>) -> bool {
    unit != WATCHDOG_UNIT_NAME@ && {
        ||| "wm-"@.is_prefix_of(unit)
        ||| "wm."@.is_prefix_of(unit)
        ||| "wmd-"@.is_prefix_of(unit)
        ||| "wintermute-"@.is_prefix_of(unit)
        ||| "wintermute."@.is_prefix_of(unit)
        ||| unit == "wmd"@
        ||| unit == "wmd.service"@
    }
}

/// Whether `unit` belongs to the fleet and is not the watchdog itself: its name
/// begins with `wm-`, `wm.`, `wmd-`, `wintermute-` or `wintermute.`, or it is
/// `wmd` itself.
pub fn is_wintermute_unit(unit: &str) -> (r: bool)
    ensures
        r == is_fleet_unit(unit@),
{
    if same(unit, WATCHDOG_UNIT_NAME) {
        return false;
    }
    starts_with(unit, "wm-") || starts_with(unit, "wm.") || starts_with(unit, "wmd-")
        || starts_with(unit, "wintermute-") || starts_with(unit, "wintermute.") || same(
        unit,
        "wmd",
    ) || same(unit, "wmd.service")
}

/// A unit that was given up.
#[derive(Debug, Clone, PartialEq, Eq)]
pub struct HealthEvent {
    /// The unit.
    pub unit: String,
    /// Recoveries that were attempted.
    pub attempts: u32,
}

impl HealthEvent {
    /// The event as a line of the `wm.health` family.
    pub fn format(&self) -> (r: String)
        ensures
            r@ == "wm.health.unit-failed unit="@ + self.unit@ + " attempts="@ + decimal_of(
                self.attempts as nat,
            ),
    {
        "wm.health.unit-failed unit=".to_owned().concat(self.unit.as_str()).concat(
            " attempts=",
        ).concat(decimal(self.attempts as u64).as_str())
    }
}

/// The units and attempts of a sequence of events.
pub open spec fn events_of(v: Seq<HealthEvent>) -> Seq<(Seq<char>, u32)> {
    v.map_values(|e: HealthEvent| (e.unit@, e.attempts))
}

/// What went wrong in the watchdog or below it.
#[derive(Debug, Clone, PartialEq, Eq)]
pub enum WatchdogError {
    /// A run of `systemctl` failed, or it could not be run.
    SystemctlFailed {
        /// The operation that was attempted.
        op: String,
        /// The unit; empty for a listing.
        unit: String,
        /// Details.
        detail: String,
    },
    /// Input or output failed elsewhere.
    Io(String),
}

impl WatchdogError {
    /// The error in words.
    pub fn message(&self) -> (r: String)
        ensures
            r@ == match *self {
                WatchdogError::SystemctlFailed { op, unit, detail } => "systemctl "@ + op@ + " "@
                    + unit@ + ": "@ + detail@,
                WatchdogError::Io(e) => "I/O error: "@ + e@,
            },
    {
        match self {
            WatchdogError::SystemctlFailed { op, unit, detail } => {
                "systemctl ".to_owned().concat(op.as_str()).concat(" ").concat(
                    unit.as_str(),
                ).concat(": ").concat(detail.as_str())
            },
            WatchdogError::Io(e) => "I/O error: ".to_owned().concat(e.as_str()),
        }
    }
}

// ---------------------------------------------------------------------------
// The engine
// ---------------------------------------------------------------------------

/// The service manager. It may be asked to change, or about, units of the
/// fleet alone, and of those only the ones that it allows.
pub trait SystemctlBackend {
    /// Whether the manager may be asked to change, or about, `unit`; any,
    /// unless an implementation says otherwise. What a caller may count on being
    /// allowed bounds which units it can name.
    open spec fn allows(&self, unit: Seq<char>) -> bool {
        true
    }

    /// The names of the failed units.
    fn list_failed_units(&self) -> (r: Result<Vec<String>, WatchdogError>);

    /// Whether a success in clearing the failed state of `unit` was seen. It is
    /// what a start asks for, and only such a success gives it; any unit, unless
    /// an implementation says otherwise.
    open spec fn cleared(&self, unit: Seq<char>) -> bool {
        true
    }

    /// Whether a success in starting `unit` was seen. It is what the question
    /// whether the unit is failed asks for, and only such a success gives it; any
    /// unit, unless an implementation says otherwise.
    open spec fn started(&self, unit: Seq<char>) -> bool {
        true
    }

    /// Clears the failed state of `unit`.
    fn reset_failed(&self, unit: &str) -> (r: Result<(), WatchdogError>)
        requires
            is_fleet_unit(unit@),
            self.allows(unit@),
        ensures
            r is Ok ==> self.cleared(unit@),
    ;

    /// Starts `unit`, whose failed state was cleared.
    fn start_unit(&self, unit: &str) -> (r: Result<(), WatchdogError>)
        requires
            is_fleet_unit(unit@),
            self.allows(unit@),
            self.cleared(unit@),
        ensures
            r is Ok ==> self.started(unit@),
    ;

    /// Whether `unit`, which was started, is in the failed state.
    fn unit_is_failed(&self, unit: &str) -> (r: Result<bool, WatchdogError>)
        requires
            is_fleet_unit(unit@),
            self.allows(unit@),
            self.started(unit@),
    ;
}

/// Whether clearing the failed state of `unit` may succeed (`ok`) or fail.
pub open spec fn resets<B: SystemctlBackend>(backend: &B, unit: Seq<char>, ok: bool) -> bool {
    exists|u: &str, out: Result<(), WatchdogError>|
        u@ == unit && #[trigger] call_ensures(B::reset_failed, (backend, u), out) && ok == (
        out is Ok)
}

/// Whether starting `unit` may succeed (`ok`) or fail.
pub open spec fn unit_starts<B: SystemctlBackend>(backend: &B, unit: Seq<char>, ok: bool) -> bool {
    exists|u: &str, out: Result<(), WatchdogError>|
        u@ == unit && #[trigger] call_ensures(B::start_unit, (backend, u), out) && ok == (
        out is Ok)
}

/// Whether `backend` gives `out` when asked whether `unit` is failed.
pub open spec fn fails<B: SystemctlBackend>(
    backend: &B,
    unit: Seq<char>,
    out: Result<bool, WatchdogError>,
) -> bool {
    exists|u: &str| u@ == unit && #[trigger] call_ensures(B::unit_is_failed, (backend, u), out)
}

/// Whether an attempt on `unit` may end with `up`: the unit is up exactly if
/// clearing and starting succeed and it is then said not to be failed.
pub open spec fn attempt<B: SystemctlBackend>(backend: &B, unit: Seq<char>, up: bool) -> bool {
    ||| !up && resets(backend, unit, false)
    ||| !up && resets(backend, unit, true) && unit_starts(backend, unit, false)
    ||| resets(backend, unit, true) && unit_starts(backend, unit, true) && exists|
        out: Result<bool, WatchdogError>,
    | #[trigger] fails(backend, unit, out) && up == (out matches Ok(f) && !f)
}

/// The states of the units that the watchdog knows, and the events of a tick.
#[verifier::ext_equal]
pub struct TickRun {
    /// The states.
    pub states: Map<Seq<char>, RecoveryState>,
    /// The units given up in this tick and their attempts.
    pub events: Seq<(Seq<char>, u32)>,
}

/// The state of `unit`; a fresh one if it is not known.
pub open spec fn state_of(states: Map<Seq<char>, RecoveryState>, unit: Seq<char>) -> RecoveryState {
    if states.contains_key(unit) {
        states[unit]
    } else {
        RecoveryState::fresh()
    }
}

/// Whether an attempt on `unit` is to be made at `now`.
pub open spec fn wants_attempt(
    states: Map<Seq<char>, RecoveryState>,
    unit: Seq<char>,
    now: Instant,
) -> bool {
    is_fleet_unit(unit) && state_of(states, unit).ready(now)
}

/// Whether a tick at `now` may attempt to recover `unit`: the failed units may
/// come out with it among them, it belongs to the fleet, and it is neither given
/// up nor in its pause.
pub open spec fn may_come_up<B: SystemctlBackend>(
    backend: &B,
    states: Map<Seq<char>, RecoveryState>,
    now: Instant,
    unit: Seq<char>,
) -> bool {
    &&& wants_attempt(states, unit, now)
    &&& exists|units: Vec<String>|
        texts(units@).contains(unit) && #[trigger] call_ensures(
            B::list_failed_units,
            (backend,),
            Ok::<Vec<String>, WatchdogError>(units),
        )
}

/// Whether `backend` allows every unit that a tick at `now` may attempt to
/// recover.
pub open spec fn allows_attempts<B: SystemctlBackend>(
    backend: &B,
    states: Map<Seq<char>, RecoveryState>,
    now: Instant,
) -> bool {
    forall|u: Seq<char>| #[trigger] may_come_up(backend, states, now, u) ==> backend.allows(u)
}

impl TickRun {
    /// After `unit` was handled at `now`, where an attempt, if one was to be
    /// made, ended with `up`.
    pub open spec fn step(self, unit: Seq<char>, now: Instant, up: bool) -> TickRun {
        let s = state_of(self.states, unit);
        if !wants_attempt(self.states, unit, now) {
            self
        } else if up {
            TickRun { states: self.states.insert(unit, s.recovered()), ..self }
        } else {
            let f = s.failed(now);
            TickRun {
                states: self.states.insert(unit, f),
                events: if f.gave_up {
                    self.events.push((unit, f.consecutive_failures))
                } else {
                    self.events
                },
            }
        }
    }
}

/// The run after the first of `units` were handled, with the ends `ups` of the
/// attempts on those that were attempted.
pub open spec fn handled(
    states: Map<Seq<char>, RecoveryState>,
    units: Seq<Seq<char>>,
    now: Instant,
    ups: Seq<bool>,
) -> TickRun
    decreases ups.len(),
{
    if ups.len() == 0 {
        TickRun { states, events: Seq::empty() }
    } else {
        handled(states, units, now, ups.drop_last()).step(units[ups.len() - 1], now, ups.last())
    }
}

/// Whether `backend` gives the ends `ups` for the attempts on the first of `units`.
pub open spec fn all_attempts<B: SystemctlBackend>(
    backend: &B,
    states: Map<Seq<char>, RecoveryState>,
    units: Seq<Seq<char>>,
    now: Instant,
    ups: Seq<bool>,
) -> bool {
    &&& ups.len() <= units.len()
    &&& forall|i: int|
        0 <= i < ups.len() && wants_attempt(
            handled(states, units, now, ups.take(i)).states,
            units[i],
            now,
        ) ==> attempt(backend, units[i], #[trigger] ups[i])
}

/// A tick at `now` leads from `states` to `states_after` with result `r`: an
/// error where the units could not be listed, and otherwise every listed unit
/// handled in its order.
pub open spec fn tick_run<B: SystemctlBackend>(
    backend: &B,
    states: Map<Seq<char>, RecoveryState>,
    now: Instant,
    states_after: Map<Seq<char>, RecoveryState>,
    r: Result<Vec<HealthEvent>, WatchdogError>,
) -> bool {
    match r {
        Err(e) => states_after == states && call_ensures(
            B::list_failed_units,
            (backend,),
            Err::<Vec<String>, WatchdogError>(e),
        ),
        Ok(events) => exists|units: Vec<String>, ups: Seq<bool>|
            {
                &&& #[trigger] call_ensures(
                    B::list_failed_units,
                    (backend,),
                    Ok::<Vec<String>, WatchdogError>(units),
                )
                &&& #[trigger] all_attempts(backend, states, texts(units@), now, ups)
                &&& ups.len() == units@.len()
                &&& states_after == handled(states, texts(units@), now, ups).states
                &&& events_of(events@) == handled(states, texts(units@), now, ups).events
            },
    }
}

/// The watchdog: a service manager and the states of the units it has seen fail.
pub struct WatchdogEngine<B: SystemctlBackend> {
    /// The service manager.
    pub backend: B,
    table: StringMap<RecoveryState>,
}

impl<B: SystemctlBackend> WatchdogEngine<B> {
    /// The service manager.
    pub closed spec fn manager(&self) -> B {
        self.backend
    }

    /// The states of the units that the watchdog knows.
    pub closed spec fn states(&self) -> Map<Seq<char>, RecoveryState> {
        self.table@
    }

    /// Every known unit belongs to the fleet and its state is in order.
    pub closed spec fn wf(&self) -> bool {
        &&& self.table.wf()
        &&& states_wf(self.states())
    }

    /// A watchdog in order knows units of the fleet alone, each in order.
    pub proof fn lemma_wf(&self)
        requires
            self.wf(),
        ensures
            states_wf(self.states()),
    {
    }

    /// A watchdog that has seen nothing yet.
    pub fn new(backend: B) -> (r: Self)
        ensures
            r.wf(),
            r.manager() == backend,
            r.states() == Map::<Seq<char>, RecoveryState>::empty(),
    {
        WatchdogEngine { backend, table: StringMap::new() }
    }

    /// The states of the units that the watchdog knows.
    pub fn table(&self) -> (r: &StringMap<RecoveryState>)
        requires
            self.wf(),
        ensures
            r.wf(),
            r@ == self.states(),
    {
        &self.table
    }

    /// The state of `unit`; a fresh one if it is not known.
    pub fn state(&self, unit: &str) -> (r: RecoveryState)
        requires
            self.wf(),
        ensures
            r == state_of(self.states(), unit@),
            r.wf(),
    {
        match self.table.get(unit) {
            Some(s) => *s,
            None => RecoveryState::default(),
        }
    }

    /// Whether an attempt on `unit` is to be made at `now`.
    pub fn may_attempt(&self, unit: &str, now: Instant) -> (r: bool)
        requires
            self.wf(),
        ensures
            r == wants_attempt(self.states(), unit@, now),
    {
        is_wintermute_unit(unit) && self.state(unit).may_attempt(now)
    }

    /// Takes in that an attempt on `unit` at `now` ended with the unit up or
    /// not; returns an event if the unit is now given up.
    pub fn take_attempt(&mut self, unit: &str, now: Instant, up: bool) -> (r: Option<HealthEvent>)
        requires
            old(self).wf(),
            wants_attempt(old(self).states(), unit@, now),
            now.nanos + MAX_BACKOFF_SECS * NANOS_PER_SEC <= u128::MAX,
        ensures
            final(self).wf(),
            final(self).manager() == old(self).manager(),
            ({
                let before = TickRun { states: old(self).states(), events: Seq::empty() };
                let after = before.step(unit@, now, up);
                &&& final(self).states() == after.states
                &&& match r {
                    Some(e) => after.events == seq![(e.unit@, e.attempts)],
                    None => after.events.len() == 0,
                }
            }),
    {
        let mut state = self.state(unit);
        proof {
            lemma_pause(state.consecutive_failures as nat);
        }
        if up {
            state.record_success();
            self.table.insert(unit.to_owned(), state);
            None
        } else {
            let gave_up = state.record_failure(now);
            self.table.insert(unit.to_owned(), state);
            if gave_up {
                let r = HealthEvent { unit: unit.to_owned(), attempts: state.consecutive_failures };
                assert(Seq::<(Seq<char>, u32)>::empty().push((r.unit@, r.attempts)) == seq![
                    (r.unit@, r.attempts),
                ]);
                Some(r)
            } else {
                None
            }
        }
    }

    /// Attempts to bring `unit` up: clears its failed state, starts it and asks
    /// whether it is still failed.
    fn recover(&self, unit: &str) -> (up: bool)
        requires
            is_fleet_unit(unit@),
            self.backend.allows(unit@),
        ensures
            attempt(&self.backend, unit@, up),
    {
        let reset = self.backend.reset_failed(unit);
        assert(resets(&self.backend, unit@, reset is Ok));
        if reset.is_err() {
            return false;
        }
        let started = self.backend.start_unit(unit);
        assert(unit_starts(&self.backend, unit@, started is Ok));
        if started.is_err() {
            return false;
        }
        let out = self.backend.unit_is_failed(unit);
        assert(fails(&self.backend, unit@, out));
        match out {
            Ok(failed) => !failed,
            Err(_) => false,
        }
    }

    /// One tick at `now`: lists the failed units and attempts to recover each
    /// that belongs to the fleet and whose pause is over. Returns an event for
    /// each unit given up in this tick. The manager need not allow more than the
    /// units that an attempt may be made on; it is asked to change, or about, no
    /// other.
    pub fn tick(&mut self, now: Instant) -> (r: Result<Vec<HealthEvent>, WatchdogError>)
        requires
            old(self).wf(),
            now.nanos + MAX_BACKOFF_SECS * NANOS_PER_SEC <= u128::MAX,
            allows_attempts(&old(self).manager(), old(self).states(), now),
        ensures
            final(self).wf(),
            final(self).manager() == old(self).manager(),
            tick_run(&old(self).manager(), old(self).states(), now, final(self).states(), r),
    {
        let ghost states = self.states();
        let units = match self.backend.list_failed_units() {
            Ok(v) => v,
            Err(e) => {
                return Err(e);
            },
        };
        let ghost us = texts(units@);
        assert(call_ensures(
            B::list_failed_units,
            (&self.backend,),
            Ok::<Vec<String>, WatchdogError>(units),
        ));
        let ghost mut ups: Seq<bool> = Seq::empty();
        let mut events: Vec<HealthEvent> = Vec::new();
        let mut i: usize = 0;
        assert(events_of(events@) == Seq::<(Seq<char>, u32)>::empty());
        while i < units.len()
            invariant
                i <= units.len(),
                us == texts(units@),
                self.wf(),
                self.backend == old(self).backend,
                call_ensures(
                    B::list_failed_units,
                    (&self.backend,),
                    Ok::<Vec<String>, WatchdogError>(units),
                ),
                allows_attempts(&self.backend, states, now),
                states == old(self).states(),
                now.nanos + MAX_BACKOFF_SECS * NANOS_PER_SEC <= u128::MAX,
                ups.len() == i,
                all_attempts(&self.backend, states, us, now, ups),
                self.states() == handled(states, us, now, ups).states,
                events_of(events@) == handled(states, us, now, ups).events,
            decreases units.len() - i,
        {
            let unit: &str = units[i].as_str();
            let ghost run = handled(states, us, now, ups);
            assert(us[i as int] == unit@);
            let mut up: bool = false;
            if self.may_attempt(unit, now) {
                proof {
                    assert(us.contains(unit@));
                    if !wants_attempt(states, unit@, now) {
                        lemma_handled_keeps(states, us, now, ups, unit@);
                    }
                    assert(may_come_up(&self.backend, states, now, unit@));
                }
                up = self.recover(unit);
                let ghost before = events@;
                match self.take_attempt(unit, now, up) {
                    Some(e) => {
                        events.push(e);
                        assert(events_of(events@) == events_of(before).push((e.unit@, e.attempts)));
                    },
                    None => {},
                }
                proof {
                    lemma_step_events(run, unit@, now, up);
                }
            }
            proof {
                lemma_all_attempts_push(&self.backend, states, us, now, ups, up);
                assert(ups.push(up).drop_last() == ups);
                ups = ups.push(up);
            }
            i += 1;
        }
        Ok(events)
    }
}

/// Every known unit belongs to the fleet and its state is in order.
pub open spec fn states_wf(states: Map<Seq<char>, RecoveryState>) -> bool {
    forall|u: Seq<char>| #[trigger]
        states.contains_key(u) ==> is_fleet_unit(u) && states[u].wf()
}

/// A step adds to the events what it would add to none.
proof fn lemma_step_events(run: TickRun, unit: Seq<char>, now: Instant, up: bool)
    ensures
        ({
            let none = TickRun { states: run.states, events: Seq::empty() };
            &&& run.step(unit, now, up).states == none.step(unit, now, up).states
            &&& run.step(unit, now, up).events == run.events + none.step(unit, now, up).events
        }),
{
    let none = TickRun { states: run.states, events: Seq::empty() };
    let s = state_of(run.states, unit);
    if wants_attempt(run.states, unit, now) && !up && s.failed(now).gave_up {
        let e = (unit, s.failed(now).consecutive_failures);
        assert(run.events.push(e) == run.events + Seq::<(Seq<char>, u32)>::empty().push(e));
    } else {
        assert(run.events + none.step(unit, now, up).events == run.events);
    }
}

/// One more handled unit keeps a tick valid.
proof fn lemma_all_attempts_push<B: SystemctlBackend>(
    backend: &B,
    states: Map<Seq<char>, RecoveryState>,
    units: Seq<Seq<char>>,
    now: Instant,
    ups: Seq<bool>,
    up: bool,
)
    requires
        all_attempts(backend, states, units, now, ups),
        ups.len() < units.len(),
        wants_attempt(handled(states, units, now, ups).states, units[ups.len() as int], now)
            ==> attempt(backend, units[ups.len() as int], up),
    ensures
        all_attempts(backend, states, units, now, ups.push(up)),
{
    let q = ups.push(up);
    assert forall|i: int|
        0 <= i < q.len() && wants_attempt(
            handled(states, units, now, q.take(i)).states,
            units[i],
            now,
        ) implies attempt(backend, units[i], #[trigger] q[i]) by {
        if i < ups.len() {
            assert(q.take(i) == ups.take(i));
            assert(q[i] == ups[i]);
        } else {
            assert(q.take(i) == ups);
        }
    }
}

/// A tick leaves alone what is not its business: units that were not listed,
/// units outside the fleet, and units given up or still in their pause.
pub proof fn lemma_handled_keeps(
    states: Map<Seq<char>, RecoveryState>,
    units: Seq<Seq<char>>,
    now: Instant,
    ups: Seq<bool>,
    unit: Seq<char>,
)
    requires
        ups.len() <= units.len(),
        !units.contains(unit) || !is_fleet_unit(unit) || !state_of(states, unit).ready(now),
    ensures
        handled(states, units, now, ups).states.contains_key(unit) == states.contains_key(unit),
        states.contains_key(unit) ==> handled(states, units, now, ups).states[unit]
            == states[unit],
        forall|i: int|
            0 <= i < handled(states, units, now, ups).events.len() ==> (
            #[trigger] handled(states, units, now, ups).events[i]).0 != unit,
    decreases ups.len(),
{
    if ups.len() > 0 {
        lemma_handled_keeps(states, units, now, ups.drop_last(), unit);
        assert(units.contains(units[ups.len() - 1]));
    }
}

/// The pause lies between the initial and the longest.
pub proof fn lemma_pause(k: nat)
    ensures
        INITIAL_BACKOFF_SECS <= pause_after(k) <= MAX_BACKOFF_SECS,
    decreases k,
{
    if k > 0 {
        lemma_pause((k - 1) as nat);
    }
}

} // verus!
