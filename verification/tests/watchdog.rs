//! The watchdog.

use std::cell::{Cell, RefCell};

use std::sync::Mutex;

use wintermute_platform::clock::{Duration, Instant};
use wintermute_platform::commands::CommandOutcome;
use wintermute_platform::systemctl::{command_result, parse_failed_json, parse_failed_text, SystemctlReal};
use wintermute_platform::watchdog::{
    is_wintermute_unit, HealthEvent, RecoveryState, SystemctlBackend, WatchdogEngine,
    WatchdogError, GIVE_UP_AFTER, INITIAL_BACKOFF_SECS, MAX_BACKOFF_SECS, WATCHDOG_UNIT_NAME,
};

fn start() -> Instant {
    Instant::from_nanos(5_000_000_000_000)
}

#[test]
fn backoff_schedule_is_monotonic_and_capped() {
    let mut state = RecoveryState::default();
    let t0 = start();
    let mut prev = Duration::zero();
    let mut gave_up = false;
    for i in 0..GIVE_UP_AFTER {
        let before = state.current_backoff;
        assert!(
            before >= prev || i == 0,
            "backoff not monotonic at step {i}"
        );
        prev = before;
        assert!(
            before <= Duration::from_secs(MAX_BACKOFF_SECS),
            "backoff exceeds ceiling at step {i}"
        );
        gave_up = state.record_failure(t0.plus(Duration::from_secs(u64::from(i) * MAX_BACKOFF_SECS)));
    }
    assert!(gave_up, "should have given up after GIVE_UP_AFTER failures");
}

#[test]
fn backoff_ceiling_never_exceeded() {
    let mut state = RecoveryState::default();
    let t0 = start();
    for i in 0..20u32 {
        state.record_failure(t0.plus(Duration::from_secs(u64::from(i) * 1000)));
        assert!(
            state.current_backoff <= Duration::from_secs(MAX_BACKOFF_SECS),
            "ceiling exceeded at step {i}"
        );
    }
}

#[test]
fn backoff_doubles_until_ceiling() {
    let mut state = RecoveryState::default();
    let t0 = start();
    let expected_sequence = [2u64, 4, 8, 16, 32, 64, 128, 256, 256, 256];
    for (i, &expected) in expected_sequence.iter().enumerate() {
        assert_eq!(
            state.current_backoff,
            Duration::from_secs(expected),
            "step {i}: expected {expected}s"
        );
        if state.consecutive_failures < GIVE_UP_AFTER {
            state.record_failure(t0.plus(Duration::from_secs(u64::try_from(i).unwrap_or(0) * 1000)));
        }
    }
}

#[test]
fn per_unit_backoff_state_is_independent() {
    struct StubFailed(Vec<String>);
    impl SystemctlBackend for StubFailed {
        fn list_failed_units(&self) -> Result<Vec<String>, WatchdogError> {
            Ok(self.0.clone())
        }
        fn reset_failed(&self, _u: &str) -> Result<(), WatchdogError> {
            Ok(())
        }
        fn start_unit(&self, _u: &str) -> Result<(), WatchdogError> {
            Ok(())
        }
        fn unit_is_failed(&self, _u: &str) -> Result<bool, WatchdogError> {
            Ok(true) // always still failed
        }
    }

    let mut engine = WatchdogEngine::new(StubFailed(vec![
        "wm-audio.service".into(),
        "wm-tts.service".into(),
    ]));
    let t0 = start();
    for i in 0..4u32 {
        let _ = engine.tick(t0.plus(Duration::from_secs(u64::from(i) * MAX_BACKOFF_SECS * 2)));
    }
    let audio = engine.table().get("wm-audio.service").map(|s| s.consecutive_failures);
    let tts = engine.table().get("wm-tts.service").map(|s| s.consecutive_failures);
    assert_eq!(audio, tts, "states should be symmetric for equal-fail units");
    assert!(audio.unwrap_or(0) > 0);
}

#[test]
fn gives_up_after_k_consecutive_failures() {
    let mut state = RecoveryState::default();
    let t0 = start();
    let mut gave_up = false;
    for i in 0..GIVE_UP_AFTER {
        gave_up = state.record_failure(t0.plus(Duration::from_secs(u64::from(i) * 1000)));
    }
    assert!(gave_up);
    assert!(state.gave_up);
    assert!(!state.may_attempt(t0.plus(Duration::from_secs(99_999))));
}

#[test]
fn success_resets_failure_count() {
    let mut state = RecoveryState::default();
    let t0 = start();
    for i in 0..3u32 {
        state.record_failure(t0.plus(Duration::from_secs(u64::from(i) * 10)));
    }
    assert_eq!(state.consecutive_failures, 3);
    state.record_success();
    assert_eq!(state.consecutive_failures, 0);
    assert_eq!(state.current_backoff, Duration::from_secs(INITIAL_BACKOFF_SECS));
    assert!(state.may_attempt(t0));
}

#[test]
fn filter_accepts_wintermute_units() {
    assert!(is_wintermute_unit("wm-audio.service"));
    assert!(is_wintermute_unit("wm-tts.service"));
    assert!(is_wintermute_unit("wm-stt.service"));
    assert!(is_wintermute_unit("wm-dialog.service"));
    assert!(is_wintermute_unit("wmd.service"));
    assert!(is_wintermute_unit("wintermute-ready.service"));
    assert!(is_wintermute_unit("wmd-init.service"));
}

#[test]
fn filter_rejects_non_wintermute_units() {
    assert!(!is_wintermute_unit("sshd.service"));
    assert!(!is_wintermute_unit("NetworkManager.service"));
    assert!(!is_wintermute_unit("pipewire.service"));
    assert!(!is_wintermute_unit("gdm.service"));
    assert!(!is_wintermute_unit("bluetooth.service"));
}

#[test]
fn filter_rejects_watchdog_itself() {
    assert!(!is_wintermute_unit(WATCHDOG_UNIT_NAME));
}

#[test]
fn health_event_format_contains_unit_and_attempts() {
    let ev = HealthEvent {
        unit: "wm-audio.service".into(),
        attempts: 8,
    };
    let s = ev.format();
    assert!(s.contains("wm.health."), "missing wm.health. prefix: {s}");
    assert!(s.contains("wm-audio.service"), "missing unit: {s}");
    assert!(s.contains("attempts=8"), "missing attempts: {s}");
}

#[test]
fn health_event_emitted_on_give_up() {
    struct AlwaysFailed;
    impl SystemctlBackend for AlwaysFailed {
        fn list_failed_units(&self) -> Result<Vec<String>, WatchdogError> {
            Ok(vec!["wm-audio.service".into()])
        }
        fn reset_failed(&self, _u: &str) -> Result<(), WatchdogError> {
            Ok(())
        }
        fn start_unit(&self, _u: &str) -> Result<(), WatchdogError> {
            Ok(())
        }
        fn unit_is_failed(&self, _u: &str) -> Result<bool, WatchdogError> {
            Ok(true) // never recovers
        }
    }

    let mut engine = WatchdogEngine::new(AlwaysFailed);
    let t0 = start();
    let mut give_up_event: Option<HealthEvent> = None;
    for i in 0..u64::from(GIVE_UP_AFTER) + 2 {
        let events = engine
            .tick(t0.plus(Duration::from_secs(i * MAX_BACKOFF_SECS * 2)))
            .unwrap();
        for ev in events {
            give_up_event = Some(ev);
        }
    }
    assert!(give_up_event.is_some(), "no give-up health event emitted");
    let ev = give_up_event.unwrap();
    assert_eq!(ev.unit, "wm-audio.service");
}

#[test]
fn non_wintermute_failed_unit_never_touched() {
    struct SpyBackend {
        touched: Cell<bool>,
    }
    impl SystemctlBackend for SpyBackend {
        fn list_failed_units(&self) -> Result<Vec<String>, WatchdogError> {
            Ok(vec!["sshd.service".into(), "NetworkManager.service".into()])
        }
        fn reset_failed(&self, _u: &str) -> Result<(), WatchdogError> {
            self.touched.set(true);
            Ok(())
        }
        fn start_unit(&self, _u: &str) -> Result<(), WatchdogError> {
            self.touched.set(true);
            Ok(())
        }
        fn unit_is_failed(&self, _u: &str) -> Result<bool, WatchdogError> {
            Ok(false)
        }
    }

    let spy = SpyBackend { touched: Cell::new(false) };
    let mut engine = WatchdogEngine::new(spy);
    engine.tick(start()).unwrap();
    assert!(
        !engine.backend.touched.get(),
        "non-wintermute unit was touched"
    );
}

#[test]
fn watchdog_does_not_recover_itself() {
    struct SelfFailed {
        touched: Cell<bool>,
    }
    impl SystemctlBackend for SelfFailed {
        fn list_failed_units(&self) -> Result<Vec<String>, WatchdogError> {
            Ok(vec![WATCHDOG_UNIT_NAME.to_string()])
        }
        fn reset_failed(&self, _u: &str) -> Result<(), WatchdogError> {
            self.touched.set(true);
            Ok(())
        }
        fn start_unit(&self, _u: &str) -> Result<(), WatchdogError> {
            self.touched.set(true);
            Ok(())
        }
        fn unit_is_failed(&self, _u: &str) -> Result<bool, WatchdogError> {
            Ok(false)
        }
    }

    let spy = SelfFailed { touched: Cell::new(false) };
    let mut engine = WatchdogEngine::new(spy);
    engine.tick(start()).unwrap();
    assert!(
        !engine.backend.touched.get(),
        "watchdog tried to recover its own unit"
    );
}

#[test]
fn ac1a_backoff_schedule_monotonic_and_capped() {
    let mut state = RecoveryState::default();
    let t0 = start();
    let mut prev_backoff = Duration::zero();

    for i in 0..GIVE_UP_AFTER {
        let current = state.current_backoff;
        assert!(
            current >= prev_backoff,
            "backoff not monotonic at attempt {i}: {current:?} < {prev_backoff:?}"
        );
        assert!(
            current <= Duration::from_secs(MAX_BACKOFF_SECS),
            "backoff {current:?} exceeds MAX_BACKOFF_SECS at attempt {i}"
        );
        prev_backoff = current;
        let gave_up = state.record_failure(t0.plus(Duration::from_secs(u64::from(i) * 1_000)));
        if gave_up {
            assert_eq!(
                i + 1,
                GIVE_UP_AFTER,
                "gave up early at attempt {}",
                i + 1
            );
            return;
        }
    }
    panic!("did not give up after GIVE_UP_AFTER={GIVE_UP_AFTER} failures");
}

#[test]
fn ac1b_per_unit_backoff_state_independent() {
    struct FixedFailed(Vec<String>);
    impl SystemctlBackend for FixedFailed {
        fn list_failed_units(&self) -> Result<Vec<String>, WatchdogError> {
            Ok(self.0.clone())
        }
        fn reset_failed(&self, _u: &str) -> Result<(), WatchdogError> {
            Ok(())
        }
        fn start_unit(&self, _u: &str) -> Result<(), WatchdogError> {
            Ok(())
        }
        fn unit_is_failed(&self, _u: &str) -> Result<bool, WatchdogError> {
            Ok(_u == "wm-audio.service")
        }
    }

    let mut engine = WatchdogEngine::new(FixedFailed(vec![
        "wm-audio.service".into(),
        "wm-tts.service".into(),
    ]));
    let t0 = start();

    for i in 0..5u64 {
        let _ = engine.tick(t0.plus(Duration::from_secs(i * MAX_BACKOFF_SECS * 4)));
    }

    let audio_failures = engine
        .table()
        .get("wm-audio.service")
        .map(|s| s.consecutive_failures)
        .unwrap_or(0);
    let tts_failures = engine
        .table()
        .get("wm-tts.service")
        .map(|s| s.consecutive_failures)
        .unwrap_or(0);

    assert_eq!(tts_failures, 0, "wm-tts should have 0 failures (always recovers)");
    assert!(audio_failures > 0, "wm-audio should have >0 failures");
    assert_ne!(
        audio_failures, tts_failures,
        "per-unit states should be independent"
    );
}

#[test]
fn ac1c_give_up_after_k_consecutive_failures() {
    let mut state = RecoveryState::default();
    let t0 = start();
    let mut gave_up_at: Option<u32> = None;

    for i in 0..GIVE_UP_AFTER + 5 {
        let gave_up = state.record_failure(t0.plus(Duration::from_secs(u64::from(i) * 1_000)));
        if gave_up && gave_up_at.is_none() {
            gave_up_at = Some(i + 1);
        }
    }

    assert_eq!(
        gave_up_at,
        Some(GIVE_UP_AFTER),
        "give-up should trigger at exactly GIVE_UP_AFTER={GIVE_UP_AFTER} failures"
    );
    assert!(state.gave_up, "state.gave_up must be true");
    assert!(
        !state.may_attempt(t0.plus(Duration::from_secs(999_999))),
        "gave-up unit must never be attempted again"
    );
}

#[test]
fn ac1d_wintermute_unit_filter_accepts_fleet() {
    let fleet_units = [
        "wmd-init.service",
        "wm-audio.service",
        "wm-tts.service",
        "wm-stt.service",
        "wm-dialog.service",
        "wintermute-ready.service",
    ];
    for &u in &fleet_units {
        assert!(is_wintermute_unit(u), "expected {u} to be a wintermute unit");
    }
}

#[test]
fn ac1d_wintermute_unit_filter_rejects_foreign() {
    let foreign = [
        "sshd.service",
        "NetworkManager.service",
        "pipewire.service",
        "gdm.service",
        "systemd-logind.service",
        "dbus.service",
    ];
    for &u in &foreign {
        assert!(
            !is_wintermute_unit(u),
            "expected {u} to be rejected by wintermute filter"
        );
    }
}

#[test]
fn ac1e_health_event_shape_on_give_up() {
    let ev = HealthEvent {
        unit: "wm-audio.service".into(),
        attempts: GIVE_UP_AFTER,
    };
    let s = ev.format();
    assert!(
        s.starts_with("wm.health."),
        "event must start with wm.health.: {s}"
    );
    assert!(
        s.contains("wm-audio.service"),
        "event must contain unit name: {s}"
    );
    assert!(
        s.contains(&format!("attempts={GIVE_UP_AFTER}")),
        "event must contain attempts count: {s}"
    );
}

#[test]
fn ac2_backoff_gate_respected_by_engine() {
    struct FirstTickFail {
        attempts: Cell<u32>,
    }
    impl SystemctlBackend for FirstTickFail {
        fn list_failed_units(&self) -> Result<Vec<String>, WatchdogError> {
            Ok(vec!["wm-audio.service".into()])
        }
        fn reset_failed(&self, _u: &str) -> Result<(), WatchdogError> {
            Ok(())
        }
        fn start_unit(&self, _u: &str) -> Result<(), WatchdogError> {
            self.attempts.set(self.attempts.get() + 1);
            Ok(())
        }
        fn unit_is_failed(&self, _u: &str) -> Result<bool, WatchdogError> {
            Ok(true) // never recovers
        }
    }

    let backend = FirstTickFail { attempts: Cell::new(0) };
    let mut engine = WatchdogEngine::new(backend);
    let t0 = start();

    engine.tick(t0).unwrap();
    let after_first = engine.backend.attempts.get();
    assert_eq!(after_first, 1, "expected exactly 1 attempt on tick 0");

    engine.tick(t0.plus(Duration::from_millis(1))).unwrap();
    assert_eq!(
        engine.backend.attempts.get(),
        1,
        "should not attempt again before backoff elapses"
    );

    engine
        .tick(t0.plus(Duration::from_secs(INITIAL_BACKOFF_SECS + 1)))
        .unwrap();
    assert!(
        engine.backend.attempts.get() > 1,
        "expected a second attempt after backoff elapsed"
    );
}

#[test]
fn ac3_non_wintermute_unit_never_touched() {
    struct SpyBackend {
        touched_units: RefCell<Vec<String>>,
    }
    impl SystemctlBackend for SpyBackend {
        fn list_failed_units(&self) -> Result<Vec<String>, WatchdogError> {
            Ok(vec![
                "sshd.service".into(),
                "NetworkManager.service".into(),
                "bluetooth.service".into(),
            ])
        }
        fn reset_failed(&self, u: &str) -> Result<(), WatchdogError> {
            self.touched_units.borrow_mut().push(u.to_string());
            Ok(())
        }
        fn start_unit(&self, u: &str) -> Result<(), WatchdogError> {
            self.touched_units.borrow_mut().push(u.to_string());
            Ok(())
        }
        fn unit_is_failed(&self, _u: &str) -> Result<bool, WatchdogError> {
            Ok(false)
        }
    }

    let spy = SpyBackend {
        touched_units: RefCell::new(Vec::new()),
    };
    let mut engine = WatchdogEngine::new(spy);
    engine.tick(start()).unwrap();

    assert!(
        engine.backend.touched_units.borrow().is_empty(),
        "non-wintermute units were touched: {:?}",
        engine.backend.touched_units.borrow()
    );
}

#[test]
fn ac4_watchdog_does_not_recover_itself() {
    struct SelfFailedBackend {
        self_touched: Cell<bool>,
    }
    impl SystemctlBackend for SelfFailedBackend {
        fn list_failed_units(&self) -> Result<Vec<String>, WatchdogError> {
            Ok(vec![WATCHDOG_UNIT_NAME.to_string()])
        }
        fn reset_failed(&self, _u: &str) -> Result<(), WatchdogError> {
            self.self_touched.set(true);
            Ok(())
        }
        fn start_unit(&self, _u: &str) -> Result<(), WatchdogError> {
            self.self_touched.set(true);
            Ok(())
        }
        fn unit_is_failed(&self, _u: &str) -> Result<bool, WatchdogError> {
            Ok(false)
        }
    }

    let spy = SelfFailedBackend { self_touched: Cell::new(false) };
    let mut engine = WatchdogEngine::new(spy);
    engine.tick(start()).unwrap();

    assert!(
        !engine.backend.self_touched.get(),
        "watchdog attempted to recover its own unit {WATCHDOG_UNIT_NAME}"
    );
}

#[test]
fn ac5_health_event_emitted_on_give_up() {
    struct AlwaysFailed;
    impl SystemctlBackend for AlwaysFailed {
        fn list_failed_units(&self) -> Result<Vec<String>, WatchdogError> {
            Ok(vec!["wm-dialog.service".into()])
        }
        fn reset_failed(&self, _u: &str) -> Result<(), WatchdogError> {
            Ok(())
        }
        fn start_unit(&self, _u: &str) -> Result<(), WatchdogError> {
            Ok(())
        }
        fn unit_is_failed(&self, _u: &str) -> Result<bool, WatchdogError> {
            Ok(true) // never recovers
        }
    }

    let mut engine = WatchdogEngine::new(AlwaysFailed);
    let t0 = start();
    let mut all_events: Vec<HealthEvent> = Vec::new();

    for i in 0..u64::from(GIVE_UP_AFTER) + 3 {
        let events = engine
            .tick(t0.plus(Duration::from_secs(i * MAX_BACKOFF_SECS * 4)))
            .unwrap();
        all_events.extend(events);
    }

    let give_up_events: Vec<_> = all_events
        .iter()
        .filter(|e| e.unit == "wm-dialog.service")
        .collect();
    assert!(!give_up_events.is_empty(), "expected at least one give-up event for wm-dialog.service");
    assert_eq!(
        give_up_events[0].attempts, GIVE_UP_AFTER,
        "give-up event must report GIVE_UP_AFTER={GIVE_UP_AFTER} attempts"
    );
}

#[test]
fn failed_unit_may_be_attempted_again_after_its_pause() {
    let mut state = RecoveryState::default();
    assert!(!state.record_failure(start()));
    assert!(!state.may_attempt(start().plus(Duration::from_millis(1999))));
    assert!(state.may_attempt(start().plus(Duration::from_secs(INITIAL_BACKOFF_SECS))));
    assert_eq!(state.current_backoff, Duration::from_secs(4));
}

#[test]
fn recovery_does_not_undo_giving_up() {
    let mut state = RecoveryState { gave_up: true, ..RecoveryState::default() };
    state.record_success();
    assert!(state.gave_up);
    assert!(!state.may_attempt(start()));
}

#[test]
fn filter_goes_by_the_whole_name() {
    assert!(is_wintermute_unit("wmd"));
    assert!(is_wintermute_unit("wm.target"));
    assert!(is_wintermute_unit("wm.service"));
    assert!(is_wintermute_unit("wmd.service"));
    assert!(is_wintermute_unit("wintermute.target"));
    assert!(is_wintermute_unit("wintermute.service"));
    assert!(!is_wintermute_unit("wmd.target"));
    assert!(is_wintermute_unit("wintermute-watchdog"));
    assert!(!is_wintermute_unit("wmdx.service"));
    assert!(!is_wintermute_unit("wmx"));
    assert!(!is_wintermute_unit("xwm-audio.service"));
    assert!(!is_wintermute_unit(""));
}

/// Fails in the step that is named, for every unit.
struct FailsIn(&'static str, Vec<String>);

fn refused() -> WatchdogError {
    WatchdogError::Io("refused".into())
}

impl SystemctlBackend for FailsIn {
    fn list_failed_units(&self) -> Result<Vec<String>, WatchdogError> {
        if self.0 == "list" {
            return Err(refused());
        }
        Ok(self.1.clone())
    }
    fn reset_failed(&self, _u: &str) -> Result<(), WatchdogError> {
        if self.0 == "reset" {
            return Err(refused());
        }
        Ok(())
    }
    fn start_unit(&self, _u: &str) -> Result<(), WatchdogError> {
        if self.0 == "start" {
            return Err(refused());
        }
        Ok(())
    }
    fn unit_is_failed(&self, _u: &str) -> Result<bool, WatchdogError> {
        if self.0 == "query" {
            return Err(refused());
        }
        Ok(false)
    }
}

#[test]
fn every_step_of_an_attempt_counts() {
    for step in ["reset", "start", "query", "none"] {
        let mut engine = WatchdogEngine::new(FailsIn(step, vec!["wmd.service".into()]));
        assert_eq!(engine.tick(start()), Ok(vec![]));
        let failures = engine.table().get("wmd.service").map(|s| s.consecutive_failures);
        assert_eq!(failures, Some(if step == "none" { 0 } else { 1 }), "{step}");
    }
    let mut engine = WatchdogEngine::new(FailsIn("list", vec![]));
    assert_eq!(engine.tick(start()), Err(refused()));
    assert_eq!(engine.table().len(), 0);
}

#[test]
fn a_unit_is_reported_once() {
    let units = vec!["wmd.service".into(), "sshd.service".into(), "wm-tts.service".into()];
    let mut engine = WatchdogEngine::new(FailsIn("start", units));
    let mut events = Vec::new();
    for i in 0..20u64 {
        let now = start().plus(Duration::from_secs(i * MAX_BACKOFF_SECS));
        events.extend(engine.tick(now).expect("tick"));
    }
    assert_eq!(
        events,
        vec![
            HealthEvent { unit: "wmd.service".into(), attempts: GIVE_UP_AFTER },
            HealthEvent { unit: "wm-tts.service".into(), attempts: GIVE_UP_AFTER },
        ]
    );
    assert_eq!(engine.table().len(), 2);
    assert!(engine.table().get("sshd.service").is_none());
}

#[test]
fn errors_and_events_in_words() {
    let e = WatchdogError::SystemctlFailed {
        op: "--user".into(),
        unit: "wmd".into(),
        detail: "exit code Some(1)".into(),
    };
    assert_eq!(e.message(), "systemctl --user wmd: exit code Some(1)");
    assert_eq!(refused().message(), "I/O error: refused");
    let ev = HealthEvent { unit: "wmd".into(), attempts: 8 };
    assert_eq!(ev.format(), "wm.health.unit-failed unit=wmd attempts=8");
}

fn done(success: bool, code: Option<i32>, stdout: &str) -> CommandOutcome {
    CommandOutcome::Done { success, code, stdout: stdout.into() }
}

#[test]
fn listings_as_json_name_their_units() {
    assert_eq!(
        parse_failed_json("[{\"unit\":\"a.service\",\"load\":\"x\"},{\"unit\" : \"b\"}]\n"),
        vec!["a.service", "b"]
    );
    assert_eq!(parse_failed_json("{\"unit\":1,\"unit\":\"c\"}"), vec!["c"]);
    assert_eq!(parse_failed_json("\"unit\":\"open"), Vec::<String>::new());
    assert_eq!(
        parse_failed_text("  a.service loaded failed\n\n b x\n"),
        vec!["a.service", "b"]
    );
}

#[test]
fn listing_falls_back_to_text() {
    let run = |cmd: &str, args: &[&str]| {
        assert_eq!(cmd, "systemctl");
        if args.contains(&"json") {
            assert_eq!(args, ["--user", "--state=failed", "--no-legend", "--plain", "-o", "json"]);
            done(true, Some(0), "nothing here")
        } else {
            assert_eq!(args, ["--user", "--state=failed", "--no-legend", "--plain"]);
            done(true, Some(0), "wmd.service loaded failed\n")
        }
    };
    assert_eq!(SystemctlReal.list_failed_units(&run), Ok(vec!["wmd.service".to_string()]));
    let json = |_c: &str, _a: &[&str]| done(true, Some(0), "{\"unit\":\"wmd\"}");
    assert_eq!(SystemctlReal.list_failed_units(&json), Ok(vec!["wmd".to_string()]));
    let fails = |_c: &str, _a: &[&str]| done(false, None, "");
    assert_eq!(
        SystemctlReal.list_failed_units(&fails),
        Err(WatchdogError::SystemctlFailed {
            op: "list-units".into(),
            unit: "".into(),
            detail: "exit code None".into()
        })
    );
    let absent = |_c: &str, _a: &[&str]| CommandOutcome::NotRun("no such file".into());
    assert_eq!(
        SystemctlReal.list_failed_units(&absent),
        Err(WatchdogError::SystemctlFailed {
            op: "list-units".into(),
            unit: "".into(),
            detail: "no such file".into()
        })
    );
    let then_absent = |_c: &str, a: &[&str]| {
        if a.contains(&"json") {
            done(false, Some(1), "")
        } else {
            CommandOutcome::NotRun("gone".into())
        }
    };
    assert_eq!(
        SystemctlReal.list_failed_units(&then_absent).unwrap_err().message(),
        "systemctl list-units : gone"
    );
}

#[test]
fn unit_commands_report_their_outcome() {
    let ok = |_c: &str, a: &[&str]| {
        assert_eq!(a, ["--user", "reset-failed", "wmd"]);
        done(true, Some(0), "")
    };
    assert_eq!(SystemctlReal.reset_failed(&ok, "wmd"), Ok(()));
    let bad = |_c: &str, a: &[&str]| {
        assert_eq!(a, ["--user", "start", "wmd"]);
        done(false, Some(-4), "")
    };
    assert_eq!(
        SystemctlReal.start_unit(&bad, "wmd"),
        Err(WatchdogError::SystemctlFailed {
            op: "start".into(),
            unit: "wmd".into(),
            detail: "exit code Some(-4)".into()
        })
    );
    let failed = |_c: &str, a: &[&str]| {
        assert_eq!(a, ["--user", "is-failed", "wmd"]);
        done(false, Some(1), "failed\n")
    };
    assert_eq!(SystemctlReal.unit_is_failed(&failed, "wmd"), Ok(true));
    let active = |_c: &str, _a: &[&str]| done(true, Some(0), "active\n");
    assert_eq!(SystemctlReal.unit_is_failed(&active, "wmd"), Ok(false));
}

#[test]
fn failures_name_the_operation_attempted() {
    let failure = |op: &str, detail: &str| WatchdogError::SystemctlFailed {
        op: op.into(),
        unit: "wm-audio.service".into(),
        detail: detail.into(),
    };
    assert_eq!(
        command_result(&["--user", "reset-failed", "wm-audio.service"], done(false, Some(1), "")),
        Err(failure("reset-failed", "exit code Some(1)"))
    );
    let absent = |_c: &str, _a: &[&str]| CommandOutcome::NotRun("no such file".into());
    let unit = "wm-audio.service";
    assert_eq!(
        SystemctlReal.reset_failed(&absent, unit),
        Err(failure("reset-failed", "no such file"))
    );
    assert_eq!(SystemctlReal.start_unit(&absent, unit), Err(failure("start", "no such file")));
    assert_eq!(
        SystemctlReal.unit_is_failed(&absent, unit),
        Err(failure("is-failed", "no such file"))
    );
}

/// Records the order of its calls and fails in the step that is named.
struct Steps(&'static str, Mutex<Vec<&'static str>>);

impl Steps {
    fn step(&self, name: &'static str) -> Result<(), WatchdogError> {
        self.1.lock().unwrap().push(name);
        if self.0 == name {
            return Err(refused());
        }
        Ok(())
    }
}

impl SystemctlBackend for Steps {
    fn list_failed_units(&self) -> Result<Vec<String>, WatchdogError> {
        Ok(vec!["wmd.service".into()])
    }
    fn reset_failed(&self, _u: &str) -> Result<(), WatchdogError> {
        self.step("reset")
    }
    fn start_unit(&self, _u: &str) -> Result<(), WatchdogError> {
        self.step("start")
    }
    fn unit_is_failed(&self, _u: &str) -> Result<bool, WatchdogError> {
        self.step("query").map(|()| false)
    }
}

#[test]
fn an_attempt_goes_on_only_after_a_success() {
    for (fails, calls) in [
        ("reset", vec!["reset"]),
        ("start", vec!["reset", "start"]),
        ("query", vec!["reset", "start", "query"]),
        ("none", vec!["reset", "start", "query"]),
    ] {
        let mut engine = WatchdogEngine::new(Steps(fails, Mutex::new(vec![])));
        assert_eq!(engine.tick(start()), Ok(vec![]));
        assert_eq!(*engine.backend.1.lock().unwrap(), calls);
    }
}
