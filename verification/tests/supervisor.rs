//! The supervisor.

use std::sync::Mutex;

use wintermute_platform::clock::{Duration, Instant};
use wintermute_platform::escalation::{escalates, failing_since};
use wintermute_platform::protocol::{ChildStatus, Request, Response, SupervisorView};
use wintermute_platform::spawn::{SpawnError, Spawner, StartedChild};
use wintermute_platform::string_map::StringMap;
use wintermute_platform::supervisor::{
    answer, backoff_events, dispatch, handle_line, BackoffEvent, PassReport, RestartOutcome,
    Supervisor, SupervisorError, BACKOFF_REASON, BACKOFF_TOPIC,
};
use wintermute_platform::{
    canonical_children, ChildSpec, FileRead, RestartTracker, BACKOFF_SECS,
    RESTART_STORM_THRESHOLD, RESTART_WINDOW_SECS,
};

fn start() -> Instant {
    Instant::from_nanos(7_000_000_000_000)
}

fn no_file(_p: &str) -> FileRead {
    FileRead::NotFound
}

/// Returns synthetic process ids and records the names it was asked to start.
struct StubSpawner {
    calls: Mutex<Vec<String>>,
    gone: Mutex<Vec<u32>>,
    base_pid: u32,
}

impl StubSpawner {
    fn new(base_pid: u32) -> Self {
        Self { calls: Mutex::new(Vec::new()), gone: Mutex::new(Vec::new()), base_pid }
    }
    fn called_names(&self) -> Vec<String> {
        self.calls.lock().map_or_else(|_| Vec::new(), |g| g.clone())
    }
    fn mark_exited(&self, pid: u32) {
        self.gone.lock().expect("lock").push(pid);
    }
}

impl Spawner for StubSpawner {
    fn start(&self, spec: &ChildSpec) -> Result<StartedChild, SpawnError> {
        let n_after = {
            let mut g = self.calls.lock().expect("lock");
            g.push(spec.name.clone());
            u32::try_from(g.len()).unwrap_or(u32::MAX)
        };
        Ok(StartedChild {
            id: spec.name.clone(),
            child_pid: self.base_pid + n_after,
            supervisor_pid: 0,
        })
    }
    fn still_running(&self, pid: u32) -> Result<bool, SpawnError> {
        Ok(!self.gone.lock().expect("lock").contains(&pid))
    }
}

#[test]
fn stub_spawner_records_calls_and_returns_unique_pids() {
    let stub = StubSpawner::new(10_000);
    let a = stub
        .start(&ChildSpec { name: "wm-audio".into(), program: "wm-audio".into(), args: vec![] })
        .expect("start");
    let b = stub
        .start(&ChildSpec { name: "wm-tts".into(), program: "wm-tts".into(), args: vec![] })
        .expect("start");
    assert_eq!(a.id, "wm-audio");
    assert_eq!(a.child_pid, 10_001);
    assert_eq!(a.supervisor_pid, 0);
    assert_eq!(b.child_pid, 10_002);
    assert_eq!(stub.called_names(), vec!["wm-audio", "wm-tts"]);
}

#[test]
fn new_supervisor_has_five_pending_children() {
    let s = Supervisor::new();
    let view = s.snapshot();
    assert_eq!(view.children.len(), 5);
    assert!(view.children.iter().all(|c| c.status == ChildStatus::Pending));
}

#[test]
fn dispatch_status_returns_pending_view() {
    let view = SupervisorView::pending_for(&canonical_children());
    let mut state = view;
    let resp = dispatch(Request::Status, &mut state, None, &no_file);
    assert!(matches!(resp, Response::Status { .. }));
}

#[test]
fn dispatch_mute_acks_and_flips_state() {
    let mut state = SupervisorView::pending_for(&canonical_children());
    assert!(!state.muted);
    let resp = dispatch(Request::Mute, &mut state, None, &no_file);
    assert_eq!(resp, Response::Ack);
    assert!(state.muted);
}

#[test]
fn dispatch_unmute_acks_and_clears_state() {
    let mut view = SupervisorView::pending_for(&canonical_children());
    view.muted = true;
    let mut state = view;
    let resp = dispatch(Request::Unmute, &mut state, None, &no_file);
    assert_eq!(resp, Response::Ack);
    assert!(!state.muted);
}

#[test]
fn dispatch_mute_then_unmute_toggles_muted() {
    let mut state = SupervisorView::pending_for(&canonical_children());
    assert_eq!(dispatch(Request::Mute, &mut state, None, &no_file), Response::Ack);
    assert!(state.muted);
    assert_eq!(dispatch(Request::Unmute, &mut state, None, &no_file), Response::Ack);
    assert!(!state.muted);
}

#[test]
fn dispatch_status_after_mute_reflects_muted_flag() {
    let mut state = SupervisorView::pending_for(&canonical_children());
    let _ = dispatch(Request::Mute, &mut state, None, &no_file);
    let resp = dispatch(Request::Status, &mut state, None, &no_file);
    match resp {
        Response::Status { view } => assert!(view.muted),
        other => panic!("expected Status, got {other:?}"),
    }
}

#[test]
fn dispatch_logs_returns_empty_for_unknown_child() {
    let mut state = SupervisorView::pending_for(&canonical_children());
    let resp = dispatch(
        Request::Logs {
            child: "wm-nonexistent-7d3f9c".into(),
            tail: 5,
        },
        &mut state,
        None,
        &no_file,
    );
    match resp {
        Response::Logs { child, lines } => {
            assert_eq!(child, "wm-nonexistent-7d3f9c");
            assert!(lines.is_empty(), "missing log file should yield empty tail");
        }
        other => panic!("expected Response::Logs, got {other:?}"),
    }
}

#[test]
fn start_all_marks_all_children_running_in_canonical_order() {
    let stub = StubSpawner::new(20_000);
    let mut sup = Supervisor::new();
    sup.start_all(&stub).expect("pass");
    let view = sup.snapshot();
    let names: Vec<&str> = view.children.iter().map(|c| c.name.as_str()).collect();
    assert_eq!(
        names,
        vec!["wm-audio", "wm-tts", "wm-stt", "wm-dialog", "wmd"]
    );
    for child in &view.children {
        assert_eq!(child.status, ChildStatus::Running, "{}", child.name);
        let pid = child
            .child_pid
            .expect("present");
        assert_eq!(
            child.last_event.as_deref(),
            Some(format!("running pid={pid}").as_str()),
        );
    }
    assert_eq!(
        stub.called_names(),
        vec!["wm-audio", "wm-tts", "wm-stt", "wm-dialog", "wmd"],
    );
}

#[test]
fn observe_exits_flips_running_to_exited_when_pid_gone() {
    let stub = StubSpawner::new(40_000);
    let mut sup = Supervisor::new();
    sup.start_all(&stub).expect("pass");
    let pid_audio = sup
        .snapshot()
        .children
        .iter()
        .find(|c| c.name == "wm-audio")
        .and_then(|c| c.child_pid)
        .expect("present");
    stub.mark_exited(pid_audio);
    let transitions = sup.observe_exits(&stub).expect("pass");
    assert_eq!(transitions, vec!["wm-audio".to_string()]);
    let view = sup.snapshot();
    let audio = view
        .children
        .iter()
        .find(|c| c.name == "wm-audio")
        .expect("present");
    assert_eq!(audio.status, ChildStatus::Exited);
    assert_eq!(
        audio.last_event.as_deref(),
        Some(format!("exited (lost pid {pid_audio})").as_str())
    );
    for other in view.children.iter().filter(|c| c.name != "wm-audio") {
        assert_eq!(other.status, ChildStatus::Running, "{}", other.name);
    }
}

#[test]
fn observe_exits_is_idempotent_when_nothing_changed() {
    let stub = StubSpawner::new(50_000);
    let mut sup = Supervisor::new();
    sup.start_all(&stub).expect("pass");
    let t1 = sup.observe_exits(&stub).expect("pass");
    let t2 = sup.observe_exits(&stub).expect("pass");
    assert!(t1.is_empty());
    assert!(t2.is_empty());
}

#[test]
fn observe_exits_skips_pending_and_starting_slots() {
    let stub = StubSpawner::new(60_000);
    let mut sup = Supervisor::new();
    let transitions = sup.observe_exits(&stub).expect("pass");
    assert!(transitions.is_empty());
    let view = sup.snapshot();
    for c in &view.children {
        assert_eq!(c.status, ChildStatus::Pending);
    }
}

#[test]
fn restart_exited_relaunches_exited_child_and_increments_count() {
    let stub = StubSpawner::new(80_000);
    let mut sup = Supervisor::new();
    sup.start_all(&stub).expect("pass");
    let pid_tts = sup
        .snapshot()
        .children
        .iter()
        .find(|c| c.name == "wm-tts")
        .and_then(|c| c.child_pid)
        .expect("present");
    stub.mark_exited(pid_tts);
    let _ = sup.observe_exits(&stub).expect("pass");

    let mut trackers: StringMap<RestartTracker> = StringMap::new();
    let outcomes = sup
        .restart_exited(&stub, &mut trackers, start()).expect("pass");
    assert_eq!(outcomes.len(), 1, "{outcomes:?}");
    match &outcomes[0] {
        RestartOutcome::Restarted {
            name,
            child_pid,
            restart_count,
        } => {
            assert_eq!(name, "wm-tts");
            assert_ne!(*child_pid, pid_tts, "expected fresh PID");
            assert_eq!(*restart_count, 1);
        }
        other => panic!("expected Restarted, got {other:?}"),
    }

    let view = sup.snapshot();
    let tts = view
        .children
        .iter()
        .find(|c| c.name == "wm-tts")
        .expect("present");
    assert_eq!(tts.status, ChildStatus::Running);
    assert_eq!(tts.restart_count, 1);
    assert_ne!(tts.child_pid, Some(pid_tts));
    assert!(tts
        .last_event
        .as_deref()
        .is_some_and(|s| s.starts_with("restarted pid=") && s.contains("(#1)")));
}

#[test]
fn restart_exited_flips_to_backoff_on_storm_threshold() {
    let stub = StubSpawner::new(90_000);
    let mut sup = Supervisor::new();
    sup.start_specs(
        &stub,
        &[ChildSpec {
            name: "wm-audio".into(),
            program: "wm-audio".into(),
            args: vec![],
        }],
    ).expect("pass");
    let mut trackers: StringMap<RestartTracker> = StringMap::new();
    let base = start();
    for i in 0..5 {
        let pid = sup
            .snapshot()
            .children
            .iter()
            .find(|c| c.name == "wm-audio")
            .and_then(|c| c.child_pid)
            .expect("present");
        stub.mark_exited(pid);
        let _ = sup.observe_exits(&stub).expect("pass");
        let outcomes = sup
            .restart_exited(
                &stub,
                &mut trackers,
                base.plus(Duration::from_millis(i * 100)),
            ).expect("pass");
        assert_eq!(outcomes.len(), 1, "cycle {i}: {outcomes:?}");
        if i < 4 {
            assert!(
                matches!(&outcomes[0], RestartOutcome::Restarted { .. }),
                "cycle {i} expected restart, got {:?}",
                outcomes[0]
            );
        } else {
            match &outcomes[0] {
                RestartOutcome::EnteredBackoff {
                    name,
                    restarts_in_window,
                } => {
                    assert_eq!(name, "wm-audio");
                    assert_eq!(*restarts_in_window, 5);
                }
                other => panic!("cycle 4 expected EnteredBackoff, got {other:?}"),
            }
        }
    }
    let view = sup.snapshot();
    let audio = view
        .children
        .iter()
        .find(|c| c.name == "wm-audio")
        .expect("present");
    assert_eq!(audio.status, ChildStatus::Backoff);
    assert_eq!(audio.restart_count, 4, "4 successful restarts before storm");
    assert!(audio
        .last_event
        .as_deref()
        .is_some_and(|s| s.starts_with("backoff (5 restarts in window)")));
}

#[test]
fn restart_exited_is_noop_when_nothing_exited() {
    let stub = StubSpawner::new(100_000);
    let mut sup = Supervisor::new();
    sup.start_all(&stub).expect("pass");
    let mut trackers: StringMap<RestartTracker> = StringMap::new();
    let outcomes = sup
        .restart_exited(&stub, &mut trackers, start()).expect("pass");
    assert!(outcomes.is_empty());
    assert!(trackers.len() == 0, "tracker map untouched when no work");
}

#[test]
fn restart_exited_handles_each_child_with_its_own_tracker() {
    let stub = StubSpawner::new(110_000);
    let mut sup = Supervisor::new();
    sup.start_all(&stub).expect("pass");
    let pids: Vec<(String, u32)> = sup
        .snapshot()
        .children
        .iter()
        .filter(|c| c.name == "wm-stt" || c.name == "wm-dialog")
        .filter_map(|c| c.child_pid.map(|p| (c.name.clone(), p)))
        .collect();
    assert_eq!(pids.len(), 2);
    for (_, pid) in &pids {
        stub.mark_exited(*pid);
    }
    let _ = sup.observe_exits(&stub).expect("pass");

    let mut trackers: StringMap<RestartTracker> = StringMap::new();
    let outcomes = sup
        .restart_exited(&stub, &mut trackers, start()).expect("pass");
    assert_eq!(outcomes.len(), 2);
    assert_eq!(trackers.len(), 2);
    for name in ["wm-stt", "wm-dialog"] {
        let t = trackers
            .get(name)
            .expect("present");
        assert_eq!(t.restarts_in_window(), 1, "{name}");
    }
    let view = sup.snapshot();
    for name in ["wm-stt", "wm-dialog"] {
        let c = view
            .children
            .iter()
            .find(|c| c.name == name)
            .expect("present");
        assert_eq!(c.status, ChildStatus::Running);
        assert_eq!(c.restart_count, 1);
    }
}

#[test]
fn start_specs_records_pid_from_spawner() {
    let stub = StubSpawner::new(7_000);
    let mut sup = Supervisor::new();
    sup.start_specs(
        &stub,
        &[ChildSpec {
            name: "wm-audio".into(),
            program: "wm-audio".into(),
            args: vec![],
        }],
    ).expect("pass");
    let view = sup.snapshot();
    let audio = view
        .children
        .iter()
        .find(|c| c.name == "wm-audio")
        .expect("present");
    assert_eq!(audio.status, ChildStatus::Running);
    assert_eq!(audio.child_pid, Some(7_001));
    for other in view.children.iter().filter(|c| c.name != "wm-audio") {
        assert_eq!(other.status, ChildStatus::Pending);
        assert!(other.child_pid.is_none());
    }
}

#[test]
fn clear_expired_backoffs_flips_due_slots_to_exited() {
    let stub = StubSpawner::new(200_000);
    let mut sup = Supervisor::new();
    sup.start_specs(
        &stub,
        &[ChildSpec {
            name: "wm-audio".into(),
            program: "wm-audio".into(),
            args: vec![],
        }],
    ).expect("pass");
    let pid = sup
        .snapshot()
        .children
        .iter()
        .find(|c| c.name == "wm-audio")
        .and_then(|c| c.child_pid)
        .expect("present");
    stub.mark_exited(pid);
    let _ = sup.observe_exits(&stub).expect("pass");
    let mut trackers: StringMap<RestartTracker> = StringMap::new();
    let mut t = RestartTracker::default();
    let base = start();
    for i in 0..RESTART_STORM_THRESHOLD {
        let _ = t.record(base.plus(Duration::from_millis(u64::from(i))));
    }
    trackers.insert("wm-audio".into(), t);
    let outcomes = sup
        .restart_exited(&stub, &mut trackers, base).expect("pass");
    assert!(matches!(
        outcomes.as_slice(),
        [RestartOutcome::EnteredBackoff { .. }]
    ));

    let mut due: StringMap<Instant> = StringMap::new();
    let until = base.plus(Duration::from_secs(BACKOFF_SECS));
    due.insert("wm-audio".into(), until);

    let early = sup.clear_expired_backoffs(&due, base);
    assert!(early.is_empty(), "premature flip: {early:?}");
    let v = sup.snapshot();
    assert_eq!(
        v.children
            .iter()
            .find(|c| c.name == "wm-audio")
            .map(|c| c.status),
        Some(ChildStatus::Backoff),
    );

    let after = until.plus(Duration::from_millis(1));
    let cleared = sup.clear_expired_backoffs(&due, after);
    assert_eq!(cleared, vec!["wm-audio".to_string()]);
    let v = sup.snapshot();
    let slot = v
        .children
        .iter()
        .find(|c| c.name == "wm-audio")
        .expect("present");
    assert_eq!(slot.status, ChildStatus::Exited);
    assert_eq!(
        slot.last_event.as_deref(),
        Some("backoff expired; retrying"),
    );
}

#[test]
fn clear_expired_backoffs_skips_non_backoff_slots() {
    let stub = StubSpawner::new(210_000);
    let mut sup = Supervisor::new();
    sup.start_all(&stub).expect("pass");
    let now = start();
    let mut due: StringMap<Instant> = StringMap::new();
    for name in ["wm-audio", "wm-tts", "wm-stt", "wm-dialog", "wmd"] {
        due.insert(name.into(), now.checked_sub(Duration::from_secs(10)).expect("clock"));
    }
    let cleared = sup.clear_expired_backoffs(&due, now);
    assert!(cleared.is_empty(), "flipped a non-backoff slot: {cleared:?}");
    let v = sup.snapshot();
    assert!(v.children.iter().all(|c| c.status == ChildStatus::Running));
}

#[test]
fn observer_pass_restarts_a_freshly_crashed_child() {
    let stub = StubSpawner::new(300_000);
    let mut sup = Supervisor::new();
    sup.start_specs(
        &stub,
        &[ChildSpec {
            name: "wm-audio".into(),
            program: "wm-audio".into(),
            args: vec![],
        }],
    ).expect("pass");
    let pid = sup
        .snapshot()
        .children
        .iter()
        .find(|c| c.name == "wm-audio")
        .and_then(|c| c.child_pid)
        .expect("present");
    stub.mark_exited(pid);
    let mut trackers: StringMap<RestartTracker> = StringMap::new();
    let mut backoff_until: StringMap<Instant> = StringMap::new();
    sup.observer_pass(&stub, &mut trackers, &mut backoff_until, start());
    let v = sup.snapshot();
    let slot = v
        .children
        .iter()
        .find(|c| c.name == "wm-audio")
        .expect("present");
    assert_eq!(slot.status, ChildStatus::Running);
    assert_eq!(slot.restart_count, 1);
    assert!(backoff_until.len() == 0);
    assert_eq!(
        trackers
            .get("wm-audio")
            .map(RestartTracker::restarts_in_window),
        Some(1),
    );
}

#[test]
fn observer_pass_records_backoff_when_storm_trips() {
    let stub = StubSpawner::new(310_000);
    let mut sup = Supervisor::new();
    sup.start_specs(
        &stub,
        &[ChildSpec {
            name: "wm-audio".into(),
            program: "wm-audio".into(),
            args: vec![],
        }],
    ).expect("pass");
    let mut trackers: StringMap<RestartTracker> = StringMap::new();
    let mut backoff_until: StringMap<Instant> = StringMap::new();
    let base = start();
    for i in 0..RESTART_STORM_THRESHOLD {
        let pid = sup
            .snapshot()
            .children
            .iter()
            .find(|c| c.name == "wm-audio")
            .and_then(|c| c.child_pid)
            .expect("present");
        stub.mark_exited(pid);
        sup.observer_pass(
            &stub,
            &mut trackers,
            &mut backoff_until,
            base.plus(Duration::from_millis(u64::from(i) * 10)),
        );
    }
    let v = sup.snapshot();
    let slot = v
        .children
        .iter()
        .find(|c| c.name == "wm-audio")
        .expect("present");
    assert_eq!(slot.status, ChildStatus::Backoff);
    let until = backoff_until
        .get("wm-audio")
        .copied()
        .expect("present");
    let last_tick = base.plus(Duration::from_millis(
            u64::from(RESTART_STORM_THRESHOLD.saturating_sub(1)) * 10,
        ));
    let expected = last_tick.plus(Duration::from_secs(BACKOFF_SECS));
    assert_eq!(until, expected);
}

#[test]
fn observer_pass_clears_backoff_then_retries_in_a_later_tick() {
    let stub = StubSpawner::new(320_000);
    let mut sup = Supervisor::new();
    sup.start_specs(
        &stub,
        &[ChildSpec {
            name: "wm-audio".into(),
            program: "wm-audio".into(),
            args: vec![],
        }],
    ).expect("pass");
    let mut trackers: StringMap<RestartTracker> = StringMap::new();
    let mut backoff_until: StringMap<Instant> = StringMap::new();
    let base = start();
    for i in 0..RESTART_STORM_THRESHOLD {
        let pid = sup
            .snapshot()
            .children
            .iter()
            .find(|c| c.name == "wm-audio")
            .and_then(|c| c.child_pid)
            .expect("present");
        stub.mark_exited(pid);
        sup.observer_pass(
            &stub,
            &mut trackers,
            &mut backoff_until,
            base.plus(Duration::from_millis(u64::from(i) * 10)),
        );
    }
    assert_eq!(
        sup.snapshot()
            .children
            .iter()
            .find(|c| c.name == "wm-audio")
            .map(|c| c.status),
        Some(ChildStatus::Backoff),
    );
    let later = base.plus(Duration::from_secs(RESTART_WINDOW_SECS + BACKOFF_SECS + 1));
    sup.observer_pass(&stub, &mut trackers, &mut backoff_until, later);
    let v = sup.snapshot();
    let slot = v
        .children
        .iter()
        .find(|c| c.name == "wm-audio")
        .expect("present");
    assert_eq!(slot.status, ChildStatus::Running);
    assert!(
        !backoff_until.contains_key("wm-audio"),
        "backoff_until should be cleared after successful retry",
    );
}

#[test]
fn clear_expired_backoffs_ignores_slots_without_due_entry() {
    let stub = StubSpawner::new(220_000);
    let mut sup = Supervisor::new();
    sup.start_specs(
        &stub,
        &[ChildSpec {
            name: "wm-audio".into(),
            program: "wm-audio".into(),
            args: vec![],
        }],
    ).expect("pass");
    let pid = sup
        .snapshot()
        .children
        .iter()
        .find(|c| c.name == "wm-audio")
        .and_then(|c| c.child_pid)
        .expect("present");
    stub.mark_exited(pid);
    let _ = sup.observe_exits(&stub).expect("pass");
    let mut trackers: StringMap<RestartTracker> = StringMap::new();
    let base = start();
    let mut t = RestartTracker::default();
    for i in 0..RESTART_STORM_THRESHOLD {
        let _ = t.record(base.plus(Duration::from_millis(u64::from(i))));
    }
    trackers.insert("wm-audio".into(), t);
    let _ = sup.restart_exited(&stub, &mut trackers, base).expect("pass");
    let due: StringMap<Instant> = StringMap::new();
    let way_later = base.plus(Duration::from_secs(BACKOFF_SECS * 10));
    let cleared = sup.clear_expired_backoffs(&due, way_later);
    assert!(cleared.is_empty());
    let v = sup.snapshot();
    assert_eq!(
        v.children
            .iter()
            .find(|c| c.name == "wm-audio")
            .map(|c| c.status),
        Some(ChildStatus::Backoff),
    );
}

/// Starts nothing that is listed, and cannot probe the listed process ids.
struct Fussy {
    refuses: Vec<&'static str>,
    unknown: Vec<u32>,
}

impl Spawner for Fussy {
    fn start(&self, spec: &ChildSpec) -> Result<StartedChild, SpawnError> {
        if self.refuses.contains(&spec.name.as_str()) {
            return Err(SpawnError { message: format!("no {}", spec.name) });
        }
        Ok(StartedChild {
            id: spec.name.clone(),
            child_pid: u32::try_from(spec.name.len()).unwrap_or(0),
            supervisor_pid: 1,
        })
    }
    fn still_running(&self, pid: u32) -> Result<bool, SpawnError> {
        if self.unknown.contains(&pid) {
            return Err(SpawnError { message: format!("no pid {pid}") });
        }
        Ok(false)
    }
}

fn statuses(sup: &Supervisor) -> Vec<ChildStatus> {
    sup.snapshot().children.iter().map(|c| c.status).collect()
}

#[test]
fn a_failing_start_ends_the_run_where_it_failed() {
    let spawner = Fussy { refuses: vec!["wm-stt"], unknown: vec![] };
    let mut sup = Supervisor::new();
    let err = sup.start_all(&spawner).unwrap_err();
    assert_eq!(err.message(), "no wm-stt");
    assert_eq!(
        err,
        SupervisorError::Start {
            child: "wm-stt".into(),
            cause: SpawnError { message: "no wm-stt".into() }
        }
    );
    assert_eq!(
        statuses(&sup),
        vec![
            ChildStatus::Running,
            ChildStatus::Running,
            ChildStatus::Starting,
            ChildStatus::Pending,
            ChildStatus::Pending
        ]
    );
    let stt = &sup.snapshot().children[2];
    assert_eq!((stt.last_event.as_deref(), stt.child_pid), (Some("starting"), None));
}

#[test]
fn a_failing_probe_ends_the_observation_there() {
    let spawner = Fussy { refuses: vec![], unknown: vec![9] };
    let mut sup = Supervisor::new();
    sup.start_all(&spawner).expect("start");
    let err = sup.observe_exits(&spawner).unwrap_err();
    assert_eq!(err.message(), "probe still_running for wm-dialog pid=9");
    assert_eq!(
        statuses(&sup),
        vec![
            ChildStatus::Exited,
            ChildStatus::Exited,
            ChildStatus::Exited,
            ChildStatus::Running,
            ChildStatus::Running
        ]
    );
}

#[test]
fn a_failing_restart_is_counted_and_ends_the_pass() {
    let mut sup = Supervisor::new();
    let all = Fussy { refuses: vec![], unknown: vec![] };
    sup.start_all(&all).expect("start");
    sup.observe_exits(&all).expect("observe");
    let spawner = Fussy { refuses: vec!["wm-tts"], unknown: vec![] };
    let mut trackers: StringMap<RestartTracker> = StringMap::new();
    let err = sup.restart_exited(&spawner, &mut trackers, start()).unwrap_err();
    assert_eq!(err.message(), "restart child wm-tts");
    assert_eq!(trackers.len(), 2);
    assert_eq!(trackers.get("wm-tts").map(|t| t.restarts_in_window()), Some(1));
    assert_eq!(
        statuses(&sup),
        vec![
            ChildStatus::Running,
            ChildStatus::Exited,
            ChildStatus::Exited,
            ChildStatus::Exited,
            ChildStatus::Exited
        ]
    );
}

#[test]
fn a_pass_reports_what_it_did_and_goes_on_after_a_failure() {
    let mut sup = Supervisor::new();
    let all = Fussy { refuses: vec![], unknown: vec![] };
    sup.start_all(&all).expect("start");
    let spawner = Fussy { refuses: vec![], unknown: vec![6] };
    let mut trackers: StringMap<RestartTracker> = StringMap::new();
    let mut due: StringMap<Instant> = StringMap::new();
    let report = sup.observer_pass(&spawner, &mut trackers, &mut due, start());
    assert!(report.cleared.is_empty());
    assert_eq!(
        report.observed.as_ref().unwrap_err().message(),
        "probe still_running for wm-tts pid=6"
    );
    assert_eq!(
        report.restarted,
        Ok(vec![RestartOutcome::Restarted {
            name: "wm-audio".into(),
            child_pid: 8,
            restart_count: 1
        }])
    );
    assert_eq!(
        sup.snapshot().children[0].last_event.as_deref(),
        Some("restarted pid=8 (#1)")
    );
}

#[test]
fn passes_keep_names_version_and_mute_flag() {
    let mut view = SupervisorView::pending_for(&canonical_children());
    view.muted = true;
    let mut sup = Supervisor::from_snapshot(view);
    let all = Fussy { refuses: vec![], unknown: vec![] };
    sup.start_all(&all).expect("start");
    let mut trackers: StringMap<RestartTracker> = StringMap::new();
    let mut due: StringMap<Instant> = StringMap::new();
    for i in 0..6u64 {
        let now = start().plus(Duration::from_secs(i));
        sup.observer_pass(&all, &mut trackers, &mut due, now);
    }
    let view = sup.snapshot();
    let names: Vec<&str> = view.children.iter().map(|c| c.name.as_str()).collect();
    assert_eq!(names, vec!["wm-audio", "wm-tts", "wm-stt", "wm-dialog", "wmd"]);
    assert!(view.muted);
    assert_eq!(view.protocol_version, 1);
    for c in &view.children {
        assert_eq!(c.status, ChildStatus::Backoff, "{}", c.name);
        let until = start().plus(Duration::from_secs(4 + BACKOFF_SECS));
        assert_eq!(due.get(&c.name), Some(&until));
    }
}

#[test]
fn starting_an_unknown_child_leaves_the_snapshot() {
    let mut sup = Supervisor::new();
    let before = sup.snapshot();
    let all = Fussy { refuses: vec![], unknown: vec![] };
    let spec = ChildSpec { name: "other".into(), program: "x".into(), args: vec!["-v".into()] };
    sup.start_specs(&all, &[spec]).expect("start");
    assert_eq!(sup.snapshot(), before);
    assert_eq!(sup.mark_restarted("other", 5), 0);
    assert!(!sup.mark_exited("wmd", 5));
}

#[test]
fn requests_without_a_handler_name_their_command() {
    let mut state = SupervisorView::pending_for(&canonical_children());
    let before = state.clone();
    let restart = Request::Restart { child: Some("wm-stt".into()) };
    assert_eq!(
        dispatch(restart, &mut state, None, &no_file),
        Response::NotImplemented { op: "restart".into() }
    );
    assert_eq!(
        dispatch(Request::Say { text: "hi".into() }, &mut state, None, &no_file),
        Response::NotImplemented { op: "say".into() }
    );
    assert_eq!(state, before);
}

#[test]
fn log_requests_read_the_log_of_their_child() {
    let mut state = SupervisorView::pending_for(&canonical_children());
    let read = |p: &str| {
        assert_eq!(p, "/home/m/.local/state/wintermute/logs/wmd.log");
        FileRead::Text("a\nb\nc\n".to_string())
    };
    let req = Request::Logs { child: "wmd".into(), tail: 2 };
    assert_eq!(
        dispatch(req.clone(), &mut state, Some("/home/m"), &read),
        Response::Logs { child: "wmd".into(), lines: vec!["b".into(), "c".into()] }
    );
    assert_eq!(
        answer(req, &mut state, FileRead::Failed("denied".into())),
        Response::Error { message: "tail wmd: denied".into() }
    );
}

#[test]
fn a_line_is_answered_and_a_bad_line_refused() {
    let mut state = SupervisorView::pending_for(&canonical_children());
    let parse = |t: &str| {
        if t == "mute" {
            Ok(Request::Mute)
        } else {
            Err(format!("what is {t}"))
        }
    };
    assert_eq!(handle_line("mute\r\n", &mut state, None, &parse, &no_file), Response::Ack);
    assert!(state.muted);
    let before = state.clone();
    assert_eq!(
        handle_line("not-json\n", &mut state, None, &parse, &no_file),
        Response::Error { message: "bad request: what is not-json".into() }
    );
    assert_eq!(state, before);
}

#[test]
fn a_storm_is_announced_once_and_waited_out() {
    let all = Fussy { refuses: vec![], unknown: vec![] };
    let mut sup = Supervisor::new();
    sup.start_all(&all).expect("start");
    let mut trackers: StringMap<RestartTracker> = StringMap::new();
    let mut due: StringMap<Instant> = StringMap::new();
    let mut announced = Vec::new();
    for i in 0..5u64 {
        let now = start().plus(Duration::from_secs(i));
        let report = sup.observer_pass(&all, &mut trackers, &mut due, now);
        announced.push(backoff_events(&report));
    }
    assert!(announced[..4].iter().all(|e| e.is_empty()));
    let names: Vec<&str> = announced[4].iter().map(|e| e.child.as_str()).collect();
    assert_eq!(names, vec!["wm-audio", "wm-tts", "wm-stt", "wm-dialog", "wmd"]);
    assert_eq!(
        announced[4][0],
        BackoffEvent { child: "wm-audio".into(), reason: "restart_storm".into(), backoff_s: 30 }
    );
    assert_eq!(BACKOFF_TOPIC, "init.backoff");
    assert_eq!(BACKOFF_REASON, "restart_storm");

    let waiting = sup.snapshot();
    let soon = start().plus(Duration::from_secs(4 + BACKOFF_SECS - 1));
    let quiet = sup.observer_pass(&all, &mut trackers, &mut due, soon);
    assert!(backoff_events(&quiet).is_empty());
    assert_eq!(sup.snapshot(), waiting);
    assert_eq!(due.len(), 5);

    let later = start().plus(Duration::from_secs(4 + RESTART_WINDOW_SECS + 1));
    let woke = sup.observer_pass(&all, &mut trackers, &mut due, later);
    assert_eq!(woke.cleared.len(), 5);
    assert!(backoff_events(&woke).is_empty());
    assert_eq!(due.len(), 0);
    for (c, before) in sup.snapshot().children.iter().zip(&waiting.children) {
        assert_eq!(c.status, ChildStatus::Running);
        assert_eq!(c.restart_count, before.restart_count + 1);
    }
}

#[test]
fn a_pass_that_decided_nothing_announces_nothing() {
    let mut sup = Supervisor::new();
    let all = Fussy { refuses: vec![], unknown: vec![] };
    sup.start_all(&all).expect("start");
    let spawner = Fussy { refuses: vec!["wm-audio"], unknown: vec![] };
    let mut trackers: StringMap<RestartTracker> = StringMap::new();
    let mut due: StringMap<Instant> = StringMap::new();
    let report = sup.observer_pass(&spawner, &mut trackers, &mut due, start());
    assert!(report.restarted.is_err());
    assert!(backoff_events(&report).is_empty());
}

/// Records which calls it gets.
struct Recorder {
    gone: bool,
    started: Mutex<Vec<String>>,
    probed: Mutex<Vec<u32>>,
}

impl Spawner for Recorder {
    fn start(&self, spec: &ChildSpec) -> Result<StartedChild, SpawnError> {
        let mut calls = self.started.lock().unwrap();
        calls.push(spec.name.clone());
        let child_pid = u32::try_from(calls.len()).unwrap();
        Ok(StartedChild { id: spec.name.clone(), child_pid, supervisor_pid: 0 })
    }
    fn still_running(&self, pid: u32) -> Result<bool, SpawnError> {
        self.probed.lock().unwrap().push(pid);
        Ok(!self.gone)
    }
}

#[test]
fn a_child_entering_backoff_is_not_started() {
    let spawner =
        Recorder { gone: true, started: Mutex::new(vec![]), probed: Mutex::new(vec![]) };
    let mut sup = Supervisor::new();
    sup.start_specs(&spawner, &canonical_children()[..1]).expect("start");
    let mut trackers: StringMap<RestartTracker> = StringMap::new();
    for i in 0..5u64 {
        sup.observe_exits(&spawner).expect("observe");
        let now = start().plus(Duration::from_secs(i));
        sup.restart_exited(&spawner, &mut trackers, now).expect("restart");
    }
    assert_eq!(sup.snapshot().children[0].status, ChildStatus::Backoff);
    assert_eq!(*spawner.started.lock().unwrap(), vec!["wm-audio"; 5]);
    assert_eq!(*spawner.probed.lock().unwrap(), vec![1, 2, 3, 4, 5]);
}

#[test]
fn a_second_look_finds_no_more() {
    let spawner =
        Recorder { gone: true, started: Mutex::new(vec![]), probed: Mutex::new(vec![]) };
    let mut sup = Supervisor::new();
    sup.start_all(&spawner).expect("start");
    assert_eq!(sup.observe_exits(&spawner).expect("observe").len(), 5);
    let view = sup.snapshot();
    assert!(sup.observe_exits(&spawner).expect("observe").is_empty());
    assert_eq!(sup.snapshot(), view);
    assert_eq!(*spawner.probed.lock().unwrap(), vec![1, 2, 3, 4, 5]);
}

/// A launcher that can be switched off; nothing that it starts lives.
struct Switch {
    on: Mutex<bool>,
}

impl Spawner for Switch {
    fn start(&self, spec: &ChildSpec) -> Result<StartedChild, SpawnError> {
        if *self.on.lock().unwrap() {
            Ok(StartedChild { id: spec.name.clone(), child_pid: 9, supervisor_pid: 0 })
        } else {
            Err(SpawnError { message: "down".into() })
        }
    }
    fn still_running(&self, _pid: u32) -> Result<bool, SpawnError> {
        Ok(*self.on.lock().unwrap())
    }
}

#[test]
fn every_wait_ends_and_is_announced_though_the_launcher_is_down() {
    let spawner = Switch { on: Mutex::new(true) };
    let mut sup = Supervisor::new();
    sup.start_all(&spawner).expect("start");
    *spawner.on.lock().unwrap() = false;
    let mut trackers: StringMap<RestartTracker> = StringMap::new();
    let mut due: StringMap<Instant> = StringMap::new();
    let mut announced: Vec<String> = Vec::new();
    for i in 0..21u64 {
        let now = start().plus(Duration::from_secs(i));
        let report = sup.observer_pass(&spawner, &mut trackers, &mut due, now);
        announced.extend(backoff_events(&report).into_iter().map(|e| e.child));
        let view = sup.snapshot();
        let waiting: Vec<&str> = view
            .children
            .iter()
            .filter(|c| c.status == ChildStatus::Backoff)
            .map(|c| c.name.as_str())
            .collect();
        assert_eq!(due.len(), waiting.len());
        assert!(waiting.iter().all(|name| due.contains_key(name)));
        if i == 4 {
            assert_eq!(waiting, vec!["wm-audio"]);
            assert_eq!(due.get("wm-audio"), Some(&now.plus(Duration::from_secs(BACKOFF_SECS))));
            match report.restarted {
                Err(SupervisorError::Restart { child, cause, decided }) => {
                    assert_eq!(child, "wm-tts");
                    assert_eq!(cause.message, "down");
                    assert_eq!(
                        decided,
                        vec![RestartOutcome::EnteredBackoff {
                            name: "wm-audio".into(),
                            restarts_in_window: 5
                        }]
                    );
                }
                other => panic!("expected a failed restart, got {other:?}"),
            }
        }
    }
    assert_eq!(announced, vec!["wm-audio", "wm-tts", "wm-stt", "wm-dialog", "wmd"]);
    assert!(statuses(&sup).iter().all(|s| *s == ChildStatus::Backoff));

    *spawner.on.lock().unwrap() = true;
    let later = start().plus(Duration::from_secs(20 + RESTART_WINDOW_SECS + 1));
    let report = sup.observer_pass(&spawner, &mut trackers, &mut due, later);
    assert_eq!(report.restarted.expect("restart").len(), 5);
    assert!(statuses(&sup).iter().all(|s| *s == ChildStatus::Running));
    assert_eq!(due.len(), 0);
    assert!(sup.is_running("wm-tts"));
    assert!(!sup.is_running("other"));
}

#[test]
fn failing_restarts_are_told_after_the_escalation_time() {
    let report = |restarted| PassReport { cleared: vec![], observed: Ok(vec![]), restarted };
    let failed = report(Err(SupervisorError::Restart {
        child: "wmd".into(),
        cause: SpawnError { message: "down".into() },
        decided: vec![],
    }));
    let restarted = report(Ok(vec![
        RestartOutcome::EnteredBackoff { name: "a".into(), restarts_in_window: 5 },
        RestartOutcome::Restarted { name: "b".into(), child_pid: 1, restart_count: 1 },
    ]));
    let idle = report(Ok(vec![]));
    let later = start().plus(Duration::from_secs(7));
    let since = failing_since(None, &failed, start());
    assert_eq!(since, Some(start()));
    assert_eq!(failing_since(since, &failed, later), since);
    assert_eq!(failing_since(since, &idle, later), since);
    assert_eq!(failing_since(since, &restarted, later), None);
    assert_eq!(failing_since(None, &idle, later), None);

    let due = start().plus(Duration::from_secs(20 * 60));
    assert!(escalates(since, due, true));
    assert!(!escalates(since, due, false));
    assert!(!escalates(since, start().plus(Duration::from_millis(20 * 60 * 1000 - 1)), true));
    assert!(!escalates(None, due, true));
    assert!(!escalates(Some(due), start(), true));
}
