//! The supervisor: start, observe, restart and back off the children, and
//! answer requests.

use crate::clock::{Duration, Instant};
use crate::files::{child_log_path_of, may_read, reads, FileRead, FileReadModel};
use crate::fleet::{
    canonical_children, canonical_specs, plain_child, plain_spec, specs_of, ChildSpec, BACKOFF_SECS,
};
use crate::logs::{tail_child_log_with, tail_log, tail_of, tail_view};
use crate::number::{decimal, decimal_of};
use crate::passes::{
    all_probe, all_restart, all_start, backed_off, cleared, counted, deadlines_of, decided, exited,
    exited_names, expired, expired_names, first_named, first_running, lost, observe_run, observed,
    pause_nanos, permits_probes, permits_restarts, permits_starts, pids_of, restart_number,
    restart_run, restarted_as, running, running_pids, scheduled, start_gives, start_run, started,
    starting, trackers_of, with_slot, woken,
};
use crate::protocol::{
    bad_request, line_ends, pending_view, unframe, ChildModel, ChildState, ChildStatus, Request,
    Response, ResponseModel, SupervisorModel, SupervisorView,
};
use crate::restart::{RestartModel, RestartTracker};
use crate::spawn::{starts, SpawnError, Spawner, StartedChild};
use crate::string_map::StringMap;
use crate::text::{same, str_opt, texts, trim_end_of};
use vstd::prelude::*;

verus! {

/// What a restart pass decided for one exited child.
#[derive(Debug, Clone, PartialEq, Eq)]
pub enum RestartOutcome {
    /// The child was started again.
    Restarted {
        /// Name of the child.
        name: String,
        /// Its new process id.
        child_pid: u32,
        /// Restarts since the supervisor started, this one included.
        restart_count: u32,
    },
    /// The child is in a restart storm and waits.
    EnteredBackoff {
        /// Name of the child.
        name: String,
        /// Restarts in the rolling window.
        restarts_in_window: usize,
    },
}

/// What a [`RestartOutcome`] says, as text.
pub enum OutcomeModel {
    /// The child was started again.
    Restarted {
        /// Name of the child.
        name: Seq<char>,
        /// Its new process id.
        child_pid: u32,
        /// Restarts since the supervisor started.
        restart_count: u32,
    },
    /// The child waits.
    EnteredBackoff {
        /// Name of the child.
        name: Seq<char>,
        /// Restarts in the rolling window.
        restarts_in_window: nat,
    },
}

impl View for RestartOutcome {
    type V = OutcomeModel;

    open spec fn view(&self) -> OutcomeModel {
        match self {
            RestartOutcome::Restarted { name, child_pid, restart_count } => {
                OutcomeModel::Restarted {
                    name: name@,
                    child_pid: *child_pid,
                    restart_count: *restart_count,
                }
            },
            RestartOutcome::EnteredBackoff { name, restarts_in_window } => {
                OutcomeModel::EnteredBackoff {
                    name: name@,
                    restarts_in_window: *restarts_in_window as nat,
                }
            },
        }
    }
}

/// The models of a sequence of outcomes.
pub open spec fn outcomes_of(v: Seq<RestartOutcome>) -> Seq<OutcomeModel> {
    v.map_values(|o: RestartOutcome| o@)
}

/// What went wrong in a pass, and with which child.
#[derive(Debug, Clone, PartialEq, Eq)]
pub enum SupervisorError {
    /// A child could not be started.
    Start {
        /// Name of the child.
        child: String,
        /// The launcher's error.
        cause: SpawnError,
    },
    /// A child could not be probed.
    Probe {
        /// Name of the child.
        child: String,
        /// The process id that was probed.
        pid: u32,
        /// The launcher's error.
        cause: SpawnError,
    },
    /// A child could not be started again.
    Restart {
        /// Name of the child.
        child: String,
        /// The launcher's error.
        cause: SpawnError,
        /// What was decided for the exited children before it.
        decided: Vec<RestartOutcome>,
    },
}

/// What a restart pass with result `r` decided: everything, or what it came to
/// before a child failed to start.
pub open spec fn decided_by(r: Result<Vec<RestartOutcome>, SupervisorError>) -> Seq<OutcomeModel> {
    match r {
        Ok(outcomes) => outcomes_of(outcomes@),
        Err(SupervisorError::Restart { child, cause, decided }) => outcomes_of(decided@),
        Err(_) => Seq::empty(),
    }
}

impl SupervisorError {
    /// The error in words; that of a start is the launcher's own.
    pub fn message(&self) -> (r: String)
        ensures
            r@ == match *self {
                SupervisorError::Start { child, cause } => cause.message@,
                SupervisorError::Probe { child, pid, cause } => "probe still_running for "@ + child@
                    + " pid="@ + decimal_of(pid as nat),
                SupervisorError::Restart { child, cause, decided } => "restart child "@ + child@,
            },
    {
        match self {
            SupervisorError::Start { child: _, cause } => cause.message.clone(),
            SupervisorError::Probe { child, pid, cause: _ } => {
                "probe still_running for ".to_owned().concat(child.as_str()).concat(
                    " pid=",
                ).concat(decimal(*pid as u64).as_str())
            },
            SupervisorError::Restart { child, cause: _, decided: _ } => {
                "restart child ".to_owned().concat(child.as_str())
            },
        }
    }
}

/// The supervised children and their states.
#[derive(Debug)]
pub struct Supervisor {
    state: SupervisorView,
}

impl View for Supervisor {
    type V = SupervisorModel;

    closed spec fn view(&self) -> SupervisorModel {
        self.state@
    }
}

impl Default for Supervisor {
    /// The fleet, nothing started.
    fn default() -> (r: Self)
        ensures
            r@ == pending_view(canonical_specs()),
    {
        Self::new()
    }
}

impl Clone for Supervisor {
    fn clone(&self) -> (r: Self)
        ensures
            r@ == self@,
    {
        Supervisor { state: self.state.clone() }
    }
}

impl Supervisor {
    /// A supervisor of the fleet with every child pending.
    pub fn new() -> (r: Self)
        ensures
            r@ == pending_view(canonical_specs()),
    {
        let specs = canonical_children();
        Supervisor { state: SupervisorView::pending_for(&specs) }
    }

    /// A supervisor that goes on from a snapshot.
    pub fn from_snapshot(view: SupervisorView) -> (r: Self)
        ensures
            r@ == view@,
    {
        Supervisor { state: view }
    }

    /// The current snapshot.
    pub fn snapshot(&self) -> (r: SupervisorView)
        ensures
            r@ == self@,
    {
        self.state.clone()
    }

    /// Whether a child called `name` runs.
    pub fn is_running(&self, name: &str) -> (r: bool)
        ensures
            r == (first_running(self@.children, name@) < self@.children.len()),
    {
        self.find_running(name) < self.state.children.len()
    }

    /// The position of the first child called `name`, or the number of children.
    fn find_named(&self, name: &str) -> (r: usize)
        ensures
            r == first_named(self@.children, name@),
            r <= self.state.children.len(),
    {
        let ghost cs = self@.children;
        let n: usize = self.state.children.len();
        let mut i: usize = 0;
        assert(cs.skip(0) == cs);
        while i < n
            invariant
                i <= n == self.state.children.len(),
                cs == self@.children,
                first_named(cs, name@) == i + first_named(cs.skip(i as int), name@),
            decreases n - i,
        {
            assert(cs.skip(i as int)[0] == self.state.children@[i as int]@);
            if same(self.state.children[i].name.as_str(), name) {
                return i;
            }
            assert(cs.skip(i as int).drop_first() == cs.skip(i + 1));
            i += 1;
        }
        i
    }

    /// The position of the first running child called `name`, or the number of
    /// children.
    fn find_running(&self, name: &str) -> (r: usize)
        ensures
            r == first_running(self@.children, name@),
            r <= self.state.children.len(),
    {
        let ghost cs = self@.children;
        let n: usize = self.state.children.len();
        let mut i: usize = 0;
        assert(cs.skip(0) == cs);
        while i < n
            invariant
                i <= n == self.state.children.len(),
                cs == self@.children,
                first_running(cs, name@) == i + first_running(cs.skip(i as int), name@),
            decreases n - i,
        {
            assert(cs.skip(i as int)[0] == self.state.children@[i as int]@);
            if same(self.state.children[i].name.as_str(), name) && self.state.children[i].status
                == ChildStatus::Running {
                return i;
            }
            assert(cs.skip(i as int).drop_first() == cs.skip(i + 1));
            i += 1;
        }
        i
    }

    /// Gives the child in slot `i` a new status and event.
    fn set_slot(&mut self, i: usize, status: ChildStatus, event: String)
        requires
            i < old(self).state.children.len(),
        ensures
            final(self)@ == with_slot(
                old(self)@,
                i as int,
                ChildModel { status, last_event: Some(event@), ..old(self)@.children[i as int] },
            ),
            final(self).state.children.len() == old(self).state.children.len(),
    {
        let ghost e = event@;
        self.state.children[i].status = status;
        self.state.children[i].last_event = Some(event);
        assert(self@.children == old(self)@.children.update(
            i as int,
            ChildModel { status, last_event: Some(e), ..old(self)@.children[i as int] },
        ));
    }

    /// Notes that a start of `name` began.
    pub fn mark_starting(&mut self, name: &str)
        ensures
            final(self)@ == starting(old(self)@, name@),
    {
        let i: usize = self.find_named(name);
        if i < self.state.children.len() {
            self.set_slot(i, ChildStatus::Starting, "starting".to_owned());
        }
    }

    /// Notes that `name` was started as process `pid`.
    pub fn mark_running(&mut self, name: &str, pid: u32)
        ensures
            final(self)@ == running(old(self)@, name@, pid),
    {
        let i: usize = self.find_named(name);
        if i < self.state.children.len() {
            let event = "running pid=".to_owned().concat(decimal(pid as u64).as_str());
            self.set_slot(i, ChildStatus::Running, event);
            let ghost m = self@;
            self.state.children[i].child_pid = Some(pid);
            assert(self@.children == m.children.update(
                i as int,
                ChildModel { child_pid: Some(pid), ..m.children[i as int] },
            ));
            assert(self@ == running(old(self)@, name@, pid));
        }
    }

    /// Notes that the process `pid` of `name` is gone; says whether there was a
    /// running child of that name.
    pub fn mark_exited(&mut self, name: &str, pid: u32) -> (r: bool)
        ensures
            final(self)@ == exited(old(self)@, name@, pid),
            r == (first_running(old(self)@.children, name@) < old(self)@.children.len()),
    {
        let i: usize = self.find_running(name);
        if i < self.state.children.len() {
            let event = "exited (lost pid ".to_owned().concat(decimal(pid as u64).as_str()).concat(
                ")",
            );
            self.set_slot(i, ChildStatus::Exited, event);
            true
        } else {
            false
        }
    }

    /// Notes that `name` was started again as process `pid`; returns its
    /// restart count, zero if there is no such child.
    pub fn mark_restarted(&mut self, name: &str, pid: u32) -> (r: u32)
        ensures
            final(self)@ == restarted_as(old(self)@, name@, pid),
            r == restart_number(old(self)@, name@),
    {
        let i: usize = self.find_named(name);
        if i < self.state.children.len() {
            let old_count: u32 = self.state.children[i].restart_count;
            let count: u32 = if old_count == u32::MAX {
                old_count
            } else {
                old_count + 1
            };
            assert(old_count == self@.children[i as int].restart_count);
            let event = "restarted pid=".to_owned().concat(decimal(pid as u64).as_str()).concat(
                " (#",
            ).concat(decimal(count as u64).as_str()).concat(")");
            self.set_slot(i, ChildStatus::Running, event);
            let ghost m = self@;
            self.state.children[i].child_pid = Some(pid);
            self.state.children[i].restart_count = count;
            assert(self@.children == m.children.update(
                i as int,
                ChildModel {
                    child_pid: Some(pid),
                    restart_count: count,
                    ..m.children[i as int]
                },
            ));
            assert(self@ == restarted_as(old(self)@, name@, pid));
            count
        } else {
            0
        }
    }

    /// Notes that `name` waits, with `n` restarts in its window.
    pub fn mark_backoff(&mut self, name: &str, n: usize)
        ensures
            final(self)@ == backed_off(old(self)@, name@, n as nat),
    {
        let i: usize = self.find_named(name);
        if i < self.state.children.len() {
            let event = "backoff (".to_owned().concat(decimal(n as u64).as_str()).concat(
                " restarts in window)",
            );
            self.set_slot(i, ChildStatus::Backoff, event);
        }
    }

    /// Takes in what a start of `child` gave: a process id, or an error.
    pub fn take_start(&mut self, child: &str, got: Result<StartedChild, SpawnError>) -> (r: Result<
        (),
        SupervisorError,
    >)
        ensures
            match got {
                Ok(s) => r is Ok && final(self)@ == running(old(self)@, child@, s.child_pid),
                Err(e) => {
                    &&& final(self)@ == old(self)@
                    &&& r matches Err(SupervisorError::Start { child: c, cause })
                    &&& c@ == child@
                    &&& cause == e
                },
            },
    {
        match got {
            Ok(s) => {
                self.mark_running(child, s.child_pid);
                Ok(())
            },
            Err(cause) => Err(SupervisorError::Start { child: child.to_owned(), cause }),
        }
    }

    /// Starts the whole fleet in start order through `spawner`. The first
    /// failure ends the run; children started before it stay running.
    pub fn start_all<S: Spawner>(&mut self, spawner: &S) -> (r: Result<(), SupervisorError>)
        requires
            permits_starts(spawner, canonical_specs()),
        ensures
            start_run(spawner, old(self)@, canonical_specs(), final(self)@, r),
    {
        let specs = canonical_children();
        self.start_specs(spawner, &specs)
    }

    /// Starts the children of `specs` in their order through `spawner`. The
    /// first failure ends the run; children started before it stay running.
    pub fn start_specs<S: Spawner>(&mut self, spawner: &S, specs: &[ChildSpec]) -> (r: Result<
        (),
        SupervisorError,
    >)
        requires
            permits_starts(spawner, specs_of(specs@)),
        ensures
            start_run(spawner, old(self)@, specs_of(specs@), final(self)@, r),
    {
        let ghost ss = specs_of(specs@);
        let ghost mut got: Seq<StartedChild> = Seq::empty();
        let mut i: usize = 0;
        assert(pids_of(got) == Seq::<u32>::empty());
        while i < specs.len()
            invariant
                i <= specs.len(),
                ss == specs_of(specs@),
                permits_starts(spawner, ss),
                got.len() == i,
                all_start(spawner, ss, got),
                self@ == started(old(self)@, ss, pids_of(got)),
            decreases specs.len() - i,
        {
            let spec: &ChildSpec = &specs[i];
            assert(ss[i as int] == spec@);
            self.mark_starting(spec.name.as_str());
            let out = spawner.start(spec);
            assert(starts(spawner, ss[i as int], out));
            let r = self.take_start(spec.name.as_str(), out);
            if r.is_err() {
                return r;
            }
            proof {
                let next = got.push(out->Ok_0);
                assert(pids_of(next).drop_last() == pids_of(got));
                got = next;
            }
            i += 1;
        }
        Ok(())
    }

    /// The names and process ids of the running children.
    fn running_list(&self) -> (r: Vec<(String, u32)>)
        ensures
            r@.map_values(|e: (String, u32)| (e.0@, e.1)) == running_pids(self@.children),
    {
        let ghost cs = self@.children;
        let mut out: Vec<(String, u32)> = Vec::new();
        let n: usize = self.state.children.len();
        let mut i: usize = 0;
        let ghost f = |e: (String, u32)| (e.0@, e.1);
        assert(out@.map_values(f) == running_pids(cs.take(0)));
        while i < n
            invariant
                i <= n == self.state.children.len(),
                cs == self@.children,
                f == (|e: (String, u32)| (e.0@, e.1)),
                out@.map_values(f) == running_pids(cs.take(i as int)),
            decreases n - i,
        {
            let c: &ChildState = &self.state.children[i];
            let ghost before = out@;
            assert(cs.take(i + 1).drop_last() == cs.take(i as int));
            assert(cs.take(i + 1).last() == c@);
            if c.status == ChildStatus::Running {
                if let Some(pid) = c.child_pid {
                    out.push((c.name.clone(), pid));
                    assert(out@.map_values(f) == before.map_values(f).push((c.name@, pid)));
                }
            }
            i += 1;
        }
        assert(cs.take(n as int) == cs);
        out
    }

    /// Asks `spawner` of every running child whether it still runs, and notes
    /// those that do not. Returns their names in order. The first probe that
    /// fails ends the pass.
    pub fn observe_exits<S: Spawner>(&mut self, spawner: &S) -> (r: Result<
        Vec<String>,
        SupervisorError,
    >)
        requires
            permits_probes(spawner, running_pids(old(self)@.children)),
        ensures
            observe_run(spawner, old(self)@, final(self)@, r),
    {
        let ghost m = self@;
        let snapshot = self.running_list();
        let ghost list = running_pids(m.children);
        let ghost mut alive: Seq<bool> = Seq::empty();
        let mut transitions: Vec<String> = Vec::new();
        let mut i: usize = 0;
        assert(texts(transitions@) == Seq::<Seq<char>>::empty());
        while i < snapshot.len()
            invariant
                i <= snapshot.len(),
                m == old(self)@,
                list == running_pids(m.children),
                snapshot@.map_values(|e: (String, u32)| (e.0@, e.1)) == list,
                permits_probes(spawner, list),
                alive.len() == i,
                all_probe(spawner, list, alive),
                self@ == observed(m, list, alive),
                texts(transitions@) == lost(m, list, alive),
            decreases snapshot.len() - i,
        {
            let name: &str = snapshot[i].0.as_str();
            let pid: u32 = snapshot[i].1;
            assert(list[i as int] == (name@, pid));
            match spawner.still_running(pid) {
                Ok(is_alive) => {
                    let ghost next = alive.push(is_alive);
                    assert(next.drop_last() == alive);
                    if !is_alive {
                        let ghost before = transitions@;
                        if self.mark_exited(name, pid) {
                            transitions.push(name.to_owned());
                            assert(texts(transitions@) == texts(before).push(name@));
                        }
                    }
                    proof {
                        alive = next;
                    }
                },
                Err(cause) => {
                    return Err(SupervisorError::Probe { child: name.to_owned(), pid, cause });
                },
            }
            i += 1;
        }
        Ok(transitions)
    }

    /// The names of the exited children.
    fn exited_list(&self) -> (r: Vec<String>)
        ensures
            texts(r@) == exited_names(self@.children),
    {
        let ghost cs = self@.children;
        let mut out: Vec<String> = Vec::new();
        let n: usize = self.state.children.len();
        let mut i: usize = 0;
        assert(texts(out@) == exited_names(cs.take(0)));
        while i < n
            invariant
                i <= n == self.state.children.len(),
                cs == self@.children,
                texts(out@) == exited_names(cs.take(i as int)),
            decreases n - i,
        {
            let c: &ChildState = &self.state.children[i];
            let ghost before = out@;
            assert(cs.take(i + 1).drop_last() == cs.take(i as int));
            assert(cs.take(i + 1).last() == c@);
            if c.status == ChildStatus::Exited {
                out.push(c.name.clone());
                assert(texts(out@) == texts(before).push(c.name@));
            }
            i += 1;
        }
        assert(cs.take(n as int) == cs);
        out
    }

    /// Counts a restart of `name` at `now` with its tracker, a fresh one if it
    /// has none. Returns the delay and the restarts in the window.
    fn count_restart(
        trackers: &mut StringMap<RestartTracker>,
        name: &str,
        now: Instant,
    ) -> (r: (Duration, usize))
        requires
            old(trackers).wf(),
        ensures
            final(trackers).wf(),
            ({
                let t = counted(trackers_of(old(trackers)@), name@, now.nanos as nat);
                &&& trackers_of(final(trackers)@) == trackers_of(old(trackers)@).insert(name@, t)
                &&& r.0.nanos == t.delay()
                &&& r.1 == t.history.len()
            }),
    {
        let mut tracker = match trackers.remove(name) {
            Some(t) => t,
            None => RestartTracker::default(),
        };
        let delay = tracker.record(now);
        let n: usize = tracker.restarts_in_window();
        let ghost t = tracker@;
        trackers.insert(name.to_owned(), tracker);
        assert(trackers_of(trackers@) == trackers_of(old(trackers)@).insert(name@, t));
        (delay, n)
    }

    /// Decides every exited child at `now`: each restart is counted with the
    /// child's tracker; without a delay the child is started again through
    /// `spawner`, with one it waits. Returns one outcome for each exited child,
    /// in order. The first child that fails to start ends the pass; the error
    /// carries what was decided before it.
    pub fn restart_exited<S: Spawner>(
        &mut self,
        spawner: &S,
        trackers: &mut StringMap<RestartTracker>,
        now: Instant,
    ) -> (r: Result<Vec<RestartOutcome>, SupervisorError>)
        requires
            old(trackers).wf(),
            permits_restarts(
                spawner,
                old(self)@,
                trackers_of(old(trackers)@),
                now.nanos as nat,
            ),
        ensures
            final(trackers).wf(),
            restart_run(
                spawner,
                old(self)@,
                trackers_of(old(trackers)@),
                now.nanos as nat,
                final(self)@,
                trackers_of(final(trackers)@),
                r,
            ),
    {
        let ghost m = self@;
        let ghost tr = trackers_of(trackers@);
        let ghost t0 = now.nanos as nat;
        let list = self.exited_list();
        let ghost names = exited_names(m.children);
        let ghost mut pids: Seq<u32> = Seq::empty();
        let mut outcomes: Vec<RestartOutcome> = Vec::new();
        let mut i: usize = 0;
        assert(outcomes_of(outcomes@) == Seq::<OutcomeModel>::empty());
        while i < list.len()
            invariant
                i <= list.len(),
                m == old(self)@,
                tr == trackers_of(old(trackers)@),
                t0 == now.nanos,
                names == exited_names(m.children),
                texts(list@) == names,
                trackers.wf(),
                permits_restarts(spawner, m, tr, t0),
                pids.len() == i,
                all_restart(spawner, m, tr, t0, pids),
                self@ == decided(m, tr, names, t0, pids).view,
                trackers_of(trackers@) == decided(m, tr, names, t0, pids).trackers,
                outcomes_of(outcomes@) == decided(m, tr, names, t0, pids).outcomes,
            decreases list.len() - i,
        {
            let name: &str = list[i].as_str();
            let ghost run = decided(m, tr, names, t0, pids);
            assert(names[i as int] == name@);
            let (delay, in_window) = Self::count_restart(trackers, name, now);
            let ghost before = outcomes@;
            if delay.is_zero() {
                let spec = plain_child(name);
                let out = spawner.start(&spec);
                assert(starts(spawner, plain_spec(name@), out));
                match out {
                    Ok(child) => {
                        let pid: u32 = child.child_pid;
                        let restart_count: u32 = self.mark_restarted(name, pid);
                        outcomes.push(
                            RestartOutcome::Restarted {
                                name: name.to_owned(),
                                child_pid: pid,
                                restart_count,
                            },
                        );
                        proof {
                            assert(start_gives(spawner, name@, pid));
                            lemma_all_restart_push(spawner, m, tr, t0, pids, pid);
                            assert(pids.push(pid).drop_last() == pids);
                            pids = pids.push(pid);
                        }
                    },
                    Err(cause) => {
                        return Err(
                            SupervisorError::Restart {
                                child: name.to_owned(),
                                cause,
                                decided: outcomes,
                            },
                        );
                    },
                }
            } else {
                self.mark_backoff(name, in_window);
                outcomes.push(
                    RestartOutcome::EnteredBackoff {
                        name: name.to_owned(),
                        restarts_in_window: in_window,
                    },
                );
                proof {
                    lemma_all_restart_push(spawner, m, tr, t0, pids, 0);
                    assert(pids.push(0).drop_last() == pids);
                    pids = pids.push(0);
                }
            }
            assert(outcomes_of(outcomes@) == outcomes_of(before).push(
                outcomes@[outcomes@.len() - 1]@,
            ));
            i += 1;
        }
        Ok(outcomes)
    }

    /// Ends the wait of every child whose time in `due` has come at `now`.
    /// Returns their names in order.
    pub fn clear_expired_backoffs(&mut self, due: &StringMap<Instant>, now: Instant) -> (r: Vec<
        String,
    >)
        requires
            due.wf(),
        ensures
            final(self)@ == cleared(old(self)@, deadlines_of(due@), now.nanos as nat),
            texts(r@) == expired_names(
                old(self)@.children,
                deadlines_of(due@),
                now.nanos as nat,
            ),
    {
        let ghost m = self@;
        let ghost d = deadlines_of(due@);
        let ghost t = now.nanos as nat;
        let mut transitions: Vec<String> = Vec::new();
        let n: usize = self.state.children.len();
        let mut i: usize = 0;
        assert(texts(transitions@) == expired_names(m.children.take(0), d, t));
        while i < n
            invariant
                i <= n == self.state.children.len(),
                due.wf(),
                m == old(self)@,
                m.children.len() == n,
                d == deadlines_of(due@),
                t == now.nanos,
                self@.protocol_version == m.protocol_version,
                self@.muted == m.muted,
                self@.children.len() == n,
                forall|j: int|
                    0 <= j < i ==> #[trigger] self@.children[j] == woken(m.children[j], d, t),
                forall|j: int| i <= j < n ==> #[trigger] self@.children[j] == m.children[j],
                texts(transitions@) == expired_names(m.children.take(i as int), d, t),
            decreases n - i,
        {
            assert(m.children.take(i + 1).drop_last() == m.children.take(i as int));
            assert(m.children.take(i + 1).last() == m.children[i as int]);
            assert(self@.children[i as int] == self.state.children@[i as int]@);
            let ghost before = transitions@;
            let ghost cs = self@.children;
            if self.state.children[i].status == ChildStatus::Backoff {
                let name = self.state.children[i].name.clone();
                if let Some(until) = due.get(name.as_str()) {
                    if now.nanos >= until.nanos {
                        self.set_slot(
                            i,
                            ChildStatus::Exited,
                            "backoff expired; retrying".to_owned(),
                        );
                        transitions.push(name);
                        assert(texts(transitions@) == texts(before).push(
                            m.children[i as int].name,
                        ));
                        assert(self@.children == cs.update(
                            i as int,
                            woken(m.children[i as int], d, t),
                        ));
                    }
                }
            }
            i += 1;
        }
        assert(m.children.take(n as int) == m.children);
        assert(self@.children == cleared(m, d, t).children);
        transitions
    }

    /// One pass of the supervisor at `now`: ends waits whose time has come,
    /// notes children that are gone, and decides every exited child. A wait
    /// that ends is decided in the same pass, and whatever child begins to wait
    /// gets a deadline. A failure inside a phase ends that phase and is reported;
    /// the pass goes on.
    pub fn observer_pass<S: Spawner>(
        &mut self,
        spawner: &S,
        trackers: &mut StringMap<RestartTracker>,
        backoff_until: &mut StringMap<Instant>,
        now: Instant,
    ) -> (r: PassReport)
        requires
            old(trackers).wf(),
            old(backoff_until).wf(),
            now.nanos + pause_nanos() <= u128::MAX,
            permits_pass(
                spawner,
                old(self)@,
                trackers_of(old(trackers)@),
                deadlines_of(old(backoff_until)@),
                now.nanos as nat,
            ),
        ensures
            final(trackers).wf(),
            final(backoff_until).wf(),
            pass_run(
                spawner,
                old(self)@,
                trackers_of(old(trackers)@),
                deadlines_of(old(backoff_until)@),
                now.nanos as nat,
                final(self)@,
                trackers_of(final(trackers)@),
                deadlines_of(final(backoff_until)@),
                r,
            ),
    {
        let ghost due = deadlines_of(backoff_until@);
        let cleared_names = self.clear_expired_backoffs(backoff_until, now);
        drop_deadlines(backoff_until, &cleared_names);
        let observed_names = self.observe_exits(spawner);
        let ghost mid = self@;
        let outcomes = self.restart_exited(spawner, trackers, now);
        match &outcomes {
            Ok(list) => schedule_backoffs(backoff_until, list, now),
            Err(SupervisorError::Restart { child: _, cause: _, decided }) => schedule_backoffs(
                backoff_until,
                decided,
                now,
            ),
            Err(_) => {},
        }
        let r = PassReport {
            cleared: cleared_names,
            observed: observed_names,
            restarted: outcomes,
        };
        assert(observe_run(
            spawner,
            cleared(old(self)@, due, now.nanos as nat),
            mid,
            r.observed,
        ));
        r
    }
}

/// What one pass of the supervisor did.
#[derive(Debug, PartialEq, Eq)]
pub struct PassReport {
    /// Names of the children whose wait ended.
    pub cleared: Vec<String>,
    /// Names of the children that were found gone.
    pub observed: Result<Vec<String>, SupervisorError>,
    /// What was decided for the exited children.
    pub restarted: Result<Vec<RestartOutcome>, SupervisorError>,
}

/// The map without the given keys.
pub open spec fn without<V>(m: Map<Seq<char>, V>, names: Seq<Seq<char>>) -> Map<Seq<char>, V> {
    Map::new(|k: Seq<char>| m.contains_key(k) && !names.contains(k), |k: Seq<char>| m[k])
}

/// Whether `spawner` permits a pass at `now`: the probes of the children that
/// run, and a restart pass on whatever those probes leave.
pub open spec fn permits_pass<S: Spawner>(
    spawner: &S,
    m: SupervisorModel,
    trackers: Map<Seq<char>, RestartModel>,
    due: Map<Seq<char>, nat>,
    now: nat,
) -> bool {
    let woke = cleared(m, due, now);
    &&& permits_probes(spawner, running_pids(woke.children))
    &&& forall|mid: SupervisorModel, r: Result<Vec<String>, SupervisorError>| #[trigger]
        observe_run(spawner, woke, mid, r) ==> permits_restarts(spawner, mid, trackers, now)
}

/// A pass at `now` leads from the snapshot `m`, `trackers` and the deadlines
/// `due` to those after it, with the report `r`.
pub open spec fn pass_run<S: Spawner>(
    spawner: &S,
    m: SupervisorModel,
    trackers: Map<Seq<char>, RestartModel>,
    due: Map<Seq<char>, nat>,
    now: nat,
    m_after: SupervisorModel,
    trackers_after: Map<Seq<char>, RestartModel>,
    due_after: Map<Seq<char>, nat>,
    r: PassReport,
) -> bool {
    let names = expired_names(m.children, due, now);
    &&& texts(r.cleared@) == names
    &&& exists|mid: SupervisorModel|
        {
            &&& #[trigger] observe_run(spawner, cleared(m, due, now), mid, r.observed)
            &&& restart_run(
                spawner,
                mid,
                trackers,
                now,
                m_after,
                trackers_after,
                r.restarted,
            )
        }
    &&& due_after == scheduled(without(due, names), decided_by(r.restarted), now)
}

/// What the first `i + 1` texts contain.
proof fn lemma_take_contains(v: Seq<Seq<char>>, i: int)
    requires
        0 <= i < v.len(),
    ensures
        forall|x: Seq<char>| #[trigger]
            v.take(i + 1).contains(x) <==> v.take(i).contains(x) || x == v[i],
{
    assert forall|x: Seq<char>| #[trigger]
        v.take(i + 1).contains(x) <==> v.take(i).contains(x) || x == v[i] by {
        if v.take(i).contains(x) {
            let k = v.take(i).index_of(x);
            assert(v.take(i + 1)[k] == x);
        }
        assert(v.take(i + 1)[i] == v[i]);
        if v.take(i + 1).contains(x) && x != v[i] {
            let k = v.take(i + 1).index_of(x);
            assert(v.take(i)[k] == x);
        }
    }
}

/// Takes the deadlines of `names` out of `due`.
fn drop_deadlines(due: &mut StringMap<Instant>, names: &Vec<String>)
    requires
        old(due).wf(),
    ensures
        final(due).wf(),
        deadlines_of(final(due)@) == without(deadlines_of(old(due)@), texts(names@)),
{
    let ghost d = deadlines_of(due@);
    let ghost ns = texts(names@);
    let mut i: usize = 0;
    assert(d == without(d, ns.take(0)));
    while i < names.len()
        invariant
            i <= names.len(),
            due.wf(),
            ns == texts(names@),
            d == deadlines_of(old(due)@),
            deadlines_of(due@) == without(d, ns.take(i as int)),
        decreases names.len() - i,
    {
        let ghost before = deadlines_of(due@);
        let _ = due.remove(names[i].as_str());
        proof {
            let name = ns[i as int];
            assert(name == names@[i as int]@);
            assert(deadlines_of(due@) == before.remove(name));
            lemma_take_contains(ns, i as int);
            assert(before.remove(name) == without(d, ns.take(i + 1)));
        }
        i += 1;
    }
    assert(ns.take(i as int) == ns);
}

/// Notes in `due` until when the children wait that began to wait at `now`.
pub fn schedule_backoffs(
    due: &mut StringMap<Instant>,
    outcomes: &Vec<RestartOutcome>,
    now: Instant,
)
    requires
        old(due).wf(),
        now.nanos + pause_nanos() <= u128::MAX,
    ensures
        final(due).wf(),
        deadlines_of(final(due)@) == scheduled(
            deadlines_of(old(due)@),
            outcomes_of(outcomes@),
            now.nanos as nat,
        ),
{
    let ghost d = deadlines_of(due@);
    let ghost os = outcomes_of(outcomes@);
    let mut i: usize = 0;
    while i < outcomes.len()
        invariant
            i <= outcomes.len(),
            due.wf(),
            os == outcomes_of(outcomes@),
            d == deadlines_of(old(due)@),
            now.nanos + pause_nanos() <= u128::MAX,
            deadlines_of(due@) == scheduled(d, os.take(i as int), now.nanos as nat),
        decreases outcomes.len() - i,
    {
        let ghost before = due@;
        assert(os.take(i + 1).drop_last() == os.take(i as int));
        assert(os.take(i + 1).last() == outcomes@[i as int]@);
        match &outcomes[i] {
            RestartOutcome::Restarted { name: _, child_pid: _, restart_count: _ } => {},
            RestartOutcome::EnteredBackoff { name, restarts_in_window: _ } => {
                let until = now.plus(Duration::from_secs(BACKOFF_SECS));
                due.insert(name.clone(), until);
                assert(deadlines_of(due@) == deadlines_of(before).insert(
                    name@,
                    now.nanos as nat + pause_nanos(),
                ));
            },
        }
        i += 1;
    }
    assert(os.take(i as int) == os);
}

// ---------------------------------------------------------------------------
// Announcements
// ---------------------------------------------------------------------------

/// Topic on the message bus under which a wait is announced.
pub const BACKOFF_TOPIC: &'static str = "init.backoff";

/// Why children are made to wait.
pub const BACKOFF_REASON: &'static str = "restart_storm";

/// Announces that a child waits.
#[derive(Debug, Clone, PartialEq, Eq)]
pub struct BackoffEvent {
    /// Name of the child.
    pub child: String,
    /// Why it waits.
    pub reason: String,
    /// How long it waits, in seconds.
    pub backoff_s: u64,
}

/// The children that began to wait, in the order of their outcomes.
pub open spec fn waiting_of(outcomes: Seq<OutcomeModel>) -> Seq<Seq<char>>
    decreases outcomes.len(),
{
    if outcomes.len() == 0 {
        Seq::empty()
    } else {
        let rest = waiting_of(outcomes.drop_last());
        match outcomes.last() {
            OutcomeModel::EnteredBackoff { name, restarts_in_window } => rest.push(name),
            OutcomeModel::Restarted { name, child_pid, restart_count } => rest,
        }
    }
}

/// The children whose wait a pass announces: those that it decided to make
/// wait, be it before a failure.
pub open spec fn announced(r: PassReport) -> Seq<Seq<char>> {
    waiting_of(decided_by(r.restarted))
}

/// Whether `events` announces the waits of `names`, one event for each.
pub open spec fn announces(events: Seq<BackoffEvent>, names: Seq<Seq<char>>) -> bool {
    &&& events.len() == names.len()
    &&& forall|i: int|
        0 <= i < names.len() ==> {
            let e = #[trigger] events[i];
            e.child@ == names[i] && e.reason@ == BACKOFF_REASON@ && e.backoff_s == BACKOFF_SECS
        }
}

/// The events that announce which children began to wait in a pass.
pub fn backoff_events(report: &PassReport) -> (r: Vec<BackoffEvent>)
    ensures
        announces(r@, announced(*report)),
{
    match &report.restarted {
        Ok(outcomes) => events_for(outcomes),
        Err(SupervisorError::Restart { child: _, cause: _, decided }) => events_for(decided),
        Err(_) => Vec::new(),
    }
}

/// The events that announce which children the outcomes make wait.
fn events_for(outcomes: &Vec<RestartOutcome>) -> (r: Vec<BackoffEvent>)
    ensures
        announces(r@, waiting_of(outcomes_of(outcomes@))),
{
    let ghost os = outcomes_of(outcomes@);
    let mut events: Vec<BackoffEvent> = Vec::new();
    let mut i: usize = 0;
    while i < outcomes.len()
        invariant
            i <= outcomes.len(),
            os == outcomes_of(outcomes@),
            announces(events@, waiting_of(os.take(i as int))),
        decreases outcomes.len() - i,
    {
        assert(os.take(i + 1).drop_last() == os.take(i as int));
        assert(os.take(i + 1).last() == outcomes@[i as int]@);
        match &outcomes[i] {
            RestartOutcome::Restarted { name: _, child_pid: _, restart_count: _ } => {},
            RestartOutcome::EnteredBackoff { name, restarts_in_window: _ } => {
                events.push(
                    BackoffEvent {
                        child: name.clone(),
                        reason: BACKOFF_REASON.to_owned(),
                        backoff_s: BACKOFF_SECS,
                    },
                );
            },
        }
        i += 1;
    }
    assert(os.take(i as int) == os);
    events
}

// ---------------------------------------------------------------------------
// Requests
// ---------------------------------------------------------------------------

/// The snapshot after `req` was handled.
pub open spec fn state_after(req: Request, m: SupervisorModel) -> SupervisorModel {
    match req {
        Request::Mute => SupervisorModel { muted: true, ..m },
        Request::Unmute => SupervisorModel { muted: false, ..m },
        _ => m,
    }
}

/// The reply to `req`, where reading the log that it asks for gave `log`.
pub open spec fn reply_to(
    req: Request,
    m: SupervisorModel,
    log: FileReadModel,
) -> ResponseModel {
    match req {
        Request::Status => ResponseModel::Status { view: m },
        Request::Mute => ResponseModel::Ack,
        Request::Unmute => ResponseModel::Ack,
        Request::Restart { child } => ResponseModel::NotImplemented { op: "restart"@ },
        Request::Logs { child, tail } => match tail_of(log, tail as nat) {
            Ok(lines) => ResponseModel::Logs { child: child@, lines },
            Err(e) => ResponseModel::Error { message: "tail "@ + child@ + ": "@ + e },
        },
        Request::Say { text } => ResponseModel::NotImplemented { op: "say"@ },
    }
}

/// The reply to a request for the end of the log of `child`, given the end.
fn logs_reply(child: String, end: Result<Vec<String>, String>) -> (r: Response)
    ensures
        r@ == match tail_view(end) {
            Ok(lines) => ResponseModel::Logs { child: child@, lines },
            Err(e) => ResponseModel::Error { message: "tail "@ + child@ + ": "@ + e },
        },
{
    match end {
        Ok(lines) => Response::Logs { child, lines },
        Err(e) => Response::Error {
            message: "tail ".to_owned().concat(child.as_str()).concat(": ").concat(e.as_str()),
        },
    }
}

/// Handles `req` on the snapshot `state`, where reading the log that it asks
/// for gave `log`.
pub fn answer(req: Request, state: &mut SupervisorView, log: FileRead) -> (r: Response)
    ensures
        final(state)@ == state_after(req, old(state)@),
        r@ == reply_to(req, old(state)@, log@),
{
    match req {
        Request::Status => Response::Status { view: state.clone() },
        Request::Mute => {
            state.muted = true;
            Response::Ack
        },
        Request::Unmute => {
            state.muted = false;
            Response::Ack
        },
        Request::Restart { child: _ } => Response::NotImplemented { op: "restart".to_owned() },
        Request::Logs { child, tail } => logs_reply(child, tail_log(log, tail)),
        Request::Say { text: _ } => Response::NotImplemented { op: "say".to_owned() },
    }
}

/// Whether `req` on the snapshot `m` may be answered by `r`, with logs below
/// `home` read through `read`. Only a request for a log reads anything.
pub open spec fn answered<R: Fn(&str) -> FileRead>(
    req: Request,
    m: SupervisorModel,
    home: Option<Seq<char>>,
    read: R,
    r: ResponseModel,
) -> bool {
    match req {
        Request::Logs { child, tail } => exists|got: FileRead| #[trigger]
            reads(read, child_log_path_of(home, child@), got) && r == reply_to(req, m, got@),
        _ => r == reply_to(req, m, FileReadModel::NotFound),
    }
}

/// Handles `req` on the snapshot `state`. A request for a log reads the log of
/// that child under the home directory `home` through `read`; no other request
/// reads anything.
pub fn dispatch<R: Fn(&str) -> FileRead>(
    req: Request,
    state: &mut SupervisorView,
    home: Option<&str>,
    read: &R,
) -> (r: Response)
    requires
        req matches Request::Logs { child, tail } ==> may_read(
            *read,
            child_log_path_of(str_opt(home), child@),
        ),
    ensures
        final(state)@ == state_after(req, old(state)@),
        answered(req, old(state)@, str_opt(home), *read, r@),
{
    match req {
        Request::Logs { child, tail } => {
            let end = tail_child_log_with(home, child.as_str(), tail, read);
            logs_reply(child, end)
        },
        other => answer(other, state, FileRead::NotFound),
    }
}

/// Whether `got` is what `parse` makes of `text`: a request, or why it is none.
pub open spec fn parses_request<P: Fn(&str) -> Result<Request, String>>(
    parse: P,
    text: Seq<char>,
    got: Result<Request, String>,
) -> bool {
    exists|t: &str| t@ == text && #[trigger] parse.ensures((t,), got)
}

/// Answers one line from the wire. The line without its end is read through
/// `parse`; a request is handled on `state`, and a line that is no request is
/// refused and changes nothing.
pub fn handle_line<P: Fn(&str) -> Result<Request, String>, R: Fn(&str) -> FileRead>(
    line: &str,
    state: &mut SupervisorView,
    home: Option<&str>,
    parse: &P,
    read: &R,
) -> (r: Response)
    requires
        forall|t: &str| t@ == trim_end_of(line@, line_ends()) ==> #[trigger] parse.requires((t,)),
        forall|child: String, tail: usize| #[trigger]
            parses_request(
                *parse,
                trim_end_of(line@, line_ends()),
                Ok(Request::Logs { child, tail }),
            ) ==> may_read(*read, child_log_path_of(str_opt(home), child@)),
    ensures
        exists|got: Result<Request, String>| #[trigger]
            parses_request(*parse, trim_end_of(line@, line_ends()), got) && match got {
                Ok(req) => final(state)@ == state_after(req, old(state)@) && answered(
                    req,
                    old(state)@,
                    str_opt(home),
                    *read,
                    r@,
                ),
                Err(e) => final(state)@ == old(state)@ && r@ == (ResponseModel::Error {
                    message: "bad request: "@ + e@,
                }),
            },
{
    let message = unframe(line);
    let text: &str = message.as_str();
    let got = parse(text);
    assert(parses_request(*parse, trim_end_of(line@, line_ends()), got));
    match got {
        Ok(req) => {
            assert(req matches Request::Logs { child, tail } ==> parses_request(
                *parse,
                trim_end_of(line@, line_ends()),
                Ok(Request::Logs { child, tail }),
            ));
            dispatch(req, state, home, read)
        },
        Err(e) => bad_request(e.as_str()),
    }
}

/// A muted supervisor says so, and an unmuted one does not: the status after a
/// mute or unmute request is the snapshot of before with only the flag changed.
pub proof fn law_mute_shows_in_status(m: SupervisorModel, log: FileReadModel)
    ensures
        reply_to(Request::Status, state_after(Request::Mute, m), log) == (ResponseModel::Status {
            view: SupervisorModel { muted: true, ..m },
        }),
        reply_to(Request::Status, state_after(Request::Unmute, m), log) == (ResponseModel::Status {
            view: SupervisorModel { muted: false, ..m },
        }),
        state_after(Request::Unmute, state_after(Request::Mute, m)) == state_after(
            Request::Unmute,
            m,
        ),
{
}

/// Only a mute or unmute request changes anything, and only the flag.
pub proof fn law_requests_keep_children(req: Request, m: SupervisorModel)
    ensures
        state_after(req, m).children == m.children,
        state_after(req, m).protocol_version == m.protocol_version,
        !(req is Mute || req is Unmute) ==> state_after(req, m) == m,
{
}

/// One more decision keeps a restart pass valid.
proof fn lemma_all_restart_push<S: Spawner>(
    spawner: &S,
    m: SupervisorModel,
    trackers: Map<Seq<char>, RestartModel>,
    now: nat,
    pids: Seq<u32>,
    pid: u32,
)
    requires
        all_restart(spawner, m, trackers, now, pids),
        pids.len() < exited_names(m.children).len(),
        decided(m, trackers, exited_names(m.children), now, pids).due(
            exited_names(m.children)[pids.len() as int],
            now,
        ) ==> start_gives(spawner, exited_names(m.children)[pids.len() as int], pid),
    ensures
        all_restart(spawner, m, trackers, now, pids.push(pid)),
{
    let names = exited_names(m.children);
    let q = pids.push(pid);
    assert forall|i: int|
        0 <= i < q.len() && decided(m, trackers, names, now, q.take(i)).due(
            names[i],
            now,
        ) implies start_gives(spawner, names[i], #[trigger] q[i]) by {
        if i < pids.len() {
            assert(q.take(i) == pids.take(i));
            assert(q[i] == pids[i]);
        } else {
            assert(q.take(i) == pids);
        }
    }
}

} // verus!
