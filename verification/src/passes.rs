//! What a pass of the supervisor does to its snapshot.

use crate::clock::{Instant, NANOS_PER_SEC};
use crate::fleet::{plain_spec, ChildSpecModel, BACKOFF_SECS};
use crate::number::decimal_of;
use crate::protocol::{ChildModel, ChildStatus, SupervisorModel};
use crate::restart::{RestartModel, RestartTracker};
use crate::spawn::{probes, starts, Spawner, StartedChild};
use crate::supervisor::{outcomes_of, OutcomeModel, RestartOutcome, SupervisorError};
use crate::text::texts;
use vstd::prelude::*;

verus! {

// ---------------------------------------------------------------------------
// Slots
// ---------------------------------------------------------------------------

/// The position of the first child called `name`, or the number of children.
pub open spec fn first_named(cs: Seq<ChildModel>, name: Seq<char>) -> int
    decreases cs.len(),
{
    if cs.len() == 0 || cs[0].name == name {
        0
    } else {
        1 + first_named(cs.drop_first(), name)
    }
}

/// The position of the first running child called `name`, or the number of
/// children.
pub open spec fn first_running(cs: Seq<ChildModel>, name: Seq<char>) -> int
    decreases cs.len(),
{
    if cs.len() == 0 || (cs[0].name == name && cs[0].status == ChildStatus::Running) {
        0
    } else {
        1 + first_running(cs.drop_first(), name)
    }
}

/// What `first_named` finds.
pub proof fn lemma_first_named(cs: Seq<ChildModel>, name: Seq<char>)
    ensures
        0 <= first_named(cs, name) <= cs.len(),
        forall|i: int| 0 <= i < first_named(cs, name) ==> (#[trigger] cs[i]).name != name,
        first_named(cs, name) < cs.len() ==> cs[first_named(cs, name)].name == name,
    decreases cs.len(),
{
    if cs.len() > 0 && cs[0].name != name {
        lemma_first_named(cs.drop_first(), name);
        assert forall|i: int| 0 <= i < first_named(cs, name) implies (#[trigger] cs[i]).name
            != name by {
            if i > 0 {
                assert(cs[i] == cs.drop_first()[i - 1]);
            }
        }
    }
}

/// What `first_running` finds.
pub proof fn lemma_first_running(cs: Seq<ChildModel>, name: Seq<char>)
    ensures
        0 <= first_running(cs, name) <= cs.len(),
        forall|i: int|
            0 <= i < first_running(cs, name) ==> !((#[trigger] cs[i]).name == name && cs[i].status
                == ChildStatus::Running),
        first_running(cs, name) < cs.len() ==> cs[first_running(cs, name)].name == name
            && cs[first_running(cs, name)].status == ChildStatus::Running,
    decreases cs.len(),
{
    if cs.len() > 0 && !(cs[0].name == name && cs[0].status == ChildStatus::Running) {
        lemma_first_running(cs.drop_first(), name);
        assert forall|i: int| 0 <= i < first_running(cs, name) implies !((#[trigger] cs[i]).name
            == name && cs[i].status == ChildStatus::Running) by {
            if i > 0 {
                assert(cs[i] == cs.drop_first()[i - 1]);
            }
        }
    }
}

/// The snapshot with `c` in the slot `i`, or as it was if there is no such slot.
pub open spec fn with_slot(m: SupervisorModel, i: int, c: ChildModel) -> SupervisorModel {
    if 0 <= i < m.children.len() {
        SupervisorModel { children: m.children.update(i, c), ..m }
    } else {
        m
    }
}

/// The snapshot after a start of `name` began.
pub open spec fn starting(m: SupervisorModel, name: Seq<char>) -> SupervisorModel {
    let i = first_named(m.children, name);
    with_slot(
        m,
        i,
        ChildModel {
            status: ChildStatus::Starting,
            last_event: Some("starting"@),
            ..m.children[i]
        },
    )
}

/// The snapshot after `name` was started as process `pid`.
pub open spec fn running(m: SupervisorModel, name: Seq<char>, pid: u32) -> SupervisorModel {
    let i = first_named(m.children, name);
    with_slot(
        m,
        i,
        ChildModel {
            status: ChildStatus::Running,
            child_pid: Some(pid),
            last_event: Some("running pid="@ + decimal_of(pid as nat)),
            ..m.children[i]
        },
    )
}

/// The snapshot after the process `pid` of `name` was found gone.
pub open spec fn exited(m: SupervisorModel, name: Seq<char>, pid: u32) -> SupervisorModel {
    let i = first_running(m.children, name);
    with_slot(
        m,
        i,
        ChildModel {
            status: ChildStatus::Exited,
            last_event: Some("exited (lost pid "@ + decimal_of(pid as nat) + ")"@),
            ..m.children[i]
        },
    )
}

/// One restart more, up to the largest count.
pub open spec fn one_more(count: u32) -> u32 {
    if count == u32::MAX {
        count
    } else {
        (count + 1) as u32
    }
}

/// The restart count of `name` after one more restart; zero if there is no
/// such child.
pub open spec fn restart_number(m: SupervisorModel, name: Seq<char>) -> u32 {
    let i = first_named(m.children, name);
    if i < m.children.len() {
        one_more(m.children[i].restart_count)
    } else {
        0
    }
}

/// The snapshot after `name` was started again as process `pid`.
pub open spec fn restarted_as(m: SupervisorModel, name: Seq<char>, pid: u32) -> SupervisorModel {
    let i = first_named(m.children, name);
    with_slot(
        m,
        i,
        ChildModel {
            status: ChildStatus::Running,
            child_pid: Some(pid),
            restart_count: restart_number(m, name),
            last_event: Some(
                "restarted pid="@ + decimal_of(pid as nat) + " (#"@ + decimal_of(
                    restart_number(m, name) as nat,
                ) + ")"@,
            ),
            ..m.children[i]
        },
    )
}

/// The snapshot after `name` began to wait with `n` restarts in the window.
pub open spec fn backed_off(m: SupervisorModel, name: Seq<char>, n: nat) -> SupervisorModel {
    let i = first_named(m.children, name);
    with_slot(
        m,
        i,
        ChildModel {
            status: ChildStatus::Backoff,
            last_event: Some("backoff ("@ + decimal_of(n) + " restarts in window)"@),
            ..m.children[i]
        },
    )
}

// ---------------------------------------------------------------------------
// Passes
// ---------------------------------------------------------------------------

/// The snapshot after the first children of `specs` were started, one for each
/// process id of `pids`.
pub open spec fn started(
    m: SupervisorModel,
    specs: Seq<ChildSpecModel>,
    pids: Seq<u32>,
) -> SupervisorModel
    decreases pids.len(),
{
    if pids.len() == 0 {
        m
    } else {
        let p = started(m, specs, pids.drop_last());
        let name = specs[pids.len() - 1].name;
        running(starting(p, name), name, pids.last())
    }
}

/// The process ids of started children.
pub open spec fn pids_of(v: Seq<StartedChild>) -> Seq<u32> {
    v.map_values(|s: StartedChild| s.child_pid)
}

/// Whether `spawner` gives the started children `got` for the first of `specs`.
pub open spec fn all_start<S: Spawner>(
    spawner: &S,
    specs: Seq<ChildSpecModel>,
    got: Seq<StartedChild>,
) -> bool {
    &&& got.len() <= specs.len()
    &&& forall|i: int| 0 <= i < got.len() ==> starts(spawner, specs[i], Ok(#[trigger] got[i]))
}

/// Whether `spawner` permits a start of `specs` one after another: of each that
/// is reached, all before it having started.
pub open spec fn permits_starts<S: Spawner>(spawner: &S, specs: Seq<ChildSpecModel>) -> bool {
    forall|got: Seq<StartedChild>| #[trigger]
        all_start(spawner, specs, got) && got.len() < specs.len() ==> spawner.may_start(
            specs[got.len() as int],
        )
}

/// A start of `specs` one after another leads from `m` to `n` with result `r`:
/// it goes on to the end, or to the first child that fails to start.
pub open spec fn start_run<S: Spawner>(
    spawner: &S,
    m: SupervisorModel,
    specs: Seq<ChildSpecModel>,
    n: SupervisorModel,
    r: Result<(), SupervisorError>,
) -> bool {
    exists|got: Seq<StartedChild>| #[trigger]
        all_start(spawner, specs, got) && match r {
            Ok(_) => got.len() == specs.len() && n == started(m, specs, pids_of(got)),
            Err(e) => {
                &&& got.len() < specs.len()
                &&& n == starting(started(m, specs, pids_of(got)), specs[got.len() as int].name)
                &&& e matches SupervisorError::Start { child, cause }
                &&& child@ == specs[got.len() as int].name
                &&& starts(spawner, specs[got.len() as int], Err(cause))
            },
        }
}

/// The names and process ids of the running children.
pub open spec fn running_pids(cs: Seq<ChildModel>) -> Seq<(Seq<char>, u32)>
    decreases cs.len(),
{
    if cs.len() == 0 {
        Seq::empty()
    } else {
        let rest = running_pids(cs.drop_last());
        match cs.last().child_pid {
            Some(pid) if cs.last().status == ChildStatus::Running => rest.push(
                (cs.last().name, pid),
            ),
            _ => rest,
        }
    }
}

/// The snapshot after the first probes of `list` gave `alive`.
pub open spec fn observed(
    m: SupervisorModel,
    list: Seq<(Seq<char>, u32)>,
    alive: Seq<bool>,
) -> SupervisorModel
    decreases alive.len(),
{
    if alive.len() == 0 {
        m
    } else {
        let p = observed(m, list, alive.drop_last());
        let (name, pid) = list[alive.len() - 1];
        if alive.last() {
            p
        } else {
            exited(p, name, pid)
        }
    }
}

/// The names of the children that the first probes of `list` found gone.
pub open spec fn lost(
    m: SupervisorModel,
    list: Seq<(Seq<char>, u32)>,
    alive: Seq<bool>,
) -> Seq<Seq<char>>
    decreases alive.len(),
{
    if alive.len() == 0 {
        Seq::empty()
    } else {
        let p = observed(m, list, alive.drop_last());
        let names = lost(m, list, alive.drop_last());
        let (name, pid) = list[alive.len() - 1];
        if alive.last() || first_running(p.children, name) >= p.children.len() {
            names
        } else {
            names.push(name)
        }
    }
}

/// Whether `spawner` gives the answers `alive` for the first probes of `list`.
pub open spec fn all_probe<S: Spawner>(
    spawner: &S,
    list: Seq<(Seq<char>, u32)>,
    alive: Seq<bool>,
) -> bool {
    &&& alive.len() <= list.len()
    &&& forall|i: int| 0 <= i < alive.len() ==> probes(spawner, list[i].1, Ok(#[trigger] alive[i]))
}

/// Whether `spawner` permits the probes of `list` one after another: each that
/// is reached, all before it having been answered.
pub open spec fn permits_probes<S: Spawner>(spawner: &S, list: Seq<(Seq<char>, u32)>) -> bool {
    forall|alive: Seq<bool>| #[trigger]
        all_probe(spawner, list, alive) && alive.len() < list.len() ==> spawner.may_probe(
            list[alive.len() as int].1,
        )
}

/// An observation of all running children leads from `m` to `n` with result
/// `r`: it goes on to the end, or to the first probe that fails.
pub open spec fn observe_run<S: Spawner>(
    spawner: &S,
    m: SupervisorModel,
    n: SupervisorModel,
    r: Result<Vec<String>, SupervisorError>,
) -> bool {
    let list = running_pids(m.children);
    exists|alive: Seq<bool>| #[trigger]
        all_probe(spawner, list, alive) && n == observed(m, list, alive) && match r {
            Ok(names) => alive.len() == list.len() && texts(names@) == lost(m, list, alive),
            Err(e) => {
                &&& alive.len() < list.len()
                &&& e matches SupervisorError::Probe { child, pid, cause }
                &&& child@ == list[alive.len() as int].0
                &&& pid == list[alive.len() as int].1
                &&& probes(spawner, pid, Err(cause))
            },
        }
}

/// The models of a map of trackers.
pub open spec fn trackers_of(m: Map<Seq<char>, RestartTracker>) -> Map<Seq<char>, RestartModel> {
    Map::new(|k: Seq<char>| m.contains_key(k), |k: Seq<char>| m[k]@)
}

/// The tracker of `name`, a fresh one if it has none, after a restart at `now`.
pub open spec fn counted(
    trackers: Map<Seq<char>, RestartModel>,
    name: Seq<char>,
    now: nat,
) -> RestartModel {
    if trackers.contains_key(name) {
        trackers[name].recorded(now)
    } else {
        RestartModel::fresh().recorded(now)
    }
}

/// Where a restart pass stands.
#[verifier::ext_equal]
pub struct RestartRun {
    /// The snapshot.
    pub view: SupervisorModel,
    /// The trackers.
    pub trackers: Map<Seq<char>, RestartModel>,
    /// The outcomes so far.
    pub outcomes: Seq<OutcomeModel>,
}

impl RestartRun {
    /// After `name` was decided at `now`: started as process `pid` where its
    /// tracker asks for no delay, waiting where it does.
    pub open spec fn step(self, name: Seq<char>, now: nat, pid: u32) -> RestartRun {
        let t = counted(self.trackers, name, now);
        if t.delay() == 0 {
            RestartRun {
                view: restarted_as(self.view, name, pid),
                trackers: self.trackers.insert(name, t),
                outcomes: self.outcomes.push(
                    OutcomeModel::Restarted {
                        name,
                        child_pid: pid,
                        restart_count: restart_number(self.view, name),
                    },
                ),
            }
        } else {
            RestartRun {
                view: backed_off(self.view, name, t.history.len()),
                trackers: self.trackers.insert(name, t),
                outcomes: self.outcomes.push(
                    OutcomeModel::EnteredBackoff { name, restarts_in_window: t.history.len() },
                ),
            }
        }
    }

    /// Whether `name` is to be started at `now`.
    pub open spec fn due(self, name: Seq<char>, now: nat) -> bool {
        counted(self.trackers, name, now).delay() == 0
    }
}

/// The names of the exited children.
pub open spec fn exited_names(cs: Seq<ChildModel>) -> Seq<Seq<char>>
    decreases cs.len(),
{
    if cs.len() == 0 {
        Seq::empty()
    } else if cs.last().status == ChildStatus::Exited {
        exited_names(cs.drop_last()).push(cs.last().name)
    } else {
        exited_names(cs.drop_last())
    }
}

/// The pass after the first of `names` were decided at `now`, with the process
/// ids `pids` for those that were started.
pub open spec fn decided(
    m: SupervisorModel,
    trackers: Map<Seq<char>, RestartModel>,
    names: Seq<Seq<char>>,
    now: nat,
    pids: Seq<u32>,
) -> RestartRun
    decreases pids.len(),
{
    if pids.len() == 0 {
        RestartRun { view: m, trackers, outcomes: Seq::empty() }
    } else {
        decided(m, trackers, names, now, pids.drop_last()).step(
            names[pids.len() - 1],
            now,
            pids.last(),
        )
    }
}

/// Whether `spawner` gives the process ids `pids` for those of `names` that
/// are to be started.
pub open spec fn all_restart<S: Spawner>(
    spawner: &S,
    m: SupervisorModel,
    trackers: Map<Seq<char>, RestartModel>,
    now: nat,
    pids: Seq<u32>,
) -> bool {
    let names = exited_names(m.children);
    &&& pids.len() <= names.len()
    &&& forall|i: int|
        0 <= i < pids.len() && decided(m, trackers, names, now, pids.take(i)).due(names[i], now)
            ==> start_gives(spawner, names[i], #[trigger] pids[i])
}

/// Whether `spawner` may start `name` as process `pid`.
pub open spec fn start_gives<S: Spawner>(spawner: &S, name: Seq<char>, pid: u32) -> bool {
    exists|s: StartedChild| #[trigger]
        starts(spawner, plain_spec(name), Ok(s)) && s.child_pid == pid
}

/// Whether `spawner` permits a restart pass at `now`: a start of each exited
/// child that is reached and that is to be started. No start of a child that
/// is to wait is among them.
pub open spec fn permits_restarts<S: Spawner>(
    spawner: &S,
    m: SupervisorModel,
    trackers: Map<Seq<char>, RestartModel>,
    now: nat,
) -> bool {
    let names = exited_names(m.children);
    forall|pids: Seq<u32>| #[trigger]
        all_restart(spawner, m, trackers, now, pids) && pids.len() < names.len() && decided(
            m,
            trackers,
            names,
            now,
            pids,
        ).due(names[pids.len() as int], now) ==> spawner.may_start(
            plain_spec(names[pids.len() as int]),
        )
}

/// A restart pass at `now` leads from `m` and `trackers` to `n` and
/// `trackers_after` with result `r`: it decides every exited child, or goes on
/// to the first that fails to start.
pub open spec fn restart_run<S: Spawner>(
    spawner: &S,
    m: SupervisorModel,
    trackers: Map<Seq<char>, RestartModel>,
    now: nat,
    n: SupervisorModel,
    trackers_after: Map<Seq<char>, RestartModel>,
    r: Result<Vec<RestartOutcome>, SupervisorError>,
) -> bool {
    let names = exited_names(m.children);
    exists|pids: Seq<u32>| #[trigger]
        all_restart(spawner, m, trackers, now, pids) && {
            let run = decided(m, trackers, names, now, pids);
            &&& n == run.view
            &&& match r {
                Ok(outcomes) => {
                    &&& pids.len() == names.len()
                    &&& trackers_after == run.trackers
                    &&& outcomes_of(outcomes@) == run.outcomes
                },
                Err(e) => {
                    &&& pids.len() < names.len()
                    &&& run.due(names[pids.len() as int], now)
                    &&& trackers_after == run.trackers.insert(
                        names[pids.len() as int],
                        counted(run.trackers, names[pids.len() as int], now),
                    )
                    &&& e matches SupervisorError::Restart { child, cause, decided: before }
                    &&& outcomes_of(before@) == run.outcomes
                    &&& child@ == names[pids.len() as int]
                    &&& starts(spawner, plain_spec(child@), Err(cause))
                },
            }
        }
}

/// The times until which children wait, in nanoseconds.
pub open spec fn deadlines_of(m: Map<Seq<char>, Instant>) -> Map<Seq<char>, nat> {
    Map::new(|k: Seq<char>| m.contains_key(k), |k: Seq<char>| m[k].nanos as nat)
}

/// Whether a child waits and its time has come.
pub open spec fn expired(c: ChildModel, due: Map<Seq<char>, nat>, now: nat) -> bool {
    c.status == ChildStatus::Backoff && due.contains_key(c.name) && now >= due[c.name]
}

/// A child after its wait was ended, if its time has come.
pub open spec fn woken(c: ChildModel, due: Map<Seq<char>, nat>, now: nat) -> ChildModel {
    if expired(c, due, now) {
        ChildModel {
            status: ChildStatus::Exited,
            last_event: Some("backoff expired; retrying"@),
            ..c
        }
    } else {
        c
    }
}

/// The snapshot after every wait whose time has come was ended.
pub open spec fn cleared(
    m: SupervisorModel,
    due: Map<Seq<char>, nat>,
    now: nat,
) -> SupervisorModel {
    SupervisorModel { children: m.children.map_values(|c: ChildModel| woken(c, due, now)), ..m }
}

/// The names of the children whose time has come.
pub open spec fn expired_names(
    cs: Seq<ChildModel>,
    due: Map<Seq<char>, nat>,
    now: nat,
) -> Seq<Seq<char>>
    decreases cs.len(),
{
    if cs.len() == 0 {
        Seq::empty()
    } else if expired(cs.last(), due, now) {
        expired_names(cs.drop_last(), due, now).push(cs.last().name)
    } else {
        expired_names(cs.drop_last(), due, now)
    }
}

/// The deadlines after a restart pass at `now` with the given outcomes: each
/// child that began to wait waits for the fleet's pause.
pub open spec fn scheduled(
    due: Map<Seq<char>, nat>,
    outcomes: Seq<OutcomeModel>,
    now: nat,
) -> Map<Seq<char>, nat>
    decreases outcomes.len(),
{
    if outcomes.len() == 0 {
        due
    } else {
        let d = scheduled(due, outcomes.drop_last(), now);
        match outcomes.last() {
            OutcomeModel::EnteredBackoff { name, restarts_in_window } => d.insert(
                name,
                now + pause_nanos(),
            ),
            OutcomeModel::Restarted { name, child_pid, restart_count } => d,
        }
    }
}

/// The fleet's pause in nanoseconds.
pub open spec fn pause_nanos() -> nat {
    BACKOFF_SECS as nat * NANOS_PER_SEC as nat
}

} // verus!
