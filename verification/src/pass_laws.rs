//! What holds of every pass of the supervisor.

use crate::fleet::{canonical_specs, plain_spec, ChildSpecModel, CHILD_STARTUP_ORDER};
use crate::number::decimal_of;
use crate::passes::{
    all_probe, all_restart, all_start, cleared, decided, exited, exited_names, expired, first_named,
    first_running, lemma_first_named, lemma_first_running, lost, observe_run, observed, one_more,
    pause_nanos, pids_of, restart_run, running, running_pids, scheduled, start_gives, start_run,
    started, starting, with_slot, woken, RestartRun,
};
use crate::protocol::{pending_view, ChildModel, ChildStatus, SupervisorModel};
use crate::restart::RestartModel;
use crate::spawn::{probes, starts, Spawner, StartedChild};
use crate::supervisor::{
    announced, decided_by, pass_run, waiting_of, without, OutcomeModel, PassReport, RestartOutcome,
    SupervisorError,
};
use crate::text::texts;
use vstd::prelude::*;

verus! {

// ---------------------------------------------------------------------------
// Shape
// ---------------------------------------------------------------------------

/// Whether two snapshots have the same children in the same order, the same
/// version and the same mute flag.
pub open spec fn same_shape(m: SupervisorModel, n: SupervisorModel) -> bool {
    &&& m.protocol_version == n.protocol_version
    &&& m.muted == n.muted
    &&& m.children.len() == n.children.len()
    &&& forall|i: int|
        0 <= i < m.children.len() ==> (#[trigger] m.children[i]).name == n.children[i].name
}

/// Whether no two children have the same name.
pub open spec fn distinct(cs: Seq<ChildModel>) -> bool {
    forall|i: int, j: int|
        0 <= i < j < cs.len() ==> (#[trigger] cs[i]).name != (#[trigger] cs[j]).name
}

/// Writing a slot under its own name keeps the shape and the other slots.
proof fn lemma_with_slot(m: SupervisorModel, i: int, c: ChildModel)
    requires
        0 <= i < m.children.len() ==> c.name == m.children[i].name,
    ensures
        same_shape(m, with_slot(m, i, c)),
        forall|k: int|
            0 <= k < m.children.len() && k != i ==> (#[trigger] with_slot(m, i, c).children[k])
                == m.children[k],
{
}

/// Where names are distinct, a name is found where it stands.
proof fn lemma_found(cs: Seq<ChildModel>, k: int)
    requires
        distinct(cs),
        0 <= k < cs.len(),
    ensures
        first_named(cs, cs[k].name) == k,
{
    lemma_first_named(cs, cs[k].name);
    let f = first_named(cs, cs[k].name);
    if f < k {
        assert(cs[f].name != cs[k].name);
    } else if f > k {
        assert(cs[k].name != cs[k].name);
    }
}

/// The shape is kept over several steps.
pub proof fn lemma_same_shape_transitive(a: SupervisorModel, b: SupervisorModel, c: SupervisorModel)
    requires
        same_shape(a, b),
        same_shape(b, c),
    ensures
        same_shape(a, c),
{
    assert forall|i: int| 0 <= i < a.children.len() implies (#[trigger] a.children[i]).name
        == c.children[i].name by {
        assert(b.children[i].name == c.children[i].name);
    }
}

/// The shape of a snapshot keeps its names distinct.
pub proof fn lemma_distinct_kept(m: SupervisorModel, n: SupervisorModel)
    requires
        same_shape(m, n),
        distinct(m.children),
    ensures
        distinct(n.children),
{
    assert forall|i: int, j: int| 0 <= i < j < n.children.len() implies (
    #[trigger] n.children[i]).name != (#[trigger] n.children[j]).name by {
        assert(m.children[i].name != m.children[j].name);
    }
}

// ---------------------------------------------------------------------------
// Starting
// ---------------------------------------------------------------------------

proof fn lemma_started_shape(m: SupervisorModel, specs: Seq<ChildSpecModel>, pids: Seq<u32>)
    ensures
        same_shape(m, started(m, specs, pids)),
    decreases pids.len(),
{
    if pids.len() > 0 {
        lemma_started_shape(m, specs, pids.drop_last());
        let p = started(m, specs, pids.drop_last());
        let name = specs[pids.len() - 1].name;
        lemma_first_named(p.children, name);
        let q = starting(p, name);
        lemma_same_shape_transitive(m, p, q);
        lemma_first_named(q.children, name);
        lemma_same_shape_transitive(m, q, running(q, name, pids.last()));
    }
}

/// A start keeps the children, their order, the version and the mute flag.
pub proof fn law_start_keeps_shape<S: Spawner>(
    spawner: &S,
    m: SupervisorModel,
    specs: Seq<ChildSpecModel>,
    n: SupervisorModel,
    r: Result<(), SupervisorError>,
)
    requires
        start_run(spawner, m, specs, n, r),
    ensures
        same_shape(m, n),
{
    let got = choose|got: Seq<StartedChild>| #[trigger]
        all_start(spawner, specs, got) && match r {
            Ok(_) => got.len() == specs.len() && n == started(m, specs, pids_of(got)),
            Err(e) => {
                &&& got.len() < specs.len()
                &&& n == starting(started(m, specs, pids_of(got)), specs[got.len() as int].name)
            },
        };
    lemma_started_shape(m, specs, pids_of(got));
    if r is Err {
        let p = started(m, specs, pids_of(got));
        lemma_first_named(p.children, specs[got.len() as int].name);
        lemma_same_shape_transitive(m, p, n);
    }
}

/// Whether the children have the names of `specs`, in their order.
pub open spec fn named_as(cs: Seq<ChildModel>, specs: Seq<ChildSpecModel>) -> bool {
    &&& cs.len() == specs.len()
    &&& forall|i: int| 0 <= i < cs.len() ==> (#[trigger] cs[i]).name == specs[i].name
}

proof fn lemma_started_running(m: SupervisorModel, specs: Seq<ChildSpecModel>, pids: Seq<u32>)
    requires
        named_as(m.children, specs),
        distinct(m.children),
        pids.len() <= specs.len(),
    ensures
        forall|i: int|
            0 <= i < pids.len() ==> (#[trigger] started(m, specs, pids).children[i]) == (
            ChildModel {
                status: ChildStatus::Running,
                child_pid: Some(pids[i]),
                last_event: Some("running pid="@ + decimal_of(pids[i] as nat)),
                ..m.children[i]
            }),
        forall|i: int|
            pids.len() <= i < m.children.len() ==> (#[trigger] started(m, specs, pids).children[i])
                == m.children[i],
    decreases pids.len(),
{
    if pids.len() > 0 {
        let ps = pids.drop_last();
        lemma_started_running(m, specs, ps);
        lemma_started_shape(m, specs, ps);
        let p = started(m, specs, ps);
        let k = pids.len() - 1;
        let name = specs[k].name;
        lemma_distinct_kept(m, p);
        assert(p.children[k].name == m.children[k].name);
        lemma_found(p.children, k);
        let q = starting(p, name);
        lemma_with_slot(p, k, q.children[k]);
        lemma_distinct_kept(p, q);
        lemma_found(q.children, k);
        let n = running(q, name, pids.last());
        lemma_with_slot(q, k, n.children[k]);
        assert forall|i: int| 0 <= i < pids.len() implies (#[trigger] n.children[i]) == (
        ChildModel {
            status: ChildStatus::Running,
            child_pid: Some(pids[i]),
            last_event: Some("running pid="@ + decimal_of(pids[i] as nat)),
            ..m.children[i]
        }) by {
            if i < k {
                assert(q.children[i] == p.children[i]);
                assert(ps[i] == pids[i]);
            }
        }
        assert forall|i: int| pids.len() <= i < m.children.len() implies (#[trigger] n.children[i])
            == m.children[i] by {
            assert(q.children[i] == p.children[i]);
        }
    }
}

/// Whether `b` became `c` by running as a process that `spawner` gave for `spec`.
pub open spec fn runs_as<S: Spawner>(
    spawner: &S,
    spec: ChildSpecModel,
    b: ChildModel,
    c: ChildModel,
) -> bool {
    exists|s: StartedChild| #[trigger]
        starts(spawner, spec, Ok(s)) && c == (ChildModel {
            status: ChildStatus::Running,
            child_pid: Some(s.child_pid),
            last_event: Some("running pid="@ + decimal_of(s.child_pid as nat)),
            ..b
        })
}

/// Whether the first `k` children of `n` were started, the next one was begun,
/// and those behind it are as in `m`.
pub open spec fn started_up_to<S: Spawner>(
    spawner: &S,
    m: SupervisorModel,
    specs: Seq<ChildSpecModel>,
    n: SupervisorModel,
    k: int,
) -> bool {
    &&& forall|i: int|
        0 <= i < k ==> runs_as(spawner, specs[i], m.children[i], #[trigger] n.children[i])
    &&& k < specs.len() ==> n.children[k] == (ChildModel {
        status: ChildStatus::Starting,
        last_event: Some("starting"@),
        ..m.children[k]
    })
    &&& forall|i: int| k < i < specs.len() ==> #[trigger] n.children[i] == m.children[i]
}

/// A start that succeeds leaves every child running as the process that the
/// launcher gave it; one that fails leaves exactly the children before the
/// failing one started and those behind it untouched.
pub proof fn law_start_runs_in_order<S: Spawner>(
    spawner: &S,
    m: SupervisorModel,
    specs: Seq<ChildSpecModel>,
    n: SupervisorModel,
    r: Result<(), SupervisorError>,
)
    requires
        named_as(m.children, specs),
        distinct(m.children),
        start_run(spawner, m, specs, n, r),
    ensures
        r is Ok ==> started_up_to(spawner, m, specs, n, specs.len() as int),
        r matches Err(e) ==> exists|k: int|
            {
                &&& 0 <= k < specs.len()
                &&& #[trigger] started_up_to(spawner, m, specs, n, k)
                &&& e matches SupervisorError::Start { child, cause }
                &&& child@ == specs[k].name
                &&& starts(spawner, specs[k], Err(cause))
            },
{
    let got = choose|got: Seq<StartedChild>| #[trigger]
        all_start(spawner, specs, got) && match r {
            Ok(_) => got.len() == specs.len() && n == started(m, specs, pids_of(got)),
            Err(e) => {
                &&& got.len() < specs.len()
                &&& n == starting(started(m, specs, pids_of(got)), specs[got.len() as int].name)
                &&& e matches SupervisorError::Start { child, cause }
                &&& child@ == specs[got.len() as int].name
                &&& starts(spawner, specs[got.len() as int], Err(cause))
            },
        };
    let k = got.len() as int;
    let p = started(m, specs, pids_of(got));
    lemma_started_running(m, specs, pids_of(got));
    lemma_started_shape(m, specs, pids_of(got));
    if r is Err {
        lemma_distinct_kept(m, p);
        assert(p.children[k].name == m.children[k].name);
        lemma_found(p.children, k);
        lemma_with_slot(p, k, n.children[k]);
    }
    assert forall|i: int| 0 <= i < k implies runs_as(
        spawner,
        specs[i],
        m.children[i],
        #[trigger] n.children[i],
    ) by {
        assert(n.children[i] == p.children[i]);
        assert(pids_of(got)[i] == got[i].child_pid);
        assert(starts(spawner, specs[i], Ok(got[i])));
    }
    assert forall|i: int| k < i < specs.len() implies #[trigger] n.children[i]
        == m.children[i] by {
        assert(p.children[i] == m.children[i]);
    }
    assert(started_up_to(spawner, m, specs, n, k));
}

/// The fleet's names are distinct.
pub proof fn law_fleet_names_are_distinct()
    ensures
        distinct(pending_view(canonical_specs()).children),
        named_as(pending_view(canonical_specs()).children, canonical_specs()),
{
    reveal_strlit("wm-audio");
    reveal_strlit("wm-tts");
    reveal_strlit("wm-stt");
    reveal_strlit("wm-dialog");
    reveal_strlit("wmd");
    let cs = pending_view(canonical_specs()).children;
    assert(CHILD_STARTUP_ORDER[0]@.len() == 8);
    assert(CHILD_STARTUP_ORDER[1]@.len() == 6 && CHILD_STARTUP_ORDER[1]@[3] == 't');
    assert(CHILD_STARTUP_ORDER[2]@.len() == 6 && CHILD_STARTUP_ORDER[2]@[3] == 's');
    assert(CHILD_STARTUP_ORDER[3]@.len() == 9);
    assert(CHILD_STARTUP_ORDER[4]@.len() == 3);
    assert forall|i: int, j: int| 0 <= i < j < cs.len() implies (#[trigger] cs[i]).name != (
    #[trigger] cs[j]).name by {
        assert(cs[i].name == CHILD_STARTUP_ORDER[i]@);
        assert(cs[j].name == CHILD_STARTUP_ORDER[j]@);
    }
}

// ---------------------------------------------------------------------------
// Observing
// ---------------------------------------------------------------------------

/// What probes that were answered did to the children.
pub proof fn lemma_observed(m: SupervisorModel, list: Seq<(Seq<char>, u32)>, alive: Seq<bool>)
    ensures
        same_shape(m, observed(m, list, alive)),
        forall|i: int|
            0 <= i < m.children.len() ==> {
                let c = m.children[i];
                let d = #[trigger] observed(m, list, alive).children[i];
                d == c || (c.status == ChildStatus::Running && d == (ChildModel {
                    status: ChildStatus::Exited,
                    last_event: d.last_event,
                    ..c
                }))
            },
    decreases alive.len(),
{
    if alive.len() > 0 {
        lemma_observed(m, list, alive.drop_last());
        let p = observed(m, list, alive.drop_last());
        let (name, pid) = list[alive.len() - 1];
        if !alive.last() {
            lemma_first_running(p.children, name);
            lemma_same_shape_transitive(m, p, exited(p, name, pid));
        }
    }
}

/// An observation keeps the shape; it changes nothing but children that were
/// running, and those only to exited.
pub proof fn law_observe_only_ends_running<S: Spawner>(
    spawner: &S,
    m: SupervisorModel,
    n: SupervisorModel,
    r: Result<Vec<String>, SupervisorError>,
)
    requires
        observe_run(spawner, m, n, r),
    ensures
        same_shape(m, n),
        forall|i: int|
            0 <= i < m.children.len() ==> {
                let c = m.children[i];
                let d = #[trigger] n.children[i];
                d == c || (c.status == ChildStatus::Running && d == (ChildModel {
                    status: ChildStatus::Exited,
                    last_event: d.last_event,
                    ..c
                }))
            },
{
    let list = running_pids(m.children);
    let alive = choose|alive: Seq<bool>| n == #[trigger] observed(m, list, alive);
    lemma_observed(m, list, alive);
}

/// Whether probes always give the same.
pub open spec fn steady_probes<S: Spawner>(spawner: &S) -> bool {
    forall|pid: u32, a: bool, b: bool| #[trigger]
        probes(spawner, pid, Ok(a)) && #[trigger] probes(spawner, pid, Ok(b)) ==> a == b
}

/// Whether `list` has the entry `e`.
pub open spec fn listed(list: Seq<(Seq<char>, u32)>, e: (Seq<char>, u32)) -> bool {
    exists|k: int| 0 <= k < list.len() && #[trigger] list[k] == e
}

/// The running children that are probed are those that run as a known process.
pub proof fn lemma_running_pids(cs: Seq<ChildModel>)
    ensures
        forall|i: int|
            0 <= i < cs.len() && (#[trigger] cs[i]).status == ChildStatus::Running
                && cs[i].child_pid is Some ==> listed(
                running_pids(cs),
                (cs[i].name, cs[i].child_pid->0),
            ),
        forall|k: int|
            0 <= k < running_pids(cs).len() ==> runs_as_listed(cs, #[trigger] running_pids(cs)[k]),
    decreases cs.len(),
{
    if cs.len() > 0 {
        let rest = cs.drop_last();
        let l = running_pids(cs);
        let lr = running_pids(rest);
        lemma_running_pids(rest);
        assert forall|i: int|
            0 <= i < cs.len() && (#[trigger] cs[i]).status == ChildStatus::Running
                && cs[i].child_pid is Some implies listed(
            l,
            (cs[i].name, cs[i].child_pid->0),
        ) by {
            if i < rest.len() {
                assert(rest[i] == cs[i]);
                let e = (cs[i].name, cs[i].child_pid->0);
                let k = choose|k: int| 0 <= k < lr.len() && #[trigger] lr[k] == e;
                assert(l[k] == e);
            } else {
                assert(l[l.len() - 1] == (cs[i].name, cs[i].child_pid->0));
            }
        }
        assert forall|k: int| 0 <= k < l.len() implies runs_as_listed(cs, #[trigger] l[k]) by {
            if k < lr.len() {
                assert(l[k] == lr[k]);
                assert(runs_as_listed(rest, lr[k]));
                let i = choose|i: int|
                    0 <= i < rest.len() && (#[trigger] rest[i]).status == ChildStatus::Running
                        && rest[i].name == lr[k].0 && rest[i].child_pid == Some(lr[k].1);
                assert(cs[i] == rest[i]);
            } else {
                assert(cs[cs.len() - 1].name == l[k].0);
            }
        }
    }
}

/// Whether a child of that name runs as that process.
pub open spec fn runs_as_listed(cs: Seq<ChildModel>, e: (Seq<char>, u32)) -> bool {
    exists|i: int|
        0 <= i < cs.len() && (#[trigger] cs[i]).status == ChildStatus::Running && cs[i].name == e.0
            && cs[i].child_pid == Some(e.1)
}

/// A child that was found gone does not run any more.
proof fn lemma_gone_is_not_running(
    m: SupervisorModel,
    list: Seq<(Seq<char>, u32)>,
    alive: Seq<bool>,
)
    requires
        distinct(m.children),
        alive.len() <= list.len(),
    ensures
        forall|i: int, k: int|
            0 <= i < m.children.len() && 0 <= k < alive.len() && !(#[trigger] alive[k])
                && m.children[i].name == list[k].0 ==> (#[trigger] observed(
                m,
                list,
                alive,
            ).children[i]).status != ChildStatus::Running,
    decreases alive.len(),
{
    if alive.len() > 0 {
        let a = alive.drop_last();
        lemma_gone_is_not_running(m, list, a);
        lemma_observed(m, list, a);
        let p = observed(m, list, a);
        let n = observed(m, list, alive);
        let (name, pid) = list[alive.len() - 1];
        lemma_distinct_kept(m, p);
        lemma_first_running(p.children, name);
        let at = first_running(p.children, name);
        assert forall|i: int, k: int|
            0 <= i < m.children.len() && 0 <= k < alive.len() && !(#[trigger] alive[k])
                && m.children[i].name == list[k].0 implies (#[trigger] n.children[i]).status
            != ChildStatus::Running by {
            assert(p.children[i].name == m.children[i].name);
            if k < a.len() {
                assert(!a[k]);
                assert(p.children[i].status != ChildStatus::Running);
            } else if i != at && p.children[i].status == ChildStatus::Running {
                if i > at {
                    assert(p.children[at].name != p.children[i].name);
                }
            }
        }
    }
}

/// Where probes always give the same, an observation finds everything that is
/// gone: a second one right behind it finds nothing and changes nothing.
pub proof fn law_observing_twice_finds_no_more<S: Spawner>(
    spawner: &S,
    m: SupervisorModel,
    n: SupervisorModel,
    names: Vec<String>,
    n2: SupervisorModel,
    names2: Vec<String>,
)
    requires
        steady_probes(spawner),
        distinct(m.children),
        observe_run(spawner, m, n, Ok(names)),
        observe_run(spawner, n, n2, Ok(names2)),
    ensures
        n2 == n,
        names2@.len() == 0,
{
    let list = running_pids(m.children);
    let alive = choose|alive: Seq<bool>| #[trigger]
        all_probe(spawner, list, alive) && n == observed(m, list, alive) && alive.len()
            == list.len();
    let list2 = running_pids(n.children);
    let alive2 = choose|alive: Seq<bool>| #[trigger]
        all_probe(spawner, list2, alive) && n2 == observed(n, list2, alive) && alive.len()
            == list2.len() && texts(names2@) == lost(n, list2, alive);
    lemma_observed(m, list, alive);
    lemma_gone_is_not_running(m, list, alive);
    lemma_running_pids(m.children);
    lemma_running_pids(n.children);
    assert forall|j: int| 0 <= j < alive2.len() implies #[trigger] alive2[j] by {
        assert(runs_as_listed(n.children, list2[j]));
        let i = choose|i: int|
            0 <= i < n.children.len() && (#[trigger] n.children[i]).status == ChildStatus::Running
                && n.children[i].name == list2[j].0 && n.children[i].child_pid == Some(
                list2[j].1,
            );
        assert(n.children[i] == m.children[i]);
        let e = (m.children[i].name, m.children[i].child_pid->0);
        assert(listed(list, e));
        let k = choose|k: int| 0 <= k < list.len() && #[trigger] list[k] == e;
        if !alive[k] {
            assert(n.children[i].status != ChildStatus::Running);
        }
        assert(probes(spawner, list[k].1, Ok(alive[k])));
        assert(probes(spawner, list2[j].1, Ok(alive2[j])));
    }
    lemma_all_alive(n, list2, alive2);
    assert(texts(names2@).len() == names2@.len());
}

/// Where every probed child is alive, nothing changes.
proof fn lemma_all_alive(m: SupervisorModel, list: Seq<(Seq<char>, u32)>, alive: Seq<bool>)
    requires
        forall|j: int| 0 <= j < alive.len() ==> #[trigger] alive[j],
    ensures
        observed(m, list, alive) == m,
        lost(m, list, alive).len() == 0,
    decreases alive.len(),
{
    if alive.len() > 0 {
        let a = alive.drop_last();
        assert forall|j: int| 0 <= j < a.len() implies #[trigger] a[j] by {
            assert(alive[j]);
        }
        lemma_all_alive(m, list, a);
        assert(alive[alive.len() - 1]);
    }
}

// ---------------------------------------------------------------------------
// Restarting
// ---------------------------------------------------------------------------

/// Whether an exited child is called `name`.
pub open spec fn names_exited(cs: Seq<ChildModel>, name: Seq<char>) -> bool {
    exists|i: int|
        0 <= i < cs.len() && (#[trigger] cs[i]).status == ChildStatus::Exited && cs[i].name == name
}

/// The names of the exited children are those of the children that are exited.
pub proof fn lemma_exited_names(cs: Seq<ChildModel>)
    ensures
        forall|i: int|
            0 <= i < cs.len() && (#[trigger] cs[i]).status == ChildStatus::Exited
                ==> exited_names(cs).contains(cs[i].name),
        forall|k: int|
            0 <= k < exited_names(cs).len() ==> names_exited(cs, #[trigger] exited_names(cs)[k]),
        distinct(cs) ==> exited_names(cs).no_duplicates(),
    decreases cs.len(),
{
    if cs.len() > 0 {
        let rest = cs.drop_last();
        let es = exited_names(cs);
        let er = exited_names(rest);
        lemma_exited_names(rest);
        assert forall|i: int|
            0 <= i < cs.len() && (#[trigger] cs[i]).status
                == ChildStatus::Exited implies es.contains(cs[i].name) by {
            if i < rest.len() {
                assert(rest[i] == cs[i]);
                let k = er.index_of(cs[i].name);
                assert(es[k] == cs[i].name);
            } else {
                assert(es[es.len() - 1] == cs[i].name);
            }
        }
        assert forall|k: int| 0 <= k < es.len() implies names_exited(cs, #[trigger] es[k]) by {
            if k < er.len() {
                assert(names_exited(rest, er[k]));
                let i = choose|i: int|
                    0 <= i < rest.len() && (#[trigger] rest[i]).status == ChildStatus::Exited
                        && rest[i].name == er[k];
                assert(cs[i] == rest[i]);
                assert(es[k] == er[k]);
            } else {
                assert(cs[cs.len() - 1].name == es[k]);
            }
        }
        if distinct(cs) {
            assert(distinct(rest)) by {
                assert forall|i: int, j: int| 0 <= i < j < rest.len() implies (
                #[trigger] rest[i]).name != (#[trigger] rest[j]).name by {
                    assert(cs[i].name != cs[j].name);
                }
            }
            assert forall|a: int, b: int|
                0 <= a < es.len() && 0 <= b < es.len() && a != b implies es[a] != es[b] by {
                let hi = if a > b { a } else { b };
                let lo = if a > b { b } else { a };
                if hi >= er.len() {
                    assert(names_exited(rest, er[lo]));
                    let i = choose|i: int|
                        0 <= i < rest.len() && (#[trigger] rest[i]).status == ChildStatus::Exited
                            && rest[i].name == er[lo];
                    assert(cs[i].name != cs[cs.len() - 1].name);
                }
            }
        }
    }
}

/// What a restart pass has done to the snapshot after some decisions.
pub open spec fn decided_slots(
    m: SupervisorModel,
    names: Seq<Seq<char>>,
    k: int,
    run: RestartRun,
) -> bool {
    &&& same_shape(m, run.view)
    &&& run.outcomes.len() == k
    &&& forall|i: int|
        0 <= i < m.children.len() && !names.take(k).contains(m.children[i].name)
            ==> #[trigger] run.view.children[i] == m.children[i]
    &&& forall|i: int, j: int|
        0 <= i < m.children.len() && 0 <= j < k && m.children[i].name == names[j]
            ==> slot_matches(
            m.children[i],
            #[trigger] run.view.children[i],
            #[trigger] run.outcomes[j],
        )
}

/// Whether a child went from `c` to `d` as the outcome `o` says.
pub open spec fn slot_matches(c: ChildModel, d: ChildModel, o: OutcomeModel) -> bool {
    match o {
        OutcomeModel::Restarted { name, child_pid, restart_count } => {
            &&& name == c.name
            &&& restart_count == c.restart_count + 1 || restart_count == c.restart_count == u32::MAX
            &&& d == (ChildModel {
                status: ChildStatus::Running,
                child_pid: Some(child_pid),
                restart_count,
                last_event: Some(
                    "restarted pid="@ + decimal_of(child_pid as nat) + " (#"@ + decimal_of(
                        restart_count as nat,
                    ) + ")"@,
                ),
                ..c
            })
        },
        OutcomeModel::EnteredBackoff { name, restarts_in_window } => {
            &&& name == c.name
            &&& d == (ChildModel {
                status: ChildStatus::Backoff,
                last_event: Some(
                    "backoff ("@ + decimal_of(restarts_in_window) + " restarts in window)"@,
                ),
                ..c
            })
        },
    }
}

/// Whether `o` is the outcome of the exited child called `name`, which went
/// from `m` to `n` as it says.
pub open spec fn outcome_named(
    m: SupervisorModel,
    n: SupervisorModel,
    name: Seq<char>,
    o: OutcomeModel,
) -> bool {
    exists|i: int|
        0 <= i < m.children.len() && m.children[i].status == ChildStatus::Exited
            && m.children[i].name == name && slot_matches(
            m.children[i],
            #[trigger] n.children[i],
            o,
        )
}

proof fn lemma_decided(
    m: SupervisorModel,
    trackers: Map<Seq<char>, RestartModel>,
    names: Seq<Seq<char>>,
    now: nat,
    pids: Seq<u32>,
)
    requires
        distinct(m.children),
        names.no_duplicates(),
        pids.len() <= names.len(),
    ensures
        decided_slots(m, names, pids.len() as int, decided(m, trackers, names, now, pids)),
    decreases pids.len(),
{
    let run = decided(m, trackers, names, now, pids);
    let k = pids.len() as int;
    if k > 0 {
        let ps = pids.drop_last();
        lemma_decided(m, trackers, names, now, ps);
        let prev = decided(m, trackers, names, now, ps);
        let name = names[k - 1];
        let v = prev.view;
        let at = first_named(v.children, name);
        lemma_first_named(v.children, name);
        lemma_distinct_kept(m, v);
        lemma_same_shape_transitive(m, v, run.view);
        assert(!names.take(k - 1).contains(name)) by {
            if names.take(k - 1).contains(name) {
                let j = names.take(k - 1).index_of(name);
                assert(names[j] == names[k - 1]);
            }
        }
        assert(names.take(k) == names.take(k - 1).push(name));
        assert forall|i: int|
            0 <= i < m.children.len() && !names.take(k).contains(
                m.children[i].name,
            ) implies #[trigger] run.view.children[i] == m.children[i] by {
            assert(names.take(k)[k - 1] == name);
            if names.take(k - 1).contains(m.children[i].name) {
                let j = names.take(k - 1).index_of(m.children[i].name);
                assert(names.take(k)[j] == m.children[i].name);
            }
            assert(v.children[i] == m.children[i]);
        }
        assert forall|i: int, j: int|
            0 <= i < m.children.len() && 0 <= j < k && m.children[i].name
                == names[j] implies slot_matches(
            m.children[i],
            #[trigger] run.view.children[i],
            #[trigger] run.outcomes[j],
        ) by {
            if j < k - 1 {
                assert(names[j] != names[k - 1]);
                assert(v.children[i].name == m.children[i].name);
                assert(run.view.children[i] == v.children[i]);
                assert(run.outcomes[j] == prev.outcomes[j]);
            } else {
                assert(v.children[i].name == m.children[i].name);
                lemma_found(v.children, i);
                assert(v.children[i] == m.children[i]);
            }
        }
    }
}

/// Whether one of the outcomes says how a child went from `c` to `d`.
pub open spec fn is_decided(c: ChildModel, d: ChildModel, outcomes: Seq<OutcomeModel>) -> bool {
    exists|j: int| 0 <= j < outcomes.len() && slot_matches(c, d, #[trigger] outcomes[j])
}

/// What a restart pass from `m` to `n` with result `r` did. It kept the shape
/// and touched no child that was not exited. Every exited child runs again,
/// counted once more, or waits; where a child failed to start, it and exited
/// children behind it may be left as they were. The outcomes are those of the
/// first exited children, one for each, in their order; of all where no start
/// failed.
pub open spec fn restart_did(
    m: SupervisorModel,
    n: SupervisorModel,
    r: Result<Vec<RestartOutcome>, SupervisorError>,
) -> bool {
    let os = decided_by(r);
    let names = exited_names(m.children);
    &&& same_shape(m, n)
    &&& forall|i: int|
        0 <= i < m.children.len() && m.children[i].status != ChildStatus::Exited
            ==> #[trigger] n.children[i] == m.children[i]
    &&& forall|i: int|
        0 <= i < m.children.len() && m.children[i].status == ChildStatus::Exited ==> is_decided(
            m.children[i],
            #[trigger] n.children[i],
            os,
        ) || (r is Err && n.children[i] == m.children[i])
    &&& if r is Ok {
        os.len() == names.len()
    } else {
        os.len() < names.len()
    }
    &&& forall|j: int|
        0 <= j < os.len() ==> outcome_named(m, n, names[j], #[trigger] os[j])
}

/// A restart pass decides the exited children, as `restart_did` says.
pub proof fn law_restart_decides_exited<S: Spawner>(
    spawner: &S,
    m: SupervisorModel,
    trackers: Map<Seq<char>, RestartModel>,
    now: nat,
    n: SupervisorModel,
    trackers_after: Map<Seq<char>, RestartModel>,
    r: Result<Vec<RestartOutcome>, SupervisorError>,
)
    requires
        distinct(m.children),
        restart_run(spawner, m, trackers, now, n, trackers_after, r),
    ensures
        restart_did(m, n, r),
        forall|j: int|
            0 <= j < decided_by(r).len() && (#[trigger] decided_by(r)[j]) is Restarted
                ==> start_gives(
                spawner,
                decided_by(r)[j]->Restarted_name,
                decided_by(r)[j]->Restarted_child_pid,
            ),
        r matches Err(e) ==> match e {
            SupervisorError::Restart { child, cause, decided: before } => child@ == exited_names(
                m.children,
            )[decided_by(r).len() as int] && starts(
                spawner,
                (ChildSpecModel { name: child@, program: child@, args: Seq::empty() }),
                Err(cause),
            ),
            _ => false,
        },
{
    let names = exited_names(m.children);
    let os = decided_by(r);
    let pids = choose|pids: Seq<u32>| #[trigger]
        all_restart(spawner, m, trackers, now, pids) && n == decided(
            m,
            trackers,
            names,
            now,
            pids,
        ).view && os == decided(m, trackers, names, now, pids).outcomes && match r {
            Ok(_) => pids.len() == names.len(),
            Err(e) => {
                &&& pids.len() < names.len()
                &&& e matches SupervisorError::Restart { child, cause, decided: before }
                &&& child@ == names[pids.len() as int]
                &&& starts(spawner, plain_spec(child@), Err(cause))
            },
        };
    lemma_exited_names(m.children);
    lemma_decided(m, trackers, names, now, pids);
    let run = decided(m, trackers, names, now, pids);
    let k = pids.len() as int;
    assert forall|i: int|
        0 <= i < m.children.len() && m.children[i].status
            != ChildStatus::Exited implies #[trigger] n.children[i] == m.children[i] by {
        if names.take(k).contains(m.children[i].name) {
            let j = names.take(k).index_of(m.children[i].name);
            assert(names_exited(m.children, names[j]));
            let e = choose|e: int|
                0 <= e < m.children.len() && (#[trigger] m.children[e]).status
                    == ChildStatus::Exited && m.children[e].name == names[j];
            if e < i {
                assert(m.children[e].name != m.children[i].name);
            } else if i < e {
                assert(m.children[i].name != m.children[e].name);
            }
        }
    }
    assert forall|i: int|
        0 <= i < m.children.len() && m.children[i].status == ChildStatus::Exited implies is_decided(
        m.children[i],
        #[trigger] n.children[i],
        os,
    ) || (r is Err && n.children[i] == m.children[i]) by {
        let j = names.index_of(m.children[i].name);
        assert(names[j] == m.children[i].name);
        if j < k {
            assert(slot_matches(m.children[i], run.view.children[i], run.outcomes[j]));
            assert(os[j] == run.outcomes[j]);
        } else if names.take(k).contains(m.children[i].name) {
            let l = names.take(k).index_of(m.children[i].name);
            assert(names[l] == names[j]);
        }
    }
    assert forall|j: int| 0 <= j < os.len() implies outcome_named(
        m,
        n,
        names[j],
        #[trigger] os[j],
    ) by {
        assert(names_exited(m.children, names[j]));
        let i = choose|i: int|
            0 <= i < m.children.len() && (#[trigger] m.children[i]).status == ChildStatus::Exited
                && m.children[i].name == names[j];
        assert(slot_matches(m.children[i], run.view.children[i], run.outcomes[j]));
        assert(n.children[i] == run.view.children[i]);
    }
    assert forall|j: int|
        0 <= j < os.len() && (#[trigger] os[j]) is Restarted implies start_gives(
        spawner,
        os[j]->Restarted_name,
        os[j]->Restarted_child_pid,
    ) by {
        lemma_decision(m, trackers, names, now, pids, j);
        assert(start_gives(spawner, names[j], pids[j]));
    }
}

/// The outcome of a decision.
proof fn lemma_decision(
    m: SupervisorModel,
    trackers: Map<Seq<char>, RestartModel>,
    names: Seq<Seq<char>>,
    now: nat,
    pids: Seq<u32>,
    j: int,
)
    requires
        0 <= j < pids.len(),
    ensures
        ({
            let run = decided(m, trackers, names, now, pids);
            &&& run.outcomes.len() == pids.len()
            &&& run.outcomes[j] is Restarted ==> {
                &&& run.outcomes[j]->Restarted_name == names[j]
                &&& run.outcomes[j]->Restarted_child_pid == pids[j]
                &&& decided(m, trackers, names, now, pids.take(j)).due(names[j], now)
            }
        }),
    decreases pids.len(),
{
    let ps = pids.drop_last();
    lemma_outcomes(m, trackers, names, now, ps);
    if j == ps.len() {
        assert(pids.take(j) == ps);
    } else {
        lemma_decision(m, trackers, names, now, ps, j);
        assert(ps.take(j) == pids.take(j));
    }
}

/// There is one outcome for each decision.
proof fn lemma_outcomes(
    m: SupervisorModel,
    trackers: Map<Seq<char>, RestartModel>,
    names: Seq<Seq<char>>,
    now: nat,
    pids: Seq<u32>,
)
    ensures
        decided(m, trackers, names, now, pids).outcomes.len() == pids.len(),
    decreases pids.len(),
{
    if pids.len() > 0 {
        lemma_outcomes(m, trackers, names, now, pids.drop_last());
    }
}

// ---------------------------------------------------------------------------
// Waiting
// ---------------------------------------------------------------------------

/// Ending waits keeps the shape and touches no child that does not wait, has
/// no deadline, or whose deadline is still to come; the others are exited.
pub proof fn law_clear_wakes_expired(m: SupervisorModel, due: Map<Seq<char>, nat>, now: nat)
    ensures
        same_shape(m, cleared(m, due, now)),
        forall|i: int|
            0 <= i < m.children.len() ==> {
                let c = m.children[i];
                let d = #[trigger] cleared(m, due, now).children[i];
                if c.status == ChildStatus::Backoff && due.contains_key(c.name) && now
                    >= due[c.name] {
                    d == (ChildModel {
                        status: ChildStatus::Exited,
                        last_event: Some("backoff expired; retrying"@),
                        ..c
                    })
                } else {
                    d == c
                }
            },
{
}

/// A child that began to wait at `now` has a deadline one pause later.
proof fn lemma_scheduled(
    due: Map<Seq<char>, nat>,
    outcomes: Seq<OutcomeModel>,
    now: nat,
    name: Seq<char>,
)
    ensures
        (exists|j: int|
            0 <= j < outcomes.len() && (#[trigger] outcomes[j]) is EnteredBackoff
                && outcomes[j]->EnteredBackoff_name == name) ==> scheduled(
            due,
            outcomes,
            now,
        ).contains_key(name) && scheduled(due, outcomes, now)[name] == now + pause_nanos(),
        due.contains_key(name) ==> scheduled(due, outcomes, now).contains_key(name),
    decreases outcomes.len(),
{
    if outcomes.len() > 0 {
        let os = outcomes.drop_last();
        lemma_scheduled(due, os, now, name);
        if exists|j: int|
            0 <= j < outcomes.len() && (#[trigger] outcomes[j]) is EnteredBackoff
                && outcomes[j]->EnteredBackoff_name == name {
            let j = choose|j: int|
                0 <= j < outcomes.len() && (#[trigger] outcomes[j]) is EnteredBackoff
                    && outcomes[j]->EnteredBackoff_name == name;
            if j < os.len() {
                assert(os[j] == outcomes[j]);
            }
        }
    }
}

/// Whether every waiting child has a deadline.
pub open spec fn waits_end(m: SupervisorModel, due: Map<Seq<char>, nat>) -> bool {
    forall|i: int|
        0 <= i < m.children.len() && (#[trigger] m.children[i]).status == ChildStatus::Backoff
            ==> due.contains_key(m.children[i].name)
}

/// What the first two phases of a pass made of a child: one whose time has come
/// is exited, one that ran may be, and the others are as they were.
pub open spec fn before_restarts(
    c: ChildModel,
    due: Map<Seq<char>, nat>,
    now: nat,
    d: ChildModel,
) -> bool {
    if expired(c, due, now) {
        d == woken(c, due, now)
    } else {
        d == c || (c.status == ChildStatus::Running && d == (ChildModel {
            status: ChildStatus::Exited,
            last_event: d.last_event,
            ..c
        }))
    }
}

/// The snapshot between observing and restarting.
proof fn lemma_before_restarts<S: Spawner>(
    spawner: &S,
    m: SupervisorModel,
    trackers: Map<Seq<char>, RestartModel>,
    due: Map<Seq<char>, nat>,
    now: nat,
    m_after: SupervisorModel,
    trackers_after: Map<Seq<char>, RestartModel>,
    due_after: Map<Seq<char>, nat>,
    r: PassReport,
) -> (mid: SupervisorModel)
    requires
        distinct(m.children),
        pass_run(spawner, m, trackers, due, now, m_after, trackers_after, due_after, r),
    ensures
        same_shape(m, mid),
        same_shape(m, m_after),
        distinct(mid.children),
        forall|i: int|
            0 <= i < m.children.len() ==> before_restarts(
                m.children[i],
                due,
                now,
                #[trigger] mid.children[i],
            ),
        restart_did(mid, m_after, r.restarted),
{
    let c = cleared(m, due, now);
    let mid = choose|mid: SupervisorModel|
        {
            &&& #[trigger] observe_run(spawner, c, mid, r.observed)
            &&& restart_run(spawner, mid, trackers, now, m_after, trackers_after, r.restarted)
        };
    law_clear_wakes_expired(m, due, now);
    law_observe_only_ends_running(spawner, c, mid, r.observed);
    lemma_same_shape_transitive(m, c, mid);
    lemma_distinct_kept(m, mid);
    law_restart_decides_exited(
        spawner,
        mid,
        trackers,
        now,
        m_after,
        trackers_after,
        r.restarted,
    );
    lemma_same_shape_transitive(m, mid, m_after);
    assert forall|i: int| 0 <= i < m.children.len() implies before_restarts(
        m.children[i],
        due,
        now,
        #[trigger] mid.children[i],
    ) by {
        assert(c.children[i] == woken(m.children[i], due, now));
    }
    mid
}

/// Whether a child that is `d` after a pass began to wait in it, having been `c`
/// before: it waits, and before it did not wait or had waited long enough.
pub open spec fn began_to_wait(
    c: ChildModel,
    due: Map<Seq<char>, nat>,
    now: nat,
    d: ChildModel,
) -> bool {
    d.status == ChildStatus::Backoff && (c.status != ChildStatus::Backoff || expired(c, due, now))
}

/// A child began to wait in a pass exactly if one of the decisions says so.
proof fn lemma_began_to_wait(
    m: SupervisorModel,
    due: Map<Seq<char>, nat>,
    now: nat,
    mid: SupervisorModel,
    m_after: SupervisorModel,
    r: Result<Vec<RestartOutcome>, SupervisorError>,
    i: int,
)
    requires
        same_shape(m, mid),
        distinct(mid.children),
        0 <= i < m.children.len(),
        before_restarts(m.children[i], due, now, mid.children[i]),
        restart_did(mid, m_after, r),
    ensures
        begins_to_wait(decided_by(r), m.children[i].name) <==> began_to_wait(
            m.children[i],
            due,
            now,
            m_after.children[i],
        ),
{
    let os = decided_by(r);
    let name = m.children[i].name;
    assert(mid.children[i].name == name);
    if begins_to_wait(os, name) {
        lemma_waits_were_exited(mid, m_after, os, name);
        let k = choose|k: int|
            0 <= k < mid.children.len() && (#[trigger] mid.children[k]).status
                == ChildStatus::Exited && mid.children[k].name == name && m_after.children[k].status
                == ChildStatus::Backoff;
        if k < i {
            assert(mid.children[k].name != mid.children[i].name);
        } else if i < k {
            assert(mid.children[i].name != mid.children[k].name);
        }
    }
    if mid.children[i].status != ChildStatus::Exited {
        assert(m_after.children[i] == mid.children[i]);
    } else if m_after.children[i].status == ChildStatus::Backoff {
        assert(is_decided(mid.children[i], m_after.children[i], os));
        let j = choose|j: int|
            0 <= j < os.len() && slot_matches(
                mid.children[i],
                m_after.children[i],
                #[trigger] os[j],
            );
        assert(os[j] is EnteredBackoff);
        assert(os[j]->EnteredBackoff_name == name);
    }
}

/// A pass keeps the shape. A child that began to wait in it waits for exactly
/// one pause, and if every waiting child had a deadline before, every waiting
/// child has one after: no wait is without an end. Where no start failed, no
/// child is left exited, so that one whose wait had run out runs again or waits
/// anew.
pub proof fn law_pass<S: Spawner>(
    spawner: &S,
    m: SupervisorModel,
    trackers: Map<Seq<char>, RestartModel>,
    due: Map<Seq<char>, nat>,
    now: nat,
    m_after: SupervisorModel,
    trackers_after: Map<Seq<char>, RestartModel>,
    due_after: Map<Seq<char>, nat>,
    r: PassReport,
)
    requires
        distinct(m.children),
        pass_run(spawner, m, trackers, due, now, m_after, trackers_after, due_after, r),
    ensures
        same_shape(m, m_after),
        forall|i: int|
            0 <= i < m.children.len() && began_to_wait(
                m.children[i],
                due,
                now,
                #[trigger] m_after.children[i],
            ) ==> due_after.contains_key(m.children[i].name) && due_after[m.children[i].name] == now
                + 30_000_000_000,
        waits_end(m, due) ==> waits_end(m_after, due_after),
        r.restarted is Ok ==> forall|i: int|
            0 <= i < m.children.len() ==> (#[trigger] m_after.children[i]).status
                != ChildStatus::Exited,
        r.restarted is Ok ==> forall|i: int|
            0 <= i < m.children.len() && expired(m.children[i], due, now) ==> (
            #[trigger] m_after.children[i]).status == ChildStatus::Running
                || m_after.children[i].status == ChildStatus::Backoff,
{
    let names = crate::passes::expired_names(m.children, due, now);
    let os = decided_by(r.restarted);
    let mid = lemma_before_restarts(
        spawner,
        m,
        trackers,
        due,
        now,
        m_after,
        trackers_after,
        due_after,
        r,
    );
    assert forall|i: int|
        0 <= i < m.children.len() && began_to_wait(
            m.children[i],
            due,
            now,
            #[trigger] m_after.children[i],
        ) implies due_after.contains_key(m.children[i].name) && due_after[m.children[i].name] == now
        + pause_nanos() by {
        assert(before_restarts(m.children[i], due, now, mid.children[i]));
        lemma_began_to_wait(m, due, now, mid, m_after, r.restarted, i);
        lemma_scheduled(without(due, names), os, now, m.children[i].name);
    }
    if waits_end(m, due) {
        assert forall|i: int|
            0 <= i < m_after.children.len() && (#[trigger] m_after.children[i]).status
                == ChildStatus::Backoff implies due_after.contains_key(
            m_after.children[i].name,
        ) by {
            assert(m.children[i].name == m_after.children[i].name);
            if !began_to_wait(m.children[i], due, now, m_after.children[i]) {
                lemma_not_expired(m.children, due, now, i);
                assert(without(due, names).contains_key(m.children[i].name));
                lemma_scheduled(without(due, names), os, now, m.children[i].name);
            }
        }
    }
    if r.restarted is Ok {
        assert forall|i: int| 0 <= i < m.children.len() implies (
        #[trigger] m_after.children[i]).status != ChildStatus::Exited && (expired(
            m.children[i],
            due,
            now,
        ) ==> m_after.children[i].status == ChildStatus::Running || m_after.children[i].status
            == ChildStatus::Backoff) by {
            assert(before_restarts(m.children[i], due, now, mid.children[i]));
            if mid.children[i].status == ChildStatus::Exited {
                assert(is_decided(mid.children[i], m_after.children[i], os));
            } else {
                assert(m_after.children[i] == mid.children[i]);
            }
        }
    }
}

/// Where names are distinct, a child whose time has not come is not among
/// those whose time has come.
proof fn lemma_not_expired(cs: Seq<ChildModel>, due: Map<Seq<char>, nat>, now: nat, i: int)
    requires
        distinct(cs),
        0 <= i < cs.len(),
        !expired(cs[i], due, now),
    ensures
        !crate::passes::expired_names(cs, due, now).contains(cs[i].name),
{
    let es = crate::passes::expired_names(cs, due, now);
    if es.contains(cs[i].name) {
        let k = es.index_of(cs[i].name);
        lemma_expired_names(cs, due, now, k);
        let j = choose|j: int|
            0 <= j < cs.len() && expired(#[trigger] cs[j], due, now) && cs[j].name == es[k];
        if i < j {
            assert(cs[i].name != cs[j].name);
        } else if j < i {
            assert(cs[j].name != cs[i].name);
        }
    }
}

/// Each of the names whose time has come is that of such a child.
proof fn lemma_expired_names(cs: Seq<ChildModel>, due: Map<Seq<char>, nat>, now: nat, k: int)
    requires
        0 <= k < crate::passes::expired_names(cs, due, now).len(),
    ensures
        exists|j: int|
            0 <= j < cs.len() && expired(#[trigger] cs[j], due, now) && cs[j].name
                == crate::passes::expired_names(cs, due, now)[k],
    decreases cs.len(),
{
    let rest = cs.drop_last();
    let er = crate::passes::expired_names(rest, due, now);
    if k < er.len() {
        lemma_expired_names(rest, due, now, k);
        let j = choose|j: int|
            0 <= j < rest.len() && expired(#[trigger] rest[j], due, now) && rest[j].name == er[k];
        assert(cs[j] == rest[j]);
    } else {
        assert(expired(cs[cs.len() - 1], due, now));
    }
}

/// A deadline after a pass is one of before, or that of a child that began to
/// wait.
proof fn lemma_scheduled_from(
    due: Map<Seq<char>, nat>,
    outcomes: Seq<OutcomeModel>,
    now: nat,
    name: Seq<char>,
)
    requires
        scheduled(due, outcomes, now).contains_key(name),
    ensures
        begins_to_wait(outcomes, name) || (due.contains_key(name) && scheduled(
            due,
            outcomes,
            now,
        )[name] == due[name]),
    decreases outcomes.len(),
{
    if outcomes.len() > 0 {
        let os = outcomes.drop_last();
        let o = outcomes.last();
        if o is EnteredBackoff && o->EnteredBackoff_name == name {
            assert(outcomes[outcomes.len() - 1] == o);
        } else {
            lemma_scheduled_from(due, os, now, name);
            if begins_to_wait(os, name) {
                let j = choose|j: int|
                    0 <= j < os.len() && (#[trigger] os[j]) is EnteredBackoff
                        && os[j]->EnteredBackoff_name == name;
                assert(outcomes[j] == os[j]);
            }
        }
    }
}

/// Whether the outcomes say that `name` began to wait.
pub open spec fn begins_to_wait(outcomes: Seq<OutcomeModel>, name: Seq<char>) -> bool {
    exists|j: int|
        0 <= j < outcomes.len() && (#[trigger] outcomes[j]) is EnteredBackoff
            && outcomes[j]->EnteredBackoff_name == name
}

/// Whether a child called `name` waits.
pub open spec fn waits(cs: Seq<ChildModel>, name: Seq<char>) -> bool {
    exists|i: int|
        0 <= i < cs.len() && (#[trigger] cs[i]).status == ChildStatus::Backoff && cs[i].name == name
}

/// Whether the deadlines are those of the waiting children and no others.
pub open spec fn deadlines_match(m: SupervisorModel, due: Map<Seq<char>, nat>) -> bool {
    forall|name: Seq<char>| #[trigger] due.contains_key(name) <==> waits(m.children, name)
}

/// A child whose time has come is among those whose time has come.
proof fn lemma_is_expired(cs: Seq<ChildModel>, due: Map<Seq<char>, nat>, now: nat, i: int)
    requires
        0 <= i < cs.len(),
        expired(cs[i], due, now),
    ensures
        crate::passes::expired_names(cs, due, now).contains(cs[i].name),
    decreases cs.len(),
{
    let es = crate::passes::expired_names(cs, due, now);
    if i < cs.len() - 1 {
        let rest = cs.drop_last();
        assert(rest[i] == cs[i]);
        lemma_is_expired(rest, due, now, i);
        let er = crate::passes::expired_names(rest, due, now);
        let k = er.index_of(cs[i].name);
        assert(es[k] == cs[i].name);
    } else {
        assert(es[es.len() - 1] == cs[i].name);
    }
}

/// If the deadlines are exactly those of the waiting children, they are so
/// after a pass, whatever failed in it. A child whose time has not come is left
/// as it is, and so is its deadline. One whose time has come was retried in this
/// pass: it runs, counted once more, or waits for one more pause; only a failed
/// start leaves it exited, to be retried in the next. Where no start failed, no
/// child is left exited.
pub proof fn law_deadlines_are_of_waiting<S: Spawner>(
    spawner: &S,
    m: SupervisorModel,
    trackers: Map<Seq<char>, RestartModel>,
    due: Map<Seq<char>, nat>,
    now: nat,
    m_after: SupervisorModel,
    trackers_after: Map<Seq<char>, RestartModel>,
    due_after: Map<Seq<char>, nat>,
    r: PassReport,
)
    requires
        distinct(m.children),
        deadlines_match(m, due),
        pass_run(spawner, m, trackers, due, now, m_after, trackers_after, due_after, r),
    ensures
        deadlines_match(m_after, due_after),
        forall|i: int|
            0 <= i < m.children.len() && m.children[i].status == ChildStatus::Backoff
                && due[m.children[i].name] > now ==> {
                &&& #[trigger] m_after.children[i] == m.children[i]
                &&& due_after[m.children[i].name] == due[m.children[i].name]
            },
        forall|i: int|
            0 <= i < m.children.len() && m.children[i].status == ChildStatus::Backoff
                && due[m.children[i].name] <= now ==> {
                let d = #[trigger] m_after.children[i];
                ||| d.status == ChildStatus::Running && d.restart_count == one_more(
                    m.children[i].restart_count,
                )
                ||| d.status == ChildStatus::Backoff && due_after[m.children[i].name] == now
                    + pause_nanos()
                ||| d.status == ChildStatus::Exited && r.restarted is Err
            },
        r.restarted is Ok ==> forall|i: int|
            0 <= i < m.children.len() ==> (#[trigger] m_after.children[i]).status
                != ChildStatus::Exited,
{
    law_pass(spawner, m, trackers, due, now, m_after, trackers_after, due_after, r);
    let names = crate::passes::expired_names(m.children, due, now);
    let os = decided_by(r.restarted);
    let mid = lemma_before_restarts(
        spawner,
        m,
        trackers,
        due,
        now,
        m_after,
        trackers_after,
        due_after,
        r,
    );
    assert forall|i: int|
        0 <= i < m.children.len() && m.children[i].status
            == ChildStatus::Backoff implies due.contains_key(m.children[i].name) by {
        assert(waits(m.children, m.children[i].name));
    }
    assert forall|i: int|
        0 <= i < m.children.len() && m.children[i].status == ChildStatus::Backoff
            && due[m.children[i].name] > now implies #[trigger] m_after.children[i] == m.children[i]
        && due_after[m.children[i].name] == due[m.children[i].name] by {
        let name = m.children[i].name;
        assert(!expired(m.children[i], due, now));
        assert(before_restarts(m.children[i], due, now, mid.children[i]));
        assert(m_after.children[i] == mid.children[i]);
        lemma_not_expired(m.children, due, now, i);
        assert(without(due, names).contains_key(name));
        lemma_scheduled(without(due, names), os, now, name);
        lemma_scheduled_from(without(due, names), os, now, name);
        lemma_began_to_wait(m, due, now, mid, m_after, r.restarted, i);
    }
    assert forall|i: int|
        0 <= i < m.children.len() && m.children[i].status == ChildStatus::Backoff
            && due[m.children[i].name] <= now implies {
        let d = #[trigger] m_after.children[i];
        ||| d.status == ChildStatus::Running && d.restart_count == one_more(
            m.children[i].restart_count,
        )
        ||| d.status == ChildStatus::Backoff && due_after[m.children[i].name] == now
            + pause_nanos()
        ||| d.status == ChildStatus::Exited && r.restarted is Err
    } by {
        assert(due.contains_key(m.children[i].name));
        assert(expired(m.children[i], due, now));
        assert(before_restarts(m.children[i], due, now, mid.children[i]));
        if is_decided(mid.children[i], m_after.children[i], os) {
            let j = choose|j: int|
                0 <= j < os.len() && slot_matches(
                    mid.children[i],
                    m_after.children[i],
                    #[trigger] os[j],
                );
            assert(slot_matches(mid.children[i], m_after.children[i], os[j]));
        }
    }
    assert forall|name: Seq<char>| #[trigger] due_after.contains_key(name) <==> waits(
        m_after.children,
        name,
    ) by {
        if due_after.contains_key(name) {
            lemma_scheduled_from(without(due, names), os, now, name);
            if begins_to_wait(os, name) {
                lemma_waits_were_exited(mid, m_after, os, name);
                let k = choose|k: int|
                    0 <= k < mid.children.len() && (#[trigger] mid.children[k]).status
                        == ChildStatus::Exited && mid.children[k].name == name
                        && m_after.children[k].status == ChildStatus::Backoff;
                assert(m_after.children[k].name == name);
            } else {
                assert(due.contains_key(name));
                assert(waits(m.children, name));
                let i = choose|i: int|
                    0 <= i < m.children.len() && (#[trigger] m.children[i]).status
                        == ChildStatus::Backoff && m.children[i].name == name;
                if due[name] <= now {
                    lemma_is_expired(m.children, due, now, i);
                }
                assert(m_after.children[i] == m.children[i]);
            }
        }
        if waits(m_after.children, name) {
            let i = choose|i: int|
                0 <= i < m_after.children.len() && (#[trigger] m_after.children[i]).status
                    == ChildStatus::Backoff && m_after.children[i].name == name;
            assert(waits_end(m, due));
            assert(waits_end(m_after, due_after));
        }
    }
}

/// A child that the outcomes say began to wait was exited, and waits.
proof fn lemma_waits_were_exited(
    m: SupervisorModel,
    n: SupervisorModel,
    outcomes: Seq<OutcomeModel>,
    name: Seq<char>,
)
    requires
        outcomes.len() <= exited_names(m.children).len(),
        forall|j: int|
            0 <= j < outcomes.len() ==> outcome_named(
                m,
                n,
                exited_names(m.children)[j],
                #[trigger] outcomes[j],
            ),
        begins_to_wait(outcomes, name),
    ensures
        exists|k: int|
            0 <= k < m.children.len() && (#[trigger] m.children[k]).status == ChildStatus::Exited
                && m.children[k].name == name && n.children[k].status == ChildStatus::Backoff,
{
    let j = choose|j: int|
        0 <= j < outcomes.len() && (#[trigger] outcomes[j]) is EnteredBackoff
            && outcomes[j]->EnteredBackoff_name == name;
    assert(outcome_named(m, n, exited_names(m.children)[j], outcomes[j]));
    let k = choose|k: int|
        0 <= k < m.children.len() && m.children[k].status == ChildStatus::Exited
            && m.children[k].name == exited_names(m.children)[j] && slot_matches(
            m.children[k],
            #[trigger] n.children[k],
            outcomes[j],
        );
    assert(m.children[k].name == name);
}

/// A pass announces exactly the children that began to wait in it, whatever
/// failed in it.
pub proof fn law_waits_are_announced<S: Spawner>(
    spawner: &S,
    m: SupervisorModel,
    trackers: Map<Seq<char>, RestartModel>,
    due: Map<Seq<char>, nat>,
    now: nat,
    m_after: SupervisorModel,
    trackers_after: Map<Seq<char>, RestartModel>,
    due_after: Map<Seq<char>, nat>,
    r: PassReport,
    i: int,
)
    requires
        distinct(m.children),
        pass_run(spawner, m, trackers, due, now, m_after, trackers_after, due_after, r),
        0 <= i < m.children.len(),
    ensures
        announced(r).contains(m.children[i].name) <==> began_to_wait(
            m.children[i],
            due,
            now,
            m_after.children[i],
        ),
{
    let mid = lemma_before_restarts(
        spawner,
        m,
        trackers,
        due,
        now,
        m_after,
        trackers_after,
        due_after,
        r,
    );
    assert(before_restarts(m.children[i], due, now, mid.children[i]));
    lemma_began_to_wait(m, due, now, mid, m_after, r.restarted, i);
    lemma_waiting_of(decided_by(r.restarted), m.children[i].name);
}

/// The children that began to wait are those of which an outcome says so.
proof fn lemma_waiting_of(outcomes: Seq<OutcomeModel>, name: Seq<char>)
    ensures
        waiting_of(outcomes).contains(name) <==> begins_to_wait(outcomes, name),
    decreases outcomes.len(),
{
    if outcomes.len() > 0 {
        let os = outcomes.drop_last();
        let o = outcomes.last();
        let w = waiting_of(outcomes);
        let wr = waiting_of(os);
        lemma_waiting_of(os, name);
        if begins_to_wait(outcomes, name) {
            let j = choose|j: int|
                0 <= j < outcomes.len() && (#[trigger] outcomes[j]) is EnteredBackoff
                    && outcomes[j]->EnteredBackoff_name == name;
            if j < os.len() {
                assert(os[j] == outcomes[j]);
                let k = wr.index_of(name);
                assert(w[k] == name);
            } else {
                assert(w[w.len() - 1] == name);
            }
        }
        if w.contains(name) {
            let k = w.index_of(name);
            if k < wr.len() {
                assert(wr[k] == name);
                let j = choose|j: int|
                    0 <= j < os.len() && (#[trigger] os[j]) is EnteredBackoff
                        && os[j]->EnteredBackoff_name == name;
                assert(outcomes[j] == os[j]);
            } else {
                assert(outcomes[outcomes.len() - 1] == o);
            }
        }
    }
}

} // verus!
