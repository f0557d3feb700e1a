//! What observing does to each child, and in which order a pass goes.

use crate::fleet::ChildSpecModel;
use crate::number::decimal_of;
use crate::pass_laws::{
    distinct, lemma_distinct_kept, lemma_observed, lemma_running_pids, listed, runs_as_listed,
};
use crate::passes::{
    all_probe, exited, exited_names, expired_names, first_running, lemma_first_running, lost,
    observe_run, observed, running, running_pids, started, starting,
};
use crate::protocol::{ChildModel, ChildStatus, SupervisorModel};
use crate::spawn::{probes, Spawner};
use crate::supervisor::SupervisorError;
use crate::text::texts;
use vstd::prelude::*;

verus! {

/// What a pass goes through is in the order of the children: the running ones
/// with a process are probed, the exited ones are decided, and the waiting ones
/// whose time has come are woken, each where it stands.
pub proof fn law_passes_follow_the_order_of_children(
    cs: Seq<ChildModel>,
    c: ChildModel,
    due: Map<Seq<char>, nat>,
    now: nat,
)
    ensures
        running_pids(cs.push(c)) == match c.child_pid {
            Some(pid) if c.status == ChildStatus::Running => running_pids(cs).push((c.name, pid)),
            _ => running_pids(cs),
        },
        exited_names(cs.push(c)) == if c.status == ChildStatus::Exited {
            exited_names(cs).push(c.name)
        } else {
            exited_names(cs)
        },
        expired_names(cs.push(c), due, now) == if c.status == ChildStatus::Backoff
            && due.contains_key(c.name) && due[c.name] <= now {
            expired_names(cs, due, now).push(c.name)
        } else {
            expired_names(cs, due, now)
        },
        running_pids(Seq::empty()).len() == 0,
        exited_names(Seq::empty()).len() == 0,
        expired_names(Seq::empty(), due, now).len() == 0,
{
    assert(cs.push(c).drop_last() == cs);
}

/// Children are started one after another: each is first marked as starting and,
/// once it was started, as running.
pub proof fn law_children_are_started_one_by_one(
    m: SupervisorModel,
    specs: Seq<ChildSpecModel>,
    pids: Seq<u32>,
    pid: u32,
)
    requires
        pids.len() < specs.len(),
    ensures
        started(m, specs, Seq::empty()) == m,
        ({
            let name = specs[pids.len() as int].name;
            started(m, specs, pids.push(pid)) == running(
                starting(started(m, specs, pids), name),
                name,
                pid,
            )
        }),
{
    assert(pids.push(pid).drop_last() == pids);
}

/// The children that were found gone are named in the order of the probes.
pub proof fn law_gone_children_are_named_in_order(
    m: SupervisorModel,
    list: Seq<(Seq<char>, u32)>,
    alive: Seq<bool>,
    a: bool,
)
    requires
        alive.len() < list.len(),
    ensures
        lost(m, list, Seq::empty()).len() == 0,
        observed(m, list, Seq::empty()) == m,
        a ==> lost(m, list, alive.push(a)) == lost(m, list, alive) && observed(
            m,
            list,
            alive.push(a),
        ) == observed(m, list, alive),
        ({
            let (name, pid) = list[alive.len() as int];
            let p = observed(m, list, alive);
            let found = first_running(p.children, name) < p.children.len();
            &&& !a ==> observed(m, list, alive.push(a)) == exited(p, name, pid)
            &&& !a && found ==> lost(m, list, alive.push(a)) == lost(m, list, alive).push(name)
            &&& !a && !found ==> lost(m, list, alive.push(a)) == lost(m, list, alive)
        }),
{
    assert(alive.push(a).drop_last() == alive);
}

/// A child that was found gone: it is exited, and says which process was lost.
pub open spec fn gone(c: ChildModel, pid: u32) -> ChildModel {
    ChildModel {
        status: ChildStatus::Exited,
        last_event: Some("exited (lost pid "@ + decimal_of(pid as nat) + ")"@),
        ..c
    }
}

/// The names that are probed are distinct.
proof fn lemma_probed_once(cs: Seq<ChildModel>)
    requires
        distinct(cs),
    ensures
        forall|a: int, b: int|
            0 <= a < b < running_pids(cs).len() ==> (#[trigger] running_pids(cs)[a]).0 != (
            #[trigger] running_pids(cs)[b]).0,
    decreases cs.len(),
{
    if cs.len() > 0 {
        let rest = cs.drop_last();
        let l = running_pids(cs);
        let lr = running_pids(rest);
        assert(distinct(rest)) by {
            assert forall|i: int, j: int| 0 <= i < j < rest.len() implies (#[trigger] rest[i]).name
                != (#[trigger] rest[j]).name by {
                assert(cs[i].name != cs[j].name);
            }
        }
        lemma_probed_once(rest);
        lemma_running_pids(rest);
        assert forall|a: int, b: int| 0 <= a < b < l.len() implies (#[trigger] l[a]).0 != (
        #[trigger] l[b]).0 by {
            assert(l[a] == lr[a]);
            if b < lr.len() {
                assert(l[b] == lr[b]);
            } else {
                assert(runs_as_listed(rest, lr[a]));
                let i = choose|i: int|
                    0 <= i < rest.len() && (#[trigger] rest[i]).status == ChildStatus::Running
                        && rest[i].name == lr[a].0 && rest[i].child_pid == Some(lr[a].1);
                assert(rest[i] == cs[i]);
                assert(cs[i].name != cs[cs.len() - 1].name);
            }
        }
    }
}

/// Whether the probes of `list` that were answered made `d` of `c`.
pub open spec fn answered_slot(
    c: ChildModel,
    list: Seq<(Seq<char>, u32)>,
    alive: Seq<bool>,
    d: ChildModel,
) -> bool {
    ||| d == c && forall|k: int|
        0 <= k < alive.len() && (#[trigger] list[k]).0 == c.name ==> alive[k]
    ||| exists|k: int|
        0 <= k < alive.len() && !alive[k] && (#[trigger] list[k]).0 == c.name && c.status
            == ChildStatus::Running && c.child_pid == Some(list[k].1) && d == gone(c, list[k].1)
}

proof fn lemma_answered(
    m: SupervisorModel,
    list: Seq<(Seq<char>, u32)>,
    alive: Seq<bool>,
)
    requires
        distinct(m.children),
        list == running_pids(m.children),
        alive.len() <= list.len(),
    ensures
        forall|i: int|
            0 <= i < m.children.len() ==> answered_slot(
                m.children[i],
                list,
                alive,
                #[trigger] observed(m, list, alive).children[i],
            ),
        forall|k: int|
            0 <= k < alive.len() ==> (lost(m, list, alive).contains((#[trigger] list[k]).0)
                <==> !alive[k]),
    decreases alive.len(),
{
    lemma_probed_once(m.children);
    lemma_running_pids(m.children);
    lemma_observed(m, list, alive);
    if alive.len() > 0 {
        let before = alive.drop_last();
        lemma_answered(m, list, before);
        lemma_observed(m, list, before);
        let p = observed(m, list, before);
        let n = observed(m, list, alive);
        let last = before.len() as int;
        let (name, pid) = list[last];
        lemma_distinct_kept(m, p);
        assert(runs_as_listed(m.children, list[last]));
        let at = choose|i: int|
            0 <= i < m.children.len() && (#[trigger] m.children[i]).status == ChildStatus::Running
                && m.children[i].name == name && m.children[i].child_pid == Some(pid);
        assert(answered_slot(m.children[at], list, before, p.children[at]));
        assert(p.children[at] == m.children[at]) by {
            if exists|k: int|
                0 <= k < before.len() && !before[k] && (#[trigger] list[k]).0 == m.children[at].name {
                let k = choose|k: int|
                    0 <= k < before.len() && !before[k] && (#[trigger] list[k]).0
                        == m.children[at].name;
                assert(list[k].0 != list[last].0);
            }
        }
        lemma_first_running(p.children, name);
        let f = first_running(p.children, name);
        assert(f == at) by {
            if f < at {
                assert(p.children[f].name != p.children[at].name);
            } else if f > at {
                assert(!(p.children[at].name == name));
            }
        }
        assert forall|i: int| 0 <= i < m.children.len() implies answered_slot(
            m.children[i],
            list,
            alive,
            #[trigger] n.children[i],
        ) by {
            let c = m.children[i];
            assert(answered_slot(c, list, before, p.children[i]));
            if i == at {
                assert(list[last].0 == c.name);
                if alive[last] {
                    assert(n.children[i] == c);
                    assert forall|k: int|
                        0 <= k < alive.len() && (#[trigger] list[k]).0 == c.name implies alive[k] by {
                        if k < last {
                            assert(list[k].0 != list[last].0);
                        }
                    }
                } else {
                    assert(n.children[i] == gone(c, pid));
                }
            } else {
                assert(n.children[i] == p.children[i]);
                if i < at {
                    assert(m.children[i].name != m.children[at].name);
                } else {
                    assert(m.children[at].name != m.children[i].name);
                }
                if n.children[i] == c && forall|k: int|
                    0 <= k < before.len() && (#[trigger] list[k]).0 == c.name ==> before[k] {
                    assert forall|k: int|
                        0 <= k < alive.len() && (#[trigger] list[k]).0 == c.name implies alive[k] by {
                        assert(k < last);
                        assert(before[k] == alive[k]);
                    }
                } else {
                    let k = choose|k: int|
                        0 <= k < before.len() && !before[k] && (#[trigger] list[k]).0 == c.name
                            && c.status == ChildStatus::Running && c.child_pid == Some(list[k].1)
                            && p.children[i] == gone(c, list[k].1);
                    assert(!alive[k]);
                }
            }
        }
        let was = lost(m, list, before);
        let now = lost(m, list, alive);
        lemma_lost_were_probed(m, list, before);
        assert(now == if alive[last] {
            was
        } else {
            was.push(name)
        });
        assert forall|k: int| 0 <= k < alive.len() implies (now.contains((#[trigger] list[k]).0)
            <==> !alive[k]) by {
            if k < last {
                assert(before[k] == alive[k]);
                assert(list[k].0 != list[last].0);
                if was.contains(list[k].0) {
                    let j = was.index_of(list[k].0);
                    assert(now[j] == list[k].0);
                }
                if now.contains(list[k].0) {
                    let j = now.index_of(list[k].0);
                    assert(was[j] == list[k].0);
                }
            } else if alive[last] {
                if was.contains(name) {
                    let j = was.index_of(name);
                    let b = choose|b: int| 0 <= b < before.len() && (#[trigger] list[b]).0 == was[j];
                    assert(list[b].0 != list[last].0);
                }
            } else {
                assert(now[now.len() - 1] == name);
            }
        }
    }
}

/// Only what was probed was found gone.
proof fn lemma_lost_were_probed(m: SupervisorModel, list: Seq<(Seq<char>, u32)>, alive: Seq<bool>)
    requires
        alive.len() <= list.len(),
    ensures
        forall|j: int|
            0 <= j < lost(m, list, alive).len() ==> exists|b: int|
                0 <= b < alive.len() && (#[trigger] list[b]).0 == #[trigger] lost(m, list, alive)[j],
    decreases alive.len(),
{
    if alive.len() > 0 {
        let before = alive.drop_last();
        lemma_lost_were_probed(m, list, before);
        let was = lost(m, list, before);
        let now = lost(m, list, alive);
        assert forall|j: int| 0 <= j < now.len() implies exists|b: int|
            0 <= b < alive.len() && (#[trigger] list[b]).0 == #[trigger] now[j] by {
            if j < was.len() {
                let b = choose|b: int| 0 <= b < before.len() && (#[trigger] list[b]).0 == was[j];
                assert(list[b].0 == now[j]);
            } else {
                assert(list[alive.len() - 1].0 == now[j]);
            }
        }
    }
}

/// An observation ends exactly the running children whose process was said to be
/// gone, and names them; a child whose process was said to run stays as it is,
/// like every child that was not running. It goes on to the end, or to the first
/// process that could not be asked about, which the error names.
pub proof fn law_observe_ends_what_is_gone<S: Spawner>(
    spawner: &S,
    m: SupervisorModel,
    n: SupervisorModel,
    r: Result<Vec<String>, SupervisorError>,
)
    requires
        distinct(m.children),
        observe_run(spawner, m, n, r),
    ensures
        forall|i: int|
            0 <= i < m.children.len() ==> {
                let c = m.children[i];
                let d = #[trigger] n.children[i];
                ||| d == c
                ||| c.status == ChildStatus::Running && c.child_pid is Some && probes(
                    spawner,
                    c.child_pid->0,
                    Ok(false),
                ) && d == gone(c, c.child_pid->0)
            },
        r matches Ok(names) ==> forall|i: int|
            0 <= i < m.children.len() && m.children[i].status == ChildStatus::Running
                && m.children[i].child_pid is Some ==> {
                let c = m.children[i];
                let d = #[trigger] n.children[i];
                ||| d == c && probes(spawner, c.child_pid->0, Ok(true)) && !texts(names@).contains(
                    c.name,
                )
                ||| d == gone(c, c.child_pid->0) && probes(spawner, c.child_pid->0, Ok(false))
                    && texts(names@).contains(c.name)
            },
        r matches Err(e) ==> match e {
            SupervisorError::Probe { child, pid, cause } => probes(spawner, pid, Err(cause))
                && runs_as_listed(m.children, (child@, pid)),
            _ => false,
        },
{
    let list = running_pids(m.children);
    let alive = choose|alive: Seq<bool>| #[trigger]
        all_probe(spawner, list, alive) && n == observed(m, list, alive) && match r {
            Ok(names) => alive.len() == list.len() && texts(names@) == lost(m, list, alive),
            Err(e) => {
                &&& alive.len() < list.len()
                &&& e matches SupervisorError::Probe { child, pid, cause }
                &&& child@ == list[alive.len() as int].0
                &&& pid == list[alive.len() as int].1
                &&& probes(spawner, pid, Err(cause))
            },
        };
    lemma_answered(m, list, alive);
    lemma_running_pids(m.children);
    lemma_probed_once(m.children);
    lemma_observed(m, list, alive);
    assert forall|i: int| 0 <= i < m.children.len() implies {
        let c = m.children[i];
        let d = #[trigger] n.children[i];
        ||| d == c
        ||| c.status == ChildStatus::Running && c.child_pid is Some && probes(
            spawner,
            c.child_pid->0,
            Ok(false),
        ) && d == gone(c, c.child_pid->0)
    } by {
        let c = m.children[i];
        assert(answered_slot(c, list, alive, n.children[i]));
        if n.children[i] != c {
            let k = choose|k: int|
                0 <= k < alive.len() && !alive[k] && (#[trigger] list[k]).0 == c.name && c.status
                    == ChildStatus::Running && c.child_pid == Some(list[k].1) && n.children[i]
                    == gone(c, list[k].1);
            assert(probes(spawner, list[k].1, Ok(alive[k])));
        }
    }
    if let Ok(names) = r {
        assert forall|i: int|
            0 <= i < m.children.len() && m.children[i].status == ChildStatus::Running
                && m.children[i].child_pid is Some implies {
            let c = m.children[i];
            let d = #[trigger] n.children[i];
            ||| d == c && probes(spawner, c.child_pid->0, Ok(true)) && !texts(names@).contains(
                c.name,
            )
            ||| d == gone(c, c.child_pid->0) && probes(spawner, c.child_pid->0, Ok(false)) && texts(
                names@,
            ).contains(c.name)
        } by {
            let c = m.children[i];
            assert(answered_slot(c, list, alive, n.children[i]));
            assert(listed(list, (c.name, c.child_pid->0)));
            let k = choose|k: int|
                0 <= k < list.len() && #[trigger] list[k] == (c.name, c.child_pid->0);
            assert(probes(spawner, list[k].1, Ok(alive[k])));
            assert(lost(m, list, alive).contains(list[k].0) <==> !alive[k]);
            if !alive[k] {
                let j = choose|j: int|
                    0 <= j < alive.len() && !alive[j] && (#[trigger] list[j]).0 == c.name;
                assert(list[j].0 == list[k].0);
            } else if exists|j: int|
                0 <= j < alive.len() && !alive[j] && (#[trigger] list[j]).0 == c.name {
                let j = choose|j: int|
                    0 <= j < alive.len() && !alive[j] && (#[trigger] list[j]).0 == c.name;
                if j < k {
                    assert(list[j].0 != list[k].0);
                } else if k < j {
                    assert(list[k].0 != list[j].0);
                }
            }
        }
    } else {
        assert(runs_as_listed(m.children, list[alive.len() as int]));
    }
}

} // verus!
