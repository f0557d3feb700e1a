//! What the supervisor remembers of restarts from pass to pass.

use crate::pass_laws::{
    distinct, lemma_exited_names, law_clear_wakes_expired, law_observe_only_ends_running,
    lemma_distinct_kept, lemma_same_shape_transitive,
};
use crate::passes::{all_restart, cleared, counted, decided, exited_names, observe_run, restart_run};
use crate::protocol::SupervisorModel;
use crate::restart::{in_order, law_window_rolls, RestartModel};
use crate::spawn::Spawner;
use crate::supervisor::{
    decided_by, outcomes_of, pass_run, OutcomeModel, PassReport, RestartOutcome, SupervisorError,
};
use vstd::prelude::*;

verus! {

/// Whether a tracker has the fleet's window of a minute, threshold of five
/// restarts and pause of half a minute.
pub open spec fn usual(t: RestartModel) -> bool {
    t.window == 60_000_000_000 && t.threshold == 5 && t.backoff == 30_000_000_000
}

/// Whether a time lies within a minute before `now`.
pub open spec fn recent(now: nat) -> spec_fn(nat) -> bool {
    |t: nat| t + 60_000_000_000 >= now
}

/// A new tracker has counted nothing and has the fleet's window, threshold and
/// pause.
pub proof fn law_new_tracker_is_usual()
    ensures
        usual(RestartModel::fresh()),
        RestartModel::fresh().history.len() == 0,
{
}

/// The name of the child that an outcome is about.
pub open spec fn name_of(o: OutcomeModel) -> Seq<char> {
    match o {
        OutcomeModel::Restarted { name, child_pid, restart_count } => name,
        OutcomeModel::EnteredBackoff { name, restarts_in_window } => name,
    }
}

/// Whether a restart pass with result `r` decided `name`: restarted it, made it
/// wait, or failed to start it.
pub open spec fn tried(
    r: Result<Vec<RestartOutcome>, SupervisorError>,
    name: Seq<char>,
) -> bool {
    ||| exists|j: int| 0 <= j < decided_by(r).len() && name_of(#[trigger] decided_by(r)[j]) == name
    ||| r matches Err(SupervisorError::Restart { child, cause, decided: before }) && child@ == name
}

/// The times counted for `name`; none if it was never counted.
pub open spec fn times_of(trackers: Map<Seq<char>, RestartModel>, name: Seq<char>) -> Seq<nat> {
    if trackers.contains_key(name) {
        trackers[name].history
    } else {
        Seq::empty()
    }
}

/// Whether every tracker is the fleet's and has counted in order up to `now`.
pub open spec fn all_usual(trackers: Map<Seq<char>, RestartModel>, now: nat) -> bool {
    forall|k: Seq<char>| #[trigger]
        trackers.contains_key(k) ==> usual(trackers[k]) && in_order(trackers[k].history, now)
}

proof fn lemma_filter_ext(s: Seq<nat>, p: spec_fn(nat) -> bool, q: spec_fn(nat) -> bool)
    requires
        forall|x: nat| #[trigger] p(x) == q(x),
    ensures
        s.filter(p) == s.filter(q),
    decreases s.len(),
{
    reveal(Seq::filter);
    if s.len() > 0 {
        lemma_filter_ext(s.drop_last(), p, q);
    }
}

proof fn lemma_filter_twice(s: Seq<nat>, p: spec_fn(nat) -> bool, q: spec_fn(nat) -> bool)
    requires
        forall|x: nat| #[trigger] q(x) ==> p(x),
    ensures
        s.filter(p).filter(q) == s.filter(q),
    decreases s.len(),
{
    reveal(Seq::filter);
    if s.len() > 0 {
        lemma_filter_twice(s.drop_last(), p, q);
        let f = s.drop_last().filter(p);
        if p(s.last()) {
            assert(f.push(s.last()).drop_last() == f);
        }
    }
}

proof fn lemma_filter_in_order(s: Seq<nat>, now: nat, p: spec_fn(nat) -> bool)
    requires
        in_order(s, now),
    ensures
        in_order(s.filter(p), now),
        s.len() > 0 ==> in_order(s.filter(p), s.last()),
    decreases s.len(),
{
    reveal(Seq::filter);
    if s.len() > 0 {
        let t = s.drop_last();
        assert(in_order(t, now)) by {
            assert forall|i: int, j: int| 0 <= i <= j < t.len() implies t[i] <= t[j] by {
                assert(s[i] <= s[j]);
            }
            assert forall|i: int| 0 <= i < t.len() implies t[i] <= now by {
                assert(s[i] <= now);
            }
        }
        lemma_filter_in_order(t, now, p);
        if t.len() > 0 {
            assert(s[t.len() - 1] <= s[s.len() - 1]);
        }
        assert(s[s.len() - 1] <= now);
    }
}

/// A tracker that is the fleet's counts a restart at `now`: of the times before
/// it keeps those of the last minute, and `now` comes behind them.
proof fn lemma_counted(trackers: Map<Seq<char>, RestartModel>, name: Seq<char>, now: nat)
    requires
        all_usual(trackers, now),
    ensures
        usual(counted(trackers, name, now)),
        counted(trackers, name, now).history == times_of(trackers, name).filter(
            recent(now),
        ).push(now),
        in_order(counted(trackers, name, now).history, now),
{
    let t = if trackers.contains_key(name) {
        trackers[name]
    } else {
        RestartModel::fresh()
    };
    assert(usual(t) && in_order(t.history, now));
    law_window_rolls(t, now);
    lemma_filter_ext(t.history, |x: nat| x + t.window >= now, recent(now));
    assert(t.history == times_of(trackers, name));
}

/// What some decisions of a restart pass did to the trackers.
proof fn lemma_decided_trackers(
    m: SupervisorModel,
    trackers: Map<Seq<char>, RestartModel>,
    names: Seq<Seq<char>>,
    now: nat,
    pids: Seq<u32>,
)
    requires
        names.no_duplicates(),
        pids.len() <= names.len(),
    ensures
        ({
            let run = decided(m, trackers, names, now, pids);
            &&& run.outcomes.len() == pids.len()
            &&& forall|j: int|
                0 <= j < pids.len() ==> {
                    let o = #[trigger] run.outcomes[j];
                    let t = counted(trackers, names[j], now);
                    &&& name_of(o) == names[j]
                    &&& o is Restarted <==> t.delay() == 0
                    &&& o matches OutcomeModel::EnteredBackoff { name, restarts_in_window }
                        ==> restarts_in_window == t.history.len()
                    &&& run.trackers.contains_key(names[j])
                    &&& run.trackers[names[j]] == t
                }
            &&& forall|k: Seq<char>|
                !names.take(pids.len() as int).contains(k) ==> (#[trigger] run.trackers.contains_key(
                    k,
                ) == trackers.contains_key(k)) && (trackers.contains_key(k) ==> run.trackers[k]
                    == trackers[k])
        }),
    decreases pids.len(),
{
    if pids.len() > 0 {
        let ps = pids.drop_last();
        lemma_decided_trackers(m, trackers, names, now, ps);
        let prev = decided(m, trackers, names, now, ps);
        let run = decided(m, trackers, names, now, pids);
        let n = ps.len() as int;
        let name = names[n];
        assert(!names.take(n).contains(name)) by {
            if names.take(n).contains(name) {
                let i = names.take(n).index_of(name);
                assert(names[i] == names[n]);
            }
        }
        assert(prev.trackers.contains_key(name) == trackers.contains_key(name));
        assert(counted(prev.trackers, name, now) == counted(trackers, name, now));
        assert(names.take(n + 1) == names.take(n).push(name));
        assert forall|j: int| 0 <= j < pids.len() implies {
            let o = #[trigger] run.outcomes[j];
            let t = counted(trackers, names[j], now);
            &&& name_of(o) == names[j]
            &&& o is Restarted <==> t.delay() == 0
            &&& o matches OutcomeModel::EnteredBackoff { name, restarts_in_window }
                ==> restarts_in_window == t.history.len()
            &&& run.trackers.contains_key(names[j])
            &&& run.trackers[names[j]] == t
        } by {
            if j < n {
                assert(run.outcomes[j] == prev.outcomes[j]);
                assert(names[j] != names[n]);
                assert(run.trackers.contains_key(names[j]));
            }
        }
        assert(pids.len() == n + 1);
        assert forall|k: Seq<char>| !names.take(pids.len() as int).contains(k) implies (
        #[trigger] run.trackers.contains_key(k) == trackers.contains_key(k)) && (
        trackers.contains_key(k) ==> run.trackers[k] == trackers[k]) by {
            assert(!names.take(n + 1).contains(k));
            if names.take(n).contains(k) {
                let i = names.take(n).index_of(k);
                assert(names.take(n + 1)[i] == k);
            }
            assert(names.take(n + 1)[n] == name);
            assert(prev.trackers.contains_key(k) == trackers.contains_key(k));
        }
    }
}

/// What a restart pass at `now` with result `r` does to the trackers. A child
/// that it tried has `now` counted behind the times of the last minute, be it
/// restarted, made to wait, or not started; every other tracker stays as it was.
/// A child whose count comes to five or more is not started but waits; one with
/// fewer is not made to wait.
pub open spec fn restarts_counted(
    trackers: Map<Seq<char>, RestartModel>,
    now: nat,
    after: Map<Seq<char>, RestartModel>,
    r: Result<Vec<RestartOutcome>, SupervisorError>,
) -> bool {
    &&& forall|k: Seq<char>|
        #![trigger after.contains_key(k)]
        #![trigger tried(r, k)]
        if tried(r, k) {
            &&& after.contains_key(k)
            &&& usual(after[k])
            &&& after[k].history == times_of(trackers, k).filter(recent(now)).push(now)
        } else {
            &&& after.contains_key(k) == trackers.contains_key(k)
            &&& trackers.contains_key(k) ==> after[k] == trackers[k]
        }
    &&& forall|j: int|
        0 <= j < decided_by(r).len() ==> match #[trigger] decided_by(r)[j] {
            OutcomeModel::Restarted { name, child_pid, restart_count } => times_of(
                after,
                name,
            ).len() < 5,
            OutcomeModel::EnteredBackoff { name, restarts_in_window } => restarts_in_window
                == times_of(after, name).len() && restarts_in_window >= 5,
        }
    &&& r matches Err(SupervisorError::Restart { child, cause, decided: before }) ==> times_of(
        after,
        child@,
    ).len() < 5
}

/// A restart pass counts every restart that it tries and forgets none: it does
/// to the trackers what `restarts_counted` says.
pub proof fn law_restarts_are_counted<S: Spawner>(
    spawner: &S,
    m: SupervisorModel,
    trackers: Map<Seq<char>, RestartModel>,
    now: nat,
    n: SupervisorModel,
    after: Map<Seq<char>, RestartModel>,
    r: Result<Vec<RestartOutcome>, SupervisorError>,
)
    requires
        distinct(m.children),
        all_usual(trackers, now),
        restart_run(spawner, m, trackers, now, n, after, r),
    ensures
        restarts_counted(trackers, now, after, r),
        all_usual(after, now),
{
    let names = exited_names(m.children);
    let os = decided_by(r);
    let pids = choose|pids: Seq<u32>| #[trigger]
        all_restart(spawner, m, trackers, now, pids) && {
            let run = decided(m, trackers, names, now, pids);
            &&& n == run.view
            &&& match r {
                Ok(outcomes) => {
                    &&& pids.len() == names.len()
                    &&& after == run.trackers
                    &&& outcomes_of(outcomes@) == run.outcomes
                },
                Err(e) => {
                    &&& pids.len() < names.len()
                    &&& run.due(names[pids.len() as int], now)
                    &&& after == run.trackers.insert(
                        names[pids.len() as int],
                        counted(run.trackers, names[pids.len() as int], now),
                    )
                    &&& e matches SupervisorError::Restart { child, cause, decided: before }
                    &&& outcomes_of(before@) == run.outcomes
                    &&& child@ == names[pids.len() as int]
                },
            }
        };
    lemma_exited_names(m.children);
    lemma_decided_trackers(m, trackers, names, now, pids);
    let run = decided(m, trackers, names, now, pids);
    let k0 = pids.len() as int;
    assert(os == run.outcomes);
    if r is Err {
        let name = names[k0];
        assert(!names.take(k0).contains(name)) by {
            if names.take(k0).contains(name) {
                let i = names.take(k0).index_of(name);
                assert(names[i] == names[k0]);
            }
        }
        assert(run.trackers.contains_key(name) == trackers.contains_key(name));
        assert(counted(run.trackers, name, now) == counted(trackers, name, now));
        lemma_counted(trackers, name, now);
        assert(tried(r, name));
    }
    assert forall|k: Seq<char>| tried(r, k) <==> names.take(k0).contains(k) || (r is Err && k
        == names[k0]) by {
        if names.take(k0).contains(k) {
            let i = names.take(k0).index_of(k);
            assert(name_of(os[i]) == k);
        }
        if exists|j: int| 0 <= j < os.len() && name_of(#[trigger] os[j]) == k {
            let j = choose|j: int| 0 <= j < os.len() && name_of(#[trigger] os[j]) == k;
            assert(names.take(k0)[j] == k);
        }
    }
    assert forall|k: Seq<char>|
        #![trigger after.contains_key(k)]
        #![trigger tried(r, k)]
        if tried(r, k) {
            &&& after.contains_key(k)
            &&& usual(after[k])
            &&& after[k].history == times_of(trackers, k).filter(recent(now)).push(now)
            &&& in_order(after[k].history, now)
        } else {
            &&& after.contains_key(k) == trackers.contains_key(k)
            &&& trackers.contains_key(k) ==> after[k] == trackers[k]
        } by {
        lemma_counted(trackers, k, now);
        if names.take(k0).contains(k) {
            let i = names.take(k0).index_of(k);
            assert(names[i] == k);
            assert(run.trackers[names[i]] == counted(trackers, names[i], now)) by {
                assert(name_of(run.outcomes[i]) == names[i]);
            }
        } else if !(r is Err && k == names[k0]) {
            assert(run.trackers.contains_key(k) == trackers.contains_key(k));
        }
    }
    assert forall|j: int| 0 <= j < os.len() implies match #[trigger] os[j] {
        OutcomeModel::Restarted { name, child_pid, restart_count } => times_of(after, name).len()
            < 5,
        OutcomeModel::EnteredBackoff { name, restarts_in_window } => restarts_in_window == times_of(
            after,
            name,
        ).len() && restarts_in_window >= 5,
    } by {
        let name = names[j];
        lemma_counted(trackers, name, now);
        assert(name_of(run.outcomes[j]) == name);
        assert(names.take(k0)[j] == name);
        assert(tried(r, name));
        if r is Err {
            assert(names[j] != names[k0]);
        }
        assert(after[name] == counted(trackers, name, now));
    }
    assert forall|k: Seq<char>| #[trigger] after.contains_key(k) implies usual(after[k]) && in_order(
        after[k].history,
        now,
    ) by {
        if !tried(r, k) {
            assert(trackers.contains_key(k));
        }
    }
}

/// Whether a tracker remembers the restarts at the times of `log`: it holds
/// exactly those of the minute before the last of them.
pub open spec fn remembers(t: RestartModel, log: Seq<nat>) -> bool {
    &&& usual(t)
    &&& log.len() > 0
    &&& in_order(log, log.last())
    &&& t.history == log.filter(recent(log.last()))
}

/// Whether the trackers remember all passes that tried a child, whose times are
/// in `logs`.
pub open spec fn all_remember(
    trackers: Map<Seq<char>, RestartModel>,
    logs: Map<Seq<char>, Seq<nat>>,
) -> bool {
    forall|k: Seq<char>|
        #![trigger trackers.contains_key(k)]
        #![trigger logs.contains_key(k)]
        trackers.contains_key(k) == logs.contains_key(k) && (trackers.contains_key(k) ==> remembers(
            trackers[k],
            logs[k],
        ))
}

/// The times at which passes tried each child, after one more at `now`.
pub open spec fn logged(
    logs: Map<Seq<char>, Seq<nat>>,
    now: nat,
    r: Result<Vec<RestartOutcome>, SupervisorError>,
) -> Map<Seq<char>, Seq<nat>> {
    Map::new(
        |k: Seq<char>| logs.contains_key(k) || tried(r, k),
        |k: Seq<char>|
            if !tried(r, k) {
                logs[k]
            } else if logs.contains_key(k) {
                logs[k].push(now)
            } else {
                seq![now]
            },
    )
}

/// Over any sequence of passes the trackers hold exactly the times, of all
/// passes that tried a child, that lie within the minute before the last of
/// them: they do at the start, when nothing was tried, and one more pass keeps it
/// so. Hence a child that was tried five or more times in the last minute, this
/// time included, is not started.
pub proof fn law_trackers_remember_all_passes<S: Spawner>(
    spawner: &S,
    m: SupervisorModel,
    trackers: Map<Seq<char>, RestartModel>,
    due: Map<Seq<char>, nat>,
    now: nat,
    m_after: SupervisorModel,
    after: Map<Seq<char>, RestartModel>,
    due_after: Map<Seq<char>, nat>,
    r: PassReport,
    logs: Map<Seq<char>, Seq<nat>>,
)
    requires
        distinct(m.children),
        pass_run(spawner, m, trackers, due, now, m_after, after, due_after, r),
        all_remember(trackers, logs),
        forall|k: Seq<char>| #[trigger] logs.contains_key(k) ==> logs[k].last() <= now,
    ensures
        all_remember(Map::empty(), Map::empty()),
        all_remember(after, logged(logs, now, r.restarted)),
        forall|k: Seq<char>| #[trigger]
            logged(logs, now, r.restarted).contains_key(k) ==> logged(
                logs,
                now,
                r.restarted,
            )[k].last() <= now,
        restarts_counted(trackers, now, after, r.restarted),
        forall|j: int|
            0 <= j < decided_by(r.restarted).len() ==> match #[trigger] decided_by(r.restarted)[j] {
                OutcomeModel::Restarted { name, child_pid, restart_count } => logged(
                    logs,
                    now,
                    r.restarted,
                )[name].filter(recent(now)).len() < 5,
                OutcomeModel::EnteredBackoff { name, restarts_in_window } => logged(
                    logs,
                    now,
                    r.restarted,
                )[name].filter(recent(now)).len() >= 5,
            },
{
    let c = cleared(m, due, now);
    let mid = choose|mid: SupervisorModel|
        {
            &&& #[trigger] observe_run(spawner, c, mid, r.observed)
            &&& restart_run(spawner, mid, trackers, now, m_after, after, r.restarted)
        };
    law_clear_wakes_expired(m, due, now);
    law_observe_only_ends_running(spawner, c, mid, r.observed);
    lemma_same_shape_transitive(m, c, mid);
    lemma_distinct_kept(m, mid);
    assert forall|k: Seq<char>| #[trigger] trackers.contains_key(k) implies usual(trackers[k])
        && in_order(trackers[k].history, now) by {
        assert(logs.contains_key(k));
        lemma_filter_in_order(logs[k], logs[k].last(), recent(logs[k].last()));
        lemma_in_order_later(trackers[k].history, logs[k].last(), now);
    }
    law_restarts_are_counted(spawner, mid, trackers, now, m_after, after, r.restarted);
    let next = logged(logs, now, r.restarted);
    assert forall|k: Seq<char>|
        #![trigger after.contains_key(k)]
        #![trigger next.contains_key(k)]
        after.contains_key(k) == next.contains_key(k) && (after.contains_key(k) ==> remembers(
            after[k],
            next[k],
        )) && (next.contains_key(k) ==> next[k].last() <= now) by {
        assert(trackers.contains_key(k) == logs.contains_key(k));
        if tried(r.restarted, k) {
            assert(after.contains_key(k));
            if logs.contains_key(k) {
                lemma_remembers_more(trackers[k], logs[k], now);
            } else {
                lemma_remembers_first(now);
                assert(Seq::<nat>::empty().filter(recent(now)) == Seq::<nat>::empty()) by {
                    reveal(Seq::filter);
                }
                assert(times_of(trackers, k).filter(recent(now)).push(now) == seq![now]);
            }
        }
    }
    assert forall|j: int| 0 <= j < decided_by(r.restarted).len() implies match #[trigger] decided_by(
        r.restarted,
    )[j] {
        OutcomeModel::Restarted { name, child_pid, restart_count } => next[name].filter(
            recent(now),
        ).len() < 5,
        OutcomeModel::EnteredBackoff { name, restarts_in_window } => next[name].filter(
            recent(now),
        ).len() >= 5,
    } by {
        let name = name_of(decided_by(r.restarted)[j]);
        assert(tried(r.restarted, name));
        assert(after.contains_key(name));
        assert(next.contains_key(name));
        assert(next[name].last() == now);
    }
}

proof fn lemma_in_order_later(s: Seq<nat>, a: nat, b: nat)
    requires
        in_order(s, a),
        a <= b,
    ensures
        in_order(s, b),
{
    assert forall|i: int| 0 <= i < s.len() implies s[i] <= b by {
        assert(s[i] <= a);
    }
}

proof fn lemma_remembers_first(now: nat)
    ensures
        in_order(seq![now], now),
        seq![now].filter(recent(now)) == seq![now],
{
    reveal(Seq::filter);
    let s = seq![now];
    assert(s.drop_last() == Seq::<nat>::empty());
    assert(s.drop_last().filter(recent(now)) == Seq::<nat>::empty());
    assert(recent(now)(s.last()));
    assert(s.drop_last().filter(recent(now)).push(now) == s);
}

proof fn lemma_remembers_more(t: RestartModel, log: Seq<nat>, now: nat)
    requires
        remembers(t, log),
        log.last() <= now,
    ensures
        in_order(log.push(now), now),
        log.push(now).filter(recent(now)) == t.history.filter(recent(now)).push(now),
{
    let l = log.push(now);
    lemma_in_order_later(log, log.last(), now);
    assert forall|i: int, j: int| 0 <= i <= j < l.len() implies l[i] <= l[j] by {
        if j < log.len() {
            assert(log[i] <= log[j]);
        } else if i < log.len() {
            assert(log[i] <= now);
        }
    }
    assert forall|i: int| 0 <= i < l.len() implies l[i] <= now by {
        if i < log.len() {
            assert(log[i] <= now);
        }
    }
    assert forall|x: nat| #[trigger] recent(now)(x) implies recent(log.last())(x) by {}
    lemma_filter_twice(log, recent(log.last()), recent(now));
    assert(l.drop_last() == log);
    assert(recent(now)(l.last()));
    reveal(Seq::filter);
}

} // verus!
