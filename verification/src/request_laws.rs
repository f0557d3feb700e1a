//! What holds of single changes to a snapshot, of replies and of launches.

use crate::clock::Instant;
use crate::escalation::failing_since_of;
use crate::files::{child_log_path_of, reads, FileRead, FileReadModel};
use crate::fleet::ChildSpecModel;
use crate::logs::tail_of;
use crate::number::decimal_of;
use crate::passes::{
    backed_off, exited, expired_names, first_named, first_running, lemma_first_named,
    lemma_first_running, restart_number, restarted_as, running, scheduled, starting,
};
use crate::protocol::{ChildModel, ChildStatus, Request, ResponseModel, SupervisorModel};
use crate::restart::RestartModel;
use crate::spawn::{
    debug_of, parses, LaunchOutcome, PeventRunReply, PeventSpawner, SpawnError, Spawner,
    StartedChild,
};
use crate::supervisor::{
    announced, announces, answered, decided_by, pass_run, reply_to, state_after, waiting_of,
    without, BackoffEvent, OutcomeModel, PassReport,
};
use crate::text::{texts, trim_of};
use vstd::prelude::*;

verus! {

// ---------------------------------------------------------------------------
// Slots
// ---------------------------------------------------------------------------

/// Whether no child is called `name`.
pub open spec fn unnamed(cs: Seq<ChildModel>, name: Seq<char>) -> bool {
    forall|i: int| 0 <= i < cs.len() ==> (#[trigger] cs[i]).name != name
}

/// Whether no running child is called `name`.
pub open spec fn none_runs(cs: Seq<ChildModel>, name: Seq<char>) -> bool {
    forall|i: int|
        0 <= i < cs.len() ==> !((#[trigger] cs[i]).name == name && cs[i].status
            == ChildStatus::Running)
}

proof fn lemma_named_at(before: Seq<ChildModel>, c: ChildModel, behind: Seq<ChildModel>)
    requires
        unnamed(before, c.name),
    ensures
        first_named(before.push(c) + behind, c.name) == before.len(),
{
    let cs = before.push(c) + behind;
    lemma_first_named(cs, c.name);
    let k = first_named(cs, c.name);
    assert(cs[before.len() as int] == c);
    if k < before.len() {
        assert(before[k].name == c.name);
    } else if k > before.len() {
        assert(cs[before.len() as int].name != c.name);
    }
}

proof fn lemma_running_at(before: Seq<ChildModel>, c: ChildModel, behind: Seq<ChildModel>)
    requires
        none_runs(before, c.name),
        c.status == ChildStatus::Running,
    ensures
        first_running(before.push(c) + behind, c.name) == before.len(),
{
    let cs = before.push(c) + behind;
    lemma_first_running(cs, c.name);
    let k = first_running(cs, c.name);
    assert(cs[before.len() as int] == c);
    if k < before.len() {
        assert(before[k].name == c.name && before[k].status == ChildStatus::Running);
    } else if k > before.len() {
        assert(!(cs[before.len() as int].name == c.name));
    }
}

/// The snapshot `m` with these children.
pub open spec fn of_children(m: SupervisorModel, cs: Seq<ChildModel>) -> SupervisorModel {
    SupervisorModel { children: cs, ..m }
}

/// A change to a child is made in the first slot of that name and nowhere else, and
/// of that slot it changes the state, the process, the count and the last event as
/// far as they are concerned, and nothing else.
pub proof fn law_changes_touch_one_slot(
    m: SupervisorModel,
    before: Seq<ChildModel>,
    c: ChildModel,
    behind: Seq<ChildModel>,
    pid: u32,
    n: nat,
)
    requires
        unnamed(before, c.name),
    ensures
        starting(of_children(m, before.push(c) + behind), c.name) == of_children(
            m,
            before.push(
                ChildModel {
                    status: ChildStatus::Starting,
                    last_event: Some("starting"@),
                    ..c
                },
            ) + behind,
        ),
        running(of_children(m, before.push(c) + behind), c.name, pid) == of_children(
            m,
            before.push(
                ChildModel {
                    status: ChildStatus::Running,
                    child_pid: Some(pid),
                    last_event: Some("running pid="@ + decimal_of(pid as nat)),
                    ..c
                },
            ) + behind,
        ),
        backed_off(of_children(m, before.push(c) + behind), c.name, n) == of_children(
            m,
            before.push(
                ChildModel {
                    status: ChildStatus::Backoff,
                    last_event: Some("backoff ("@ + decimal_of(n) + " restarts in window)"@),
                    ..c
                },
            ) + behind,
        ),
{
    lemma_named_at(before, c, behind);
    let cs = before.push(c) + behind;
    let k = before.len() as int;
    assert(cs[k] == c);
    let a = ChildModel { status: ChildStatus::Starting, last_event: Some("starting"@), ..c };
    assert(cs.update(k, a) == before.push(a) + behind);
    let b = ChildModel {
        status: ChildStatus::Running,
        child_pid: Some(pid),
        last_event: Some("running pid="@ + decimal_of(pid as nat)),
        ..c
    };
    assert(cs.update(k, b) == before.push(b) + behind);
    let d = ChildModel {
        status: ChildStatus::Backoff,
        last_event: Some("backoff ("@ + decimal_of(n) + " restarts in window)"@),
        ..c
    };
    assert(cs.update(k, d) == before.push(d) + behind);
}

/// A restart is counted in the first slot of that name, up to the largest count,
/// and the slot says which restart it was.
pub proof fn law_restart_is_counted_in_its_slot(
    m: SupervisorModel,
    before: Seq<ChildModel>,
    c: ChildModel,
    behind: Seq<ChildModel>,
    pid: u32,
)
    requires
        unnamed(before, c.name),
    ensures
        ({
            let old_m = of_children(m, before.push(c) + behind);
            let count = restart_number(old_m, c.name);
            &&& c.restart_count < u32::MAX ==> count == c.restart_count + 1
            &&& c.restart_count == u32::MAX ==> count == u32::MAX
            &&& restarted_as(old_m, c.name, pid) == of_children(
                m,
                before.push(
                    ChildModel {
                        status: ChildStatus::Running,
                        child_pid: Some(pid),
                        restart_count: count,
                        last_event: Some(
                            "restarted pid="@ + decimal_of(pid as nat) + " (#"@ + decimal_of(
                                count as nat,
                            ) + ")"@,
                        ),
                        ..c
                    },
                ) + behind,
            )
        }),
{
    lemma_named_at(before, c, behind);
    let cs = before.push(c) + behind;
    let k = before.len() as int;
    assert(cs[k] == c);
    let count = restart_number(of_children(m, cs), c.name);
    let a = ChildModel {
        status: ChildStatus::Running,
        child_pid: Some(pid),
        restart_count: count,
        last_event: Some(
            "restarted pid="@ + decimal_of(pid as nat) + " (#"@ + decimal_of(count as nat) + ")"@,
        ),
        ..c
    };
    assert(cs.update(k, a) == before.push(a) + behind);
}

/// A process that is gone ends the first running child of that name.
pub proof fn law_exit_ends_the_running_child(
    m: SupervisorModel,
    before: Seq<ChildModel>,
    c: ChildModel,
    behind: Seq<ChildModel>,
    pid: u32,
)
    requires
        none_runs(before, c.name),
        c.status == ChildStatus::Running,
    ensures
        exited(of_children(m, before.push(c) + behind), c.name, pid) == of_children(
            m,
            before.push(
                ChildModel {
                    status: ChildStatus::Exited,
                    last_event: Some("exited (lost pid "@ + decimal_of(pid as nat) + ")"@),
                    ..c
                },
            ) + behind,
        ),
        first_running(before.push(c) + behind, c.name) < before.push(c).len(),
{
    lemma_running_at(before, c, behind);
    let cs = before.push(c) + behind;
    let k = before.len() as int;
    assert(cs[k] == c);
    let a = ChildModel {
        status: ChildStatus::Exited,
        last_event: Some("exited (lost pid "@ + decimal_of(pid as nat) + ")"@),
        ..c
    };
    assert(cs.update(k, a) == before.push(a) + behind);
}

/// A name that no child has changes nothing, nor does the exit of one that does
/// not run.
pub proof fn law_unknown_names_change_nothing(
    m: SupervisorModel,
    name: Seq<char>,
    pid: u32,
    n: nat,
)
    ensures
        unnamed(m.children, name) ==> starting(m, name) == m && running(m, name, pid) == m
            && backed_off(m, name, n) == m && restarted_as(m, name, pid) == m && restart_number(
            m,
            name,
        ) == 0,
        none_runs(m.children, name) ==> exited(m, name, pid) == m && first_running(
            m.children,
            name,
        ) == m.children.len(),
{
    lemma_first_named(m.children, name);
    lemma_first_running(m.children, name);
    if unnamed(m.children, name) && first_named(m.children, name) < m.children.len() {
        assert(m.children[first_named(m.children, name)].name != name);
    }
    if none_runs(m.children, name) && first_running(m.children, name) < m.children.len() {
        assert(m.children[first_running(m.children, name)].name != name);
    }
}

// ---------------------------------------------------------------------------
// Waits
// ---------------------------------------------------------------------------

/// A tracker of the fleet asks for a wait of half a minute exactly if it counts
/// five restarts or more.
pub proof fn law_storm_waits_half_a_minute(t: RestartModel)
    requires
        crate::tracker_laws::usual(t),
    ensures
        t.storm() <==> t.history.len() >= 5,
        t.history.len() >= 5 ==> t.delay() == 30_000_000_000,
        t.history.len() < 5 ==> t.delay() == 0,
{
}

/// Each child that began to wait gets a deadline half a minute later, and no other
/// deadline changes.
pub proof fn law_wait_is_scheduled(
    due: Map<Seq<char>, nat>,
    outcomes: Seq<OutcomeModel>,
    o: OutcomeModel,
    now: nat,
)
    ensures
        scheduled(due, Seq::empty(), now) == due,
        scheduled(due, outcomes.push(o), now) == match o {
            OutcomeModel::EnteredBackoff { name, restarts_in_window } => scheduled(
                due,
                outcomes,
                now,
            ).insert(name, now + 30_000_000_000),
            OutcomeModel::Restarted { name, child_pid, restart_count } => scheduled(
                due,
                outcomes,
                now,
            ),
        },
{
    assert(outcomes.push(o).drop_last() == outcomes);
}

/// Each wait is announced once, in the order of the decisions, by the child's name,
/// the reason and the length of the wait.
pub proof fn law_wait_is_announced_by_name(
    outcomes: Seq<OutcomeModel>,
    o: OutcomeModel,
    events: Seq<BackoffEvent>,
    r: PassReport,
    i: int,
)
    requires
        announces(events, announced(r)),
        0 <= i < events.len(),
    ensures
        announced(r) == waiting_of(decided_by(r.restarted)),
        events.len() == waiting_of(decided_by(r.restarted)).len(),
        events[i].child@ == waiting_of(decided_by(r.restarted))[i],
        events[i].reason@ == "restart_storm"@,
        events[i].backoff_s == 30,
        waiting_of(Seq::empty()).len() == 0,
        waiting_of(outcomes.push(o)) == match o {
            OutcomeModel::EnteredBackoff { name, restarts_in_window } => waiting_of(outcomes).push(
                name,
            ),
            OutcomeModel::Restarted { name, child_pid, restart_count } => waiting_of(outcomes),
        },
{
    assert(outcomes.push(o).drop_last() == outcomes);
}

/// A pass names the children that it woke, and forgets the deadlines of exactly
/// these before it schedules new ones.
pub proof fn law_pass_names_the_woken<S: Spawner>(
    spawner: &S,
    m: SupervisorModel,
    trackers: Map<Seq<char>, RestartModel>,
    due: Map<Seq<char>, nat>,
    now: nat,
    m_after: SupervisorModel,
    trackers_after: Map<Seq<char>, RestartModel>,
    due_after: Map<Seq<char>, nat>,
    r: PassReport,
    kept: Map<Seq<char>, nat>,
)
    requires
        pass_run(spawner, m, trackers, due, now, m_after, trackers_after, due_after, r),
        forall|k: Seq<char>|
            #![trigger kept.contains_key(k)]
            kept.contains_key(k) <==> due.contains_key(k) && !texts(r.cleared@).contains(k),
        forall|k: Seq<char>| #[trigger] kept.contains_key(k) ==> kept[k] == due[k],
    ensures
        texts(r.cleared@) == expired_names(m.children, due, now),
        due_after == scheduled(kept, decided_by(r.restarted), now),
{
    assert(kept =~= without(due, texts(r.cleared@)));
}

/// Restarts fail from the first failed one until one succeeds in a pass without a
/// failure; a pass that restarts nothing leaves it as it was.
pub proof fn law_success_ends_failing(since: Option<Instant>, r: PassReport, now: Instant, i: int)
    ensures
        r.restarted is Err && since is Some ==> failing_since_of(since, r, now) == since,
        r.restarted is Err && since is None ==> failing_since_of(since, r, now) == Some(now),
        r.restarted is Ok && 0 <= i < decided_by(r.restarted).len() && decided_by(
            r.restarted,
        )[i] is Restarted ==> failing_since_of(since, r, now) is None,
        r.restarted is Ok && (forall|j: int|
            0 <= j < decided_by(r.restarted).len() ==> !((#[trigger] decided_by(
                r.restarted,
            )[j]) is Restarted)) ==> failing_since_of(since, r, now) == since,
{
}

// ---------------------------------------------------------------------------
// Requests
// ---------------------------------------------------------------------------

/// How each request is answered: a status with the snapshot as it is, a change of
/// the mute flag with an acknowledgement, a request for logs with the tail that was
/// asked for, and what is not there yet by its name.
pub proof fn law_requests_are_answered(
    m: SupervisorModel,
    child: String,
    which: Option<String>,
    tail: usize,
    text: String,
    log: FileReadModel,
    e: Seq<char>,
)
    ensures
        reply_to(Request::Status, m, log) == (ResponseModel::Status { view: m }),
        reply_to(Request::Mute, m, log) == ResponseModel::Ack,
        reply_to(Request::Unmute, m, log) == ResponseModel::Ack,
        reply_to(Request::Restart { child: which }, m, log) == (ResponseModel::NotImplemented {
            op: "restart"@,
        }),
        reply_to(Request::Say { text }, m, log) == (ResponseModel::NotImplemented { op: "say"@ }),
        reply_to(Request::Logs { child, tail }, m, FileReadModel::NotFound) == (
        ResponseModel::Logs { child: child@, lines: Seq::empty() }),
        reply_to(Request::Logs { child, tail }, m, FileReadModel::Failed(e)) == (
        ResponseModel::Error { message: "tail "@ + child@ + ": "@ + e }),
        reply_to(Request::Logs { child, tail }, m, FileReadModel::Text(e)) == (
        ResponseModel::Logs {
            child: child@,
            lines: tail_of(FileReadModel::Text(e), tail as nat)->Ok_0,
        }),
        state_after(Request::Mute, m) == (SupervisorModel { muted: true, ..m }),
        state_after(Request::Unmute, m) == (SupervisorModel { muted: false, ..m }),
        state_after(Request::Status, m) == m,
        state_after(Request::Restart { child: which }, m) == m,
        state_after(Request::Say { text }, m) == m,
        state_after(Request::Logs { child, tail }, m) == m,
{
}

/// Logs are read from the file of the child that was asked for; no other request
/// depends on a file.
pub proof fn law_logs_are_those_of_the_child<R: Fn(&str) -> FileRead>(
    req: Request,
    m: SupervisorModel,
    home: Option<Seq<char>>,
    read: R,
    r: ResponseModel,
    log: FileReadModel,
)
    requires
        answered(req, m, home, read, r),
    ensures
        req matches Request::Logs { child, tail } ==> exists|got: FileRead| #[trigger]
            reads(read, child_log_path_of(home, child@), got) && r == reply_to(req, m, got@),
        !(req is Logs) ==> r == reply_to(req, m, log),
{
}

// ---------------------------------------------------------------------------
// Launches
// ---------------------------------------------------------------------------

/// A child is launched under its name as the program of its specification, with
/// all its arguments behind it and in their order.
pub proof fn law_child_is_launched_with_its_arguments(child: ChildSpecModel, spawner: PeventSpawner)
    ensures
        PeventSpawner::run_args_of(child) == seq![
            "run"@,
            "--id"@,
            child.name,
            "--"@,
            child.program,
        ] + child.args,
        spawner.binary is None ==> spawner.binary_of() == "pevent"@,
        spawner.binary matches Some(b) ==> spawner.binary_of() == b@,
{
}

/// A launch that printed nothing starts nothing, and the error says what happened;
/// what was written to standard error is passed on without the white space around
/// it.
pub proof fn law_failed_launch_says_why(
    spawner: PeventSpawner,
    child: ChildSpecModel,
    status: String,
    stderr: String,
    stdout: String,
)
    ensures
        spawner.launch_error(child, LaunchOutcome::NotRun) == Some(
            "invoke `"@ + spawner.binary_of() + " run --id "@ + child.name + "`"@,
        ),
        spawner.launch_error(child, LaunchOutcome::Failed { status, stderr }) == Some(
            "pevent run failed (status "@ + status@ + "): "@ + trim_of(stderr@),
        ),
        spawner.launch_error(child, LaunchOutcome::NotText) == Some(
            "pevent stdout was not utf-8"@,
        ),
        spawner.launch_error(child, LaunchOutcome::Printed(stdout)) is None,
{
}

/// A reply is taken exactly if it is about the child that was launched: then the
/// processes are those of the reply; otherwise nothing was started, and the error
/// names both.
pub proof fn law_reply_must_be_about_the_child<P: Fn(&str) -> Option<PeventRunReply>>(
    parse: P,
    child: ChildSpecModel,
    stdout: Seq<char>,
    r: Result<StartedChild, SpawnError>,
) -> (reply: Option<PeventRunReply>)
    requires
        PeventSpawner::takes_reply(parse, child, stdout, r),
    ensures
        parses(parse, trim_of(stdout), reply),
        reply is None ==> r is Err && r->Err_0.message@ == "parse pevent reply: "@ + debug_of(
            trim_of(stdout),
        ),
        reply matches Some(p) && p.id@ == child.name ==> r is Ok,
        reply is Some && reply->0.id@ == child.name ==> r->Ok_0 == (StartedChild {
            id: reply->0.id,
            child_pid: reply->0.child_pid,
            supervisor_pid: reply->0.supervisor_pid,
        }),
        reply is Some && reply->0.id@ != child.name ==> r is Err && r->Err_0.message@
            == "pevent echoed id "@ + debug_of(reply->0.id@) + ", expected "@ + debug_of(
            child.name,
        ),
{
    choose|reply: Option<PeventRunReply>| #[trigger]
        parses(parse, trim_of(stdout), reply) && match reply {
            Some(p) => PeventSpawner::accepts(child, p, r),
            None => r matches Err(e) && e.message@ == "parse pevent reply: "@ + debug_of(
                trim_of(stdout),
            ),
        }
}

} // verus!
