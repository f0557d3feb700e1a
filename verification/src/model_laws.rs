//! What the models of values show of them: everything, and unchanged.

use crate::clock::Instant;
use crate::doctor::{units_of, UnitReport};
use crate::env_config::values_of;
use crate::files::{FileRead, FileReadModel};
use crate::fleet::{specs_of, ChildSpec};
use crate::kiosk::{args_view, steps_of, ArgsModel, InstallArgs, KioskStep};
use crate::logs::tail_view;
use crate::passes::{deadlines_of, trackers_of};
use crate::protocol::{children_of, ChildState, Response, ResponseModel, SupervisorView};
use crate::ready::{checks_of, CheckResult};
use crate::restart::RestartTracker;
use crate::supervisor::{outcomes_of, OutcomeModel, RestartOutcome};
use crate::text::{str_opt, strs, text_opt, texts};
use crate::watchdog::{events_of, HealthEvent};
use vstd::prelude::*;

verus! {

/// The model of a list of texts is their contents, one for one and in order.
pub proof fn law_texts_are_shown_in_order(v: Seq<String>, w: Seq<&str>, i: int)
    ensures
        texts(v).len() == v.len(),
        0 <= i < v.len() ==> texts(v)[i] == v[i]@,
        strs(w).len() == w.len(),
        0 <= i < w.len() ==> strs(w)[i] == w[i]@,
{
}

/// The model of a text that may be missing is its content, if it is there.
pub proof fn law_missing_text_is_shown_as_missing(s: Option<String>, t: Option<&str>)
    ensures
        s is None <==> text_opt(s) is None,
        s matches Some(x) ==> text_opt(s) == Some(x@),
        t is None <==> str_opt(t) is None,
        t matches Some(x) ==> str_opt(t) == Some(x@),
{
}

/// The models of children and of a snapshot show every field.
pub proof fn law_snapshot_is_shown_whole(c: ChildState, v: SupervisorView, i: int)
    ensures
        c@.name == c.name@,
        c@.status == c.status,
        c@.uptime_secs == c.uptime_secs,
        c@.restart_count == c.restart_count,
        c@.last_event == text_opt(c.last_event),
        c@.child_pid == c.child_pid,
        v@.protocol_version == v.protocol_version,
        v@.muted == v.muted,
        v@.children == children_of(v.children@),
        children_of(v.children@).len() == v.children@.len(),
        0 <= i < v.children@.len() ==> children_of(v.children@)[i] == v.children@[i]@,
{
}

/// The model of a response shows what it carries.
pub proof fn law_response_is_shown_whole(r: Response)
    ensures
        match r {
            Response::Status { view } => r@ == (ResponseModel::Status { view: view@ }),
            Response::Ack => r@ == ResponseModel::Ack,
            Response::Logs { child, lines } => r@ == (ResponseModel::Logs {
                child: child@,
                lines: texts(lines@),
            }),
            Response::NotImplemented { op } => r@ == (ResponseModel::NotImplemented { op: op@ }),
            Response::Error { message } => r@ == (ResponseModel::Error { message: message@ }),
        },
{
}

/// The models of a specification, a check, a step, a row and the arguments show
/// every field.
pub proof fn law_records_are_shown_whole(
    s: ChildSpec,
    c: CheckResult,
    k: KioskStep,
    u: UnitReport,
    a: InstallArgs,
)
    ensures
        s@.name == s.name@ && s@.program == s.program@ && s@.args == texts(s.args@),
        c@.name == c.name@ && c@.ok == c.ok && c@.detail == c.detail@,
        k@.id == k.id@ && k@.description == k.description@,
        k@.writes == texts(k.writes@) && k@.requires_root == k.requires_root,
        u@.unit == u.unit@ && u@.exec_start == u.exec_start@ && u@.resolved == u.resolved@,
        u@.exists == u.exists && u@.executable == u.executable && u@.in_target == u.in_target,
        u@.enabled == u.enabled@ && u@.active == u.active@ && u@.scope == u.scope@,
        a@.kiosk == a.kiosk && a@.uninstall_kiosk == a.uninstall_kiosk,
        a@.dry_run == a.dry_run && a@.user == a.user@,
{
}

/// The models of lists show every element, in its place.
pub proof fn law_lists_are_shown_in_order(
    outcomes: Seq<RestartOutcome>,
    checks: Seq<CheckResult>,
    units: Seq<UnitReport>,
    steps: Seq<KioskStep>,
    specs: Seq<ChildSpec>,
    events: Seq<HealthEvent>,
    i: int,
)
    ensures
        outcomes_of(outcomes).len() == outcomes.len(),
        0 <= i < outcomes.len() ==> outcomes_of(outcomes)[i] == outcomes[i]@,
        checks_of(checks).len() == checks.len(),
        0 <= i < checks.len() ==> checks_of(checks)[i] == checks[i]@,
        units_of(units).len() == units.len(),
        0 <= i < units.len() ==> units_of(units)[i] == units[i]@,
        steps_of(steps).len() == steps.len(),
        0 <= i < steps.len() ==> steps_of(steps)[i] == steps[i]@,
        specs_of(specs).len() == specs.len(),
        0 <= i < specs.len() ==> specs_of(specs)[i] == specs[i]@,
        events_of(events).len() == events.len(),
        0 <= i < events.len() ==> events_of(events)[i] == (events[i].unit@, events[i].attempts),
{
}

/// The models of maps have the same keys and show their values.
pub proof fn law_maps_are_shown_whole(
    trackers: Map<Seq<char>, RestartTracker>,
    due: Map<Seq<char>, Instant>,
    values: Map<Seq<char>, String>,
    k: Seq<char>,
)
    ensures
        trackers_of(trackers).contains_key(k) == trackers.contains_key(k),
        trackers.contains_key(k) ==> trackers_of(trackers)[k] == trackers[k]@,
        deadlines_of(due).contains_key(k) == due.contains_key(k),
        due.contains_key(k) ==> deadlines_of(due)[k] == due[k].nanos,
        values_of(values).contains_key(k) == values.contains_key(k),
        values.contains_key(k) ==> values_of(values)[k] == values[k]@,
{
}

/// The models of results show which of the two they are, and what they carry.
pub proof fn law_results_are_shown_whole(
    tail: Result<Vec<String>, String>,
    args: Result<InstallArgs, String>,
)
    ensures
        match tail {
            Ok(lines) => tail_view(tail) == Ok::<Seq<Seq<char>>, Seq<char>>(texts(lines@)),
            Err(e) => tail_view(tail) == Err::<Seq<Seq<char>>, Seq<char>>(e@),
        },
        match args {
            Ok(a) => args_view(args) == Ok::<ArgsModel, Seq<char>>(a@),
            Err(e) => args_view(args) == Err::<ArgsModel, Seq<char>>(e@),
        },
{
}

/// The model of what reading a file gave, and that of a decision, show it whole.
pub proof fn law_outcomes_are_shown_whole(f: FileRead, o: RestartOutcome)
    ensures
        match f {
            FileRead::Text(t) => f@ == FileReadModel::Text(t@),
            FileRead::NotFound => f@ == FileReadModel::NotFound,
            FileRead::Failed(e) => f@ == FileReadModel::Failed(e@),
        },
        match o {
            RestartOutcome::Restarted { name, child_pid, restart_count } => o@ == (
            OutcomeModel::Restarted { name: name@, child_pid, restart_count }),
            RestartOutcome::EnteredBackoff { name, restarts_in_window } => o@ == (
            OutcomeModel::EnteredBackoff {
                name: name@,
                restarts_in_window: restarts_in_window as nat,
            }),
        },
{
}

} // verus!
