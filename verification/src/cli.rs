//! What the command lines read and print.

use crate::calendar::{is_timestamp, utc_timestamp, zero_pad, zero_padded};
use crate::commands::may_run;
use crate::doctor::DoctorReport;
use crate::env_config::EnvConfig;
use crate::files::{may_read, FileRead};
use crate::number::{decimal, decimal_of};
use crate::protocol::{
    children_of, ChildModel, ChildState, ChildStatus, Response, ResponseModel, SupervisorModel,
    SupervisorView,
};
use crate::ready::{
    aggregate, all_checked, all_passed, audio_args, bus_path_of, check_all, checks_of, env_path_of,
    not_ready_phrase, phrase_for, target_args, verdict_line, worst_of, BusProbe, CheckModel,
    CheckResult, HealthReadyEnvelope, ReadyEnv, BOOT_PHRASE_READY,
};
use crate::text::{
    join, pad_left, pad_left_of, pad_right, pad_right_of, same, strs, text_opt, texts,
};
use vstd::prelude::*;

verus! {

// ---------------------------------------------------------------------------
// wm status
// ---------------------------------------------------------------------------

/// The name of a status.
pub open spec fn label_of(s: ChildStatus) -> Seq<char> {
    match s {
        ChildStatus::Pending => "pending"@,
        ChildStatus::Starting => "starting"@,
        ChildStatus::Running => "running"@,
        ChildStatus::Exited => "exited"@,
        ChildStatus::Backoff => "backoff"@,
        ChildStatus::Halted => "halted"@,
    }
}

/// The name of a status.
pub fn status_label(s: ChildStatus) -> (r: &'static str)
    ensures
        r@ == label_of(s),
{
    match s {
        ChildStatus::Pending => "pending",
        ChildStatus::Starting => "starting",
        ChildStatus::Running => "running",
        ChildStatus::Exited => "exited",
        ChildStatus::Backoff => "backoff",
        ChildStatus::Halted => "halted",
    }
}

/// A span of time in words: a dash for none, then seconds, minutes and
/// seconds, or hours and minutes.
pub open spec fn uptime_of(secs: nat) -> Seq<char> {
    if secs == 0 {
        "-"@
    } else if secs < 60 {
        decimal_of(secs) + "s"@
    } else if secs < 3600 {
        decimal_of(secs / 60) + "m"@ + zero_padded(secs % 60, 2) + "s"@
    } else {
        decimal_of(secs / 3600) + "h"@ + zero_padded(secs / 60 % 60, 2) + "m"@
    }
}

/// A span of time in words.
pub fn format_uptime(secs: u64) -> (r: String)
    ensures
        r@ == uptime_of(secs as nat),
{
    if secs == 0 {
        return "-".to_owned();
    }
    if secs < 60 {
        return decimal(secs).concat("s");
    }
    let mins: u64 = secs / 60;
    let rem: u64 = secs % 60;
    if mins < 60 {
        return decimal(mins).concat("m").concat(zero_pad(rem, 2).as_str()).concat("s");
    }
    let hours: u64 = mins / 60;
    let mrem: u64 = mins % 60;
    assert(hours == secs / 3600) by (nonlinear_arith)
        requires
            mins == secs / 60,
            hours == mins / 60,
    ;
    decimal(hours).concat("h").concat(zero_pad(mrem, 2).as_str()).concat("m")
}

/// One line of the status table.
pub open spec fn status_line(
    child: Seq<char>,
    status: Seq<char>,
    uptime: Seq<char>,
    restarts: Seq<char>,
    last_event: Seq<char>,
) -> Seq<char> {
    pad_right_of(child, 10) + "  "@ + pad_right_of(status, 8) + "  "@ + pad_left_of(uptime, 8, ' ')
        + "  "@ + pad_left_of(restarts, 9, ' ') + "  "@ + last_event + "\n"@
}

/// The line of a child.
pub open spec fn child_line(c: ChildModel) -> Seq<char> {
    status_line(
        c.name,
        label_of(c.status),
        uptime_of(c.uptime_secs as nat),
        decimal_of(c.restart_count as nat),
        match c.last_event {
            Some(e) => e,
            None => "-"@,
        },
    )
}

/// The lines of the children.
pub open spec fn child_lines(cs: Seq<ChildModel>) -> Seq<char>
    decreases cs.len(),
{
    if cs.len() == 0 {
        Seq::empty()
    } else {
        child_lines(cs.drop_last()) + child_line(cs.last())
    }
}

/// The status table of a snapshot.
pub open spec fn status_table(m: SupervisorModel) -> Seq<char> {
    status_line("CHILD"@, "STATUS"@, "UPTIME"@, "RESTARTS"@, "last_event"@) + child_lines(
        m.children,
    )
}

/// One line of the status table.
fn render_status_line(
    child: &str,
    status: &str,
    uptime: &str,
    restarts: &str,
    last_event: &str,
) -> (r: String)
    ensures
        r@ == status_line(child@, status@, uptime@, restarts@, last_event@),
{
    pad_right(child, 10).concat("  ").concat(pad_right(status, 8).as_str()).concat("  ").concat(
        pad_left(uptime, 8, ' ').as_str(),
    ).concat("  ").concat(pad_left(restarts, 9, ' ').as_str()).concat("  ").concat(
        last_event,
    ).concat("\n")
}

/// The status table of a snapshot.
pub fn render_status(view: &SupervisorView) -> (r: String)
    ensures
        r@ == status_table(view@),
{
    let mut out = render_status_line("CHILD", "STATUS", "UPTIME", "RESTARTS", "last_event");
    let ghost head = out@;
    let ghost cs = children_of(view.children@);
    let mut i: usize = 0;
    assert(head + child_lines(cs.take(0)) == head);
    while i < view.children.len()
        invariant
            i <= view.children.len(),
            cs == children_of(view.children@),
            out@ == head + child_lines(cs.take(i as int)),
        decreases view.children.len() - i,
    {
        let c: &ChildState = &view.children[i];
        assert(cs.take(i + 1).drop_last() == cs.take(i as int));
        assert(cs.take(i + 1).last() == c@);
        let last: &str = match &c.last_event {
            Some(e) => e.as_str(),
            None => "-",
        };
        let line = render_status_line(
            c.name.as_str(),
            status_label(c.status),
            format_uptime(c.uptime_secs).as_str(),
            decimal(c.restart_count as u64).as_str(),
            last,
        );
        out.append(line.as_str());
        assert(out@ == head + (child_lines(cs.take(i as int)) + child_line(c@)));
        i += 1;
    }
    assert(cs.take(i as int) == cs);
    out
}

/// Text for one of the two output streams.
#[derive(Debug, Clone, PartialEq, Eq)]
pub enum Rendered {
    /// For standard output.
    Stdout(String),
    /// For standard error.
    Stderr(String),
}

/// What is printed, as text.
pub enum RenderedModel {
    /// To standard output.
    Stdout(Seq<char>),
    /// To standard error.
    Stderr(Seq<char>),
}

impl View for Rendered {
    type V = RenderedModel;

    open spec fn view(&self) -> RenderedModel {
        match self {
            Rendered::Stdout(t) => RenderedModel::Stdout(t@),
            Rendered::Stderr(t) => RenderedModel::Stderr(t@),
        }
    }
}

/// A snapshot as JSON, where it was asked for.
#[derive(Debug, Clone, PartialEq, Eq)]
pub enum JsonText {
    /// It was not asked for.
    NotAsked,
    /// The JSON.
    Text(String),
    /// It could not be made; the text says why.
    Failed(String),
}

/// What is printed for the reply to a status request.
pub open spec fn status_reply(resp: ResponseModel, json: JsonText) -> RenderedModel {
    match resp {
        ResponseModel::Status { view } => match json {
            JsonText::NotAsked => RenderedModel::Stdout(status_table(view)),
            JsonText::Text(t) => RenderedModel::Stdout(t@ + "\n"@),
            JsonText::Failed(e) => RenderedModel::Stderr("wm: serialize status: "@ + e@ + "\n"@),
        },
        ResponseModel::Error { message } => RenderedModel::Stderr(
            "wm: server error: "@ + message + "\n"@,
        ),
        _ => RenderedModel::Stderr("wm: unexpected response for status request\n"@),
    }
}

/// What is printed for the reply to a status request.
pub fn render_status_response(resp: &Response, json: &JsonText) -> (r: Rendered)
    ensures
        r@ == status_reply(resp@, *json),
{
    match resp {
        Response::Status { view } => match json {
            JsonText::NotAsked => Rendered::Stdout(render_status(view)),
            JsonText::Text(t) => Rendered::Stdout(t.clone().concat("\n")),
            JsonText::Failed(e) => Rendered::Stderr(
                "wm: serialize status: ".to_owned().concat(e.as_str()).concat("\n"),
            ),
        },
        Response::Error { message } => Rendered::Stderr(
            "wm: server error: ".to_owned().concat(message.as_str()).concat("\n"),
        ),
        _ => Rendered::Stderr("wm: unexpected response for status request\n".to_owned()),
    }
}

// ---------------------------------------------------------------------------
// Other commands
// ---------------------------------------------------------------------------

/// Lines with a line feed behind each.
pub open spec fn closed_lines(ls: Seq<Seq<char>>) -> Seq<char>
    decreases ls.len(),
{
    if ls.len() == 0 {
        Seq::empty()
    } else {
        closed_lines(ls.drop_last()) + ls.last() + "\n"@
    }
}

/// The lines of a log as they are printed.
pub fn render_logs(lines: &Vec<String>) -> (r: String)
    ensures
        r@ == closed_lines(texts(lines@)),
{
    let ghost ls = texts(lines@);
    let mut out: String = String::new();
    let mut i: usize = 0;
    assert(closed_lines(ls.take(0)) == Seq::<char>::empty());
    while i < lines.len()
        invariant
            i <= lines.len(),
            ls == texts(lines@),
            out@ == closed_lines(ls.take(i as int)),
        decreases lines.len() - i,
    {
        assert(ls.take(i + 1).drop_last() == ls.take(i as int));
        assert(ls.take(i + 1).last() == lines@[i as int]@);
        out.append(lines[i].as_str());
        out.append("\n");
        i += 1;
    }
    assert(ls.take(i as int) == ls);
    out
}

/// What is printed for the reply to any other command.
pub open spec fn command_reply(resp: ResponseModel) -> RenderedModel {
    match resp {
        ResponseModel::Ack => RenderedModel::Stdout("ok\n"@),
        ResponseModel::NotImplemented { op } => RenderedModel::Stderr(
            "wm: "@ + op + ": server has no handler yet (iter-4)\n"@,
        ),
        ResponseModel::Error { message } => RenderedModel::Stderr(
            "wm: server error: "@ + message + "\n"@,
        ),
        ResponseModel::Status { view } => RenderedModel::Stderr(
            "wm: unexpected status payload for command\n"@,
        ),
        ResponseModel::Logs { child, lines } => RenderedModel::Stdout(closed_lines(lines)),
    }
}

/// What is printed for the reply to any other command.
pub fn render_command_response(resp: &Response) -> (r: Rendered)
    ensures
        r@ == command_reply(resp@),
{
    match resp {
        Response::Ack => Rendered::Stdout("ok\n".to_owned()),
        Response::NotImplemented { op } => Rendered::Stderr(
            "wm: ".to_owned().concat(op.as_str()).concat(
                ": server has no handler yet (iter-4)\n",
            ),
        ),
        Response::Error { message } => Rendered::Stderr(
            "wm: server error: ".to_owned().concat(message.as_str()).concat("\n"),
        ),
        Response::Status { view: _ } => Rendered::Stderr(
            "wm: unexpected status payload for command\n".to_owned(),
        ),
        Response::Logs { child: _, lines } => Rendered::Stdout(render_logs(lines)),
    }
}

/// The utterance of the words of a `say` command.
pub fn utterance(words: &Vec<String>) -> (r: String)
    ensures
        r@ == crate::text::join_of(texts(words@), " "@),
{
    join(words, " ")
}

// ---------------------------------------------------------------------------
// wm ready
// ---------------------------------------------------------------------------

/// How `wm ready` prints its verdict.
#[derive(Debug, Clone, Copy, PartialEq, Eq, Structural)]
pub enum ReadyFormat {
    /// For people.
    Text,
    /// As an envelope.
    Json,
}

impl Default for ReadyFormat {
    /// For people.
    fn default() -> (r: Self)
        ensures
            r == ReadyFormat::Text,
    {
        ReadyFormat::Text
    }
}

/// The names of the checks that failed.
pub open spec fn failing_names(checks: Seq<CheckModel>) -> Seq<Seq<char>>
    decreases checks.len(),
{
    if checks.len() == 0 {
        Seq::empty()
    } else if checks.last().ok {
        failing_names(checks.drop_last())
    } else {
        failing_names(checks.drop_last()).push(checks.last().name)
    }
}

/// The verdict for people: one line, and below it what is spoken if the device
/// is not ready.
pub open spec fn ready_text(checks: Seq<CheckModel>) -> Seq<char> {
    match worst_of(checks) {
        None => "READY"@ + "\n"@,
        Some(worst) => "NOT READY: "@ + crate::text::join_of(failing_names(checks), ", "@) + "\n"@
            + phrase_for(worst) + "\n"@,
    }
}

/// The verdict of `wm ready`.
#[derive(Debug, Clone, PartialEq, Eq)]
pub struct ReadyReport {
    /// The verdict for people.
    pub text: String,
    /// The verdict as an envelope.
    pub envelope: HealthReadyEnvelope,
    /// The exit code: zero when ready, one when not.
    pub exit_code: u8,
}

/// Whether `r` is the verdict on the checks `cs` at the time `ts`.
pub open spec fn reports(cs: Seq<CheckModel>, ts: Seq<char>, r: ReadyReport) -> bool {
    &&& r.text@ == ready_text(cs)
    &&& r.envelope.topic@ == "wm.health.ready"@
    &&& r.envelope.ts@ == ts
    &&& r.envelope.ready == all_passed(cs)
    &&& checks_of(r.envelope.checks@) == cs
    &&& text_opt(r.envelope.worst_reason) == worst_of(cs)
    &&& text_opt(r.envelope.ready_phrase) == if all_passed(cs) {
        Some(BOOT_PHRASE_READY@)
    } else {
        None
    }
    &&& r.exit_code == if all_passed(cs) {
        0
    } else {
        1int
    }
}

/// The verdict of `wm ready` on its checks, at the time `ts`.
pub fn ready_report(checks: Vec<CheckResult>, ts: String) -> (r: ReadyReport)
    ensures
        r.envelope.checks == checks,
        r.envelope.ts == ts,
        reports(checks_of(checks@), ts@, r),
{
    let ghost cs = checks_of(checks@);
    let (ready, worst) = aggregate(checks.as_slice());
    let mut failing: Vec<&str> = Vec::new();
    let mut i: usize = 0;
    assert(strs(failing@) == failing_names(cs.take(0)));
    while i < checks.len()
        invariant
            i <= checks.len(),
            cs == checks_of(checks@),
            strs(failing@) == failing_names(cs.take(i as int)),
        decreases checks.len() - i,
    {
        let ghost before = failing@;
        assert(cs.take(i + 1).drop_last() == cs.take(i as int));
        assert(cs.take(i + 1).last() == checks@[i as int]@);
        if !checks[i].ok {
            failing.push(checks[i].name.as_str());
            assert(strs(failing@) == strs(before).push(checks@[i as int].name@));
        }
        i += 1;
    }
    assert(cs.take(i as int) == cs);
    let line = verdict_line(ready, failing.as_slice()).concat("\n");
    let text: String = match &worst {
        Some(w) => line.concat(not_ready_phrase(w.as_str())).concat("\n"),
        None => line,
    };
    let ready_phrase: Option<String> = if ready {
        Some(BOOT_PHRASE_READY.to_owned())
    } else {
        None
    };
    let exit_code: u8 = if ready {
        0
    } else {
        1
    };
    ReadyReport {
        text,
        envelope: HealthReadyEnvelope {
            topic: "wm.health.ready".to_owned(),
            ts,
            ready,
            checks,
            worst_reason: worst,
            ready_phrase,
        },
        exit_code,
    }
}

/// Runs `wm ready` at `secs` seconds after the epoch: the five checks and the
/// verdict on them.
pub fn run_ready<
    R: Fn(&str) -> FileRead,
    C: Fn(&str, &[&str]) -> (String, bool),
    P: Fn(&str) -> BusProbe,
    F: Fn(&str) -> bool,
>(env: &ReadyEnv, secs: u64, read: &R, run: &C, connect: &P, is_file: &F) -> (r: ReadyReport)
    requires
        may_read(*read, env_path_of(None, text_opt(env.bootstrap_env))),
        may_run(*run, "systemctl"@, target_args()),
        may_run(*run, "pactl"@, audio_args("sources"@)),
        may_run(*run, "pactl"@, audio_args("sinks"@)),
        forall|p: &str|
            p@ == bus_path_of(None, text_opt(env.runtime_dir)) ==> connect.requires((p,)),
        forall|p: &str| is_file.requires((p,)),
    ensures
        all_checked(*env, *read, *run, *connect, *is_file, checks_of(r.envelope.checks@)),
        is_timestamp(secs, r.envelope.ts@),
        reports(checks_of(r.envelope.checks@), r.envelope.ts@, r),
{
    let checks = check_all(env, read, run, connect, is_file);
    ready_report(checks, utc_timestamp(secs))
}

// ---------------------------------------------------------------------------
// wm doctor
// ---------------------------------------------------------------------------

/// The exit code of `wm doctor`: zero if all is well, two if not.
pub fn doctor_exit_code(report: &DoctorReport) -> (r: u8)
    ensures
        r == if report.all_ok {
            0
        } else {
            2int
        },
{
    if report.all_ok {
        0
    } else {
        2
    }
}

// ---------------------------------------------------------------------------
// wmd-init
// ---------------------------------------------------------------------------

/// The arguments of `wmd-init`.
#[derive(Debug, Clone, Copy, PartialEq, Eq, Structural)]
pub struct CliArgs {
    /// Start the children and watch them.
    pub spawn: bool,
}

impl Default for CliArgs {
    /// No argument given.
    fn default() -> (r: Self)
        ensures
            !r.spawn,
    {
        CliArgs { spawn: false }
    }
}

/// How `wmd-init` is used.
pub const INIT_USAGE: &'static str = "usage: wmd-init [--spawn]\n  --spawn   start the canonical children and run the exit-observer";

/// The arguments of `wmd-init` read from `args` onto `spawn`, or what is wrong
/// with them.
pub open spec fn init_args_of(args: Seq<Seq<char>>, spawn: bool) -> Result<bool, Seq<char>>
    decreases args.len(),
{
    if args.len() == 0 {
        Ok(spawn)
    } else if args[0] == "--spawn"@ {
        init_args_of(args.drop_first(), true)
    } else if args[0] == "-h"@ || args[0] == "--help"@ {
        Err(INIT_USAGE@)
    } else {
        Err("unknown argument: "@ + args[0])
    }
}

/// What `wmd-init` does once it has looked for its settings.
#[derive(Debug, Clone, PartialEq, Eq)]
pub enum BootStep {
    /// The settings could not be read; the text says why.
    Fail(String),
    /// There are no settings: say so and end without a failure, with nothing
    /// served or started.
    Halt,
    /// Serve requests.
    Serve {
        /// Whether to start the children and watch them, too.
        start: bool,
    },
}

/// What `wmd-init` does, given what became of its settings and whether it was
/// asked to start the children.
pub fn boot_step(loaded: Result<Option<EnvConfig>, String>, spawn: bool) -> (r: BootStep)
    ensures
        match loaded {
            Err(e) => r == BootStep::Fail(e),
            Ok(None) => r == BootStep::Halt,
            Ok(Some(_)) => r == (BootStep::Serve { start: spawn }),
        },
{
    match loaded {
        Err(e) => BootStep::Fail(e),
        Ok(None) => BootStep::Halt,
        Ok(Some(_)) => BootStep::Serve { start: spawn },
    }
}

/// The arguments but the name of the program.
pub open spec fn behind_program(args: Seq<Seq<char>>) -> Seq<Seq<char>> {
    if args.len() == 0 {
        args
    } else {
        args.drop_first()
    }
}

/// Reads the arguments of `wmd-init`, the name of the program among them.
pub fn parse_cli(args: Vec<String>) -> (r: Result<CliArgs, String>)
    ensures
        match r {
            Ok(cli) => init_args_of(behind_program(texts(args@)), false) == Ok::<
                bool,
                Seq<char>,
            >(cli.spawn),
            Err(e) => init_args_of(behind_program(texts(args@)), false) == Err::<bool, Seq<char>>(
                e@,
            ),
        },
{
    let ghost all = texts(args@);
    let ghost rest = behind_program(all);
    let n: usize = args.len();
    let mut cli = CliArgs::default();
    let mut i: usize = if n > 0 {
        1
    } else {
        0
    };
    assert(rest == all.skip(i as int));
    while i < n
        invariant
            i <= n == args.len(),
            all == texts(args@),
            rest == behind_program(all),
            init_args_of(rest, false) == init_args_of(all.skip(i as int), cli.spawn),
        decreases n - i,
    {
        let a: &str = args[i].as_str();
        assert(all.skip(i as int)[0] == a@);
        assert(all.skip(i as int).drop_first() == all.skip(i + 1));
        if same(a, "--spawn") {
            cli.spawn = true;
        } else if same(a, "-h") || same(a, "--help") {
            return Err(INIT_USAGE.to_owned());
        } else {
            return Err("unknown argument: ".to_owned().concat(a));
        }
        i += 1;
    }
    Ok(cli)
}

// ---------------------------------------------------------------------------
// Laws
// ---------------------------------------------------------------------------

/// `wm ready` exits with success exactly when no check is listed as failing.
pub proof fn law_ready_iff_none_failing(checks: Seq<CheckModel>)
    ensures
        all_passed(checks) <==> failing_names(checks).len() == 0,
    decreases checks.len(),
{
    if checks.len() > 0 {
        let rest = checks.drop_last();
        law_ready_iff_none_failing(rest);
        if all_passed(checks) {
            assert forall|i: int| 0 <= i < rest.len() implies (#[trigger] rest[i]).ok by {
                assert(rest[i] == checks[i]);
            }
            assert(checks[checks.len() - 1].ok);
        }
        if all_passed(rest) && checks.last().ok {
            assert forall|i: int| 0 <= i < checks.len() implies (#[trigger] checks[i]).ok by {
                if i < rest.len() {
                    assert(rest[i] == checks[i]);
                }
            }
        }
    }
}

} // verus!
