//! The service manager as the watchdog sees it: runs of `systemctl --user`.

use crate::commands::{exit_detail, exit_detail_of, may_run, runs, CommandOutcome};
use crate::text::{
    after_prefix, find_at, find_of, from_chars, lines, lines_of, same, split_once, split_once_of,
    strip_prefix, strs, texts, to_chars, trim, trim_of, trim_start_matches, trim_start_of, words,
    words_of,
};
use crate::watchdog::WatchdogError;
use vstd::prelude::*;

verus! {

/// The service manager of the user, reached through `systemctl`.
#[derive(Debug, Clone, Copy)]
pub struct SystemctlReal;

/// The arguments of a listing of failed units as JSON.
pub open spec fn list_json_args() -> Seq<Seq<char>> {
    seq!["--user"@, "--state=failed"@, "--no-legend"@, "--plain"@, "-o"@, "json"@]
}

/// The arguments of a listing of failed units as text.
pub open spec fn list_text_args() -> Seq<Seq<char>> {
    seq!["--user"@, "--state=failed"@, "--no-legend"@, "--plain"@]
}

/// The arguments of a command `verb` on `unit`.
pub open spec fn unit_args(verb: Seq<char>, unit: Seq<char>) -> Seq<Seq<char>> {
    seq!["--user"@, verb, unit]
}

// ---------------------------------------------------------------------------
// Listings
// ---------------------------------------------------------------------------

/// The first word of each line that has one.
pub open spec fn first_words(ls: Seq<Seq<char>>) -> Seq<Seq<char>>
    decreases ls.len(),
{
    if ls.len() == 0 {
        Seq::empty()
    } else {
        let rest = first_words(ls.drop_last());
        if words_of(ls.last()).len() > 0 {
            rest.push(words_of(ls.last())[0])
        } else {
            rest
        }
    }
}

/// The units of a listing as text: the first word of each line.
pub fn parse_failed_text(text: &str) -> (r: Vec<String>)
    ensures
        texts(r@) == first_words(lines_of(text@)),
{
    let ls = lines(text);
    let mut out: Vec<String> = Vec::new();
    let mut i: usize = 0;
    assert(texts(out@) == first_words(texts(ls@).take(0)));
    while i < ls.len()
        invariant
            i <= ls.len(),
            texts(out@) == first_words(texts(ls@).take(i as int)),
        decreases ls.len() - i,
    {
        let ghost before = out@;
        let ws = words(ls[i].as_str());
        assert(texts(ls@).take(i + 1).drop_last() == texts(ls@).take(i as int));
        assert(texts(ls@).take(i + 1).last() == ls@[i as int]@);
        if ws.len() > 0 {
            out.push(ws[0].clone());
            assert(texts(ws@)[0] == ws@[0]@);
            assert(texts(out@) == texts(before).push(ws@[0]@));
        }
        i += 1;
    }
    assert(texts(ls@).take(i as int) == texts(ls@));
    out
}

/// The word that marks the name of a unit in a listing as JSON.
pub open spec fn unit_key() -> Seq<char> {
    "\"unit\""@
}

/// The quoted text behind blanks and colons at the start of `s`, if there is one.
pub open spec fn quoted_value(s: Seq<char>) -> Option<Seq<char>> {
    match after_prefix(trim_start_of(s, seq![' ', '\t', ':']), "\""@) {
        Some(inner) => match split_once_of(inner, '"') {
            Some(parts) => Some(parts.0),
            None => None,
        },
        None => None,
    }
}

/// The units named in a line of a listing as JSON: the quoted text behind each
/// unit key.
pub open spec fn units_in(line: Seq<char>) -> Seq<Seq<char>>
    decreases line.len(),
{
    match find_of(line, unit_key()) {
        Some(k) if k + unit_key().len() <= line.len() && unit_key().len() > 0 => {
            let rest = line.skip((k + unit_key().len()) as int);
            match quoted_value(rest) {
                Some(name) => seq![name] + units_in(rest),
                None => units_in(rest),
            }
        },
        _ => Seq::empty(),
    }
}

/// The units named in the lines of a listing as JSON.
pub open spec fn units_in_all(ls: Seq<Seq<char>>) -> Seq<Seq<char>>
    decreases ls.len(),
{
    if ls.len() == 0 {
        Seq::empty()
    } else {
        units_in_all(ls.drop_last()) + units_in(ls.last())
    }
}

/// The quoted text behind blanks and colons at the start of `s`.
fn quoted(s: &str) -> (r: Option<String>)
    ensures
        crate::text::text_opt(r) == quoted_value(s@),
{
    let blanks = [' ', '\t', ':'];
    assert(blanks@ == seq![' ', '\t', ':']);
    let t = trim_start_matches(s, &blanks);
    match strip_prefix(t.as_str(), "\"") {
        Some(inner) => match split_once(inner.as_str(), '"') {
            Some(parts) => Some(parts.0),
            None => None,
        },
        None => None,
    }
}

/// Appends the units named in `line` to `out`.
fn push_units(line: &str, out: &mut Vec<String>)
    ensures
        texts(final(out)@) == texts(old(out)@) + units_in(line@),
{
    let cs = to_chars(line);
    let key = to_chars("\"unit\"");
    proof {
        reveal_strlit("\"unit\"");
    }
    let n: usize = cs.len();
    let mut at: usize = 0;
    let mut done: bool = false;
    assert(cs@.skip(0) == cs@);
    assert(texts(old(out)@) + units_in(line@) == texts(out@) + units_in(cs@.skip(0)));
    while !done
        invariant
            at <= n == cs.len(),
            key@ == unit_key(),
            unit_key().len() == 6,
            done ==> texts(out@) == texts(old(out)@) + units_in(line@),
            !done ==> texts(old(out)@) + units_in(line@) == texts(out@) + units_in(
                cs@.skip(at as int),
            ),
        decreases n - at, (if done { 0int } else { 1int }),
    {
        let ghost rest = cs@.skip(at as int);
        match find_at(&cs, at, &key) {
            None => {
                assert(units_in(rest) == Seq::<Seq<char>>::empty());
                assert(texts(out@) + Seq::<Seq<char>>::empty() == texts(out@));
                done = true;
            },
            Some(k) => {
                let next: usize = k + key.len();
                assert(rest.skip((k - at) + 6) == cs@.skip(next as int));
                let tail = from_chars(&cs, next, n);
                assert(tail@ == cs@.skip(next as int));
                let ghost before = out@;
                match quoted(tail.as_str()) {
                    Some(name) => {
                        out.push(name);
                        assert(texts(out@) == texts(before).push(name@));
                        assert(texts(before) + (seq![name@] + units_in(tail@)) == texts(out@)
                            + units_in(tail@));
                    },
                    None => {},
                }
                at = next;
            },
        }
    }
}

/// The units of a listing as JSON.
pub fn parse_failed_json(text: &str) -> (r: Vec<String>)
    ensures
        texts(r@) == units_in_all(lines_of(text@)),
{
    let ls = lines(text);
    let mut out: Vec<String> = Vec::new();
    let mut i: usize = 0;
    assert(texts(out@) == units_in_all(texts(ls@).take(0)));
    while i < ls.len()
        invariant
            i <= ls.len(),
            texts(out@) == units_in_all(texts(ls@).take(i as int)),
        decreases ls.len() - i,
    {
        assert(texts(ls@).take(i + 1).drop_last() == texts(ls@).take(i as int));
        assert(texts(ls@).take(i + 1).last() == ls@[i as int]@);
        push_units(ls[i].as_str(), &mut out);
        i += 1;
    }
    assert(texts(ls@).take(i as int) == texts(ls@));
    out
}

// ---------------------------------------------------------------------------
// Replies
// ---------------------------------------------------------------------------

/// Whether `r` is the result of a listing as text that came out as `out`.
pub open spec fn is_text_listing(
    out: CommandOutcome,
    r: Result<Vec<String>, WatchdogError>,
) -> bool {
    match out {
        CommandOutcome::NotRun(e) => r matches Err(f) && is_failure(
            f,
            "list-units"@,
            Seq::empty(),
            e@,
        ),
        CommandOutcome::Done { success, code, stdout } => if success {
            r matches Ok(v) && texts(v@) == first_words(lines_of(stdout@))
        } else {
            r matches Err(f) && is_failure(
                f,
                "list-units"@,
                Seq::empty(),
                exit_detail_of(code),
            )
        },
    }
}

/// The result of a listing as text.
pub fn text_listing(out: CommandOutcome) -> (r: Result<Vec<String>, WatchdogError>)
    ensures
        is_text_listing(out, r),
{
    match out {
        CommandOutcome::NotRun(detail) => Err(
            WatchdogError::SystemctlFailed {
                op: "list-units".to_owned(),
                unit: String::new(),
                detail,
            },
        ),
        CommandOutcome::Done { success, code, stdout } => {
            if success {
                Ok(parse_failed_text(stdout.as_str()))
            } else {
                Err(
                    WatchdogError::SystemctlFailed {
                        op: "list-units".to_owned(),
                        unit: String::new(),
                        detail: exit_detail(code),
                    },
                )
            }
        },
    }
}

/// Whether `r` is the result of a listing as JSON that came out as `out`: none
/// where the listing as text is to be asked for instead.
pub open spec fn is_json_listing(
    out: CommandOutcome,
    r: Option<Result<Vec<String>, WatchdogError>>,
) -> bool {
    match out {
        CommandOutcome::NotRun(e) => r matches Some(Err(f)) && is_failure(
            f,
            "list-units"@,
            Seq::empty(),
            e@,
        ),
        CommandOutcome::Done { success, code, stdout } => if success && units_in_all(
            lines_of(stdout@),
        ).len() > 0 {
            r matches Some(Ok(v)) && texts(v@) == units_in_all(lines_of(stdout@))
        } else {
            r is None
        },
    }
}

/// The result of a listing as JSON; none where it failed or named no unit.
pub fn json_listing(out: CommandOutcome) -> (r: Option<Result<Vec<String>, WatchdogError>>)
    ensures
        is_json_listing(out, r),
{
    match out {
        CommandOutcome::NotRun(detail) => Some(
            Err(
                WatchdogError::SystemctlFailed {
                    op: "list-units".to_owned(),
                    unit: String::new(),
                    detail,
                },
            ),
        ),
        CommandOutcome::Done { success, code: _, stdout } => {
            if !success {
                return None;
            }
            let units = parse_failed_json(stdout.as_str());
            assert(texts(units@).len() == units@.len());
            if units.len() == 0 {
                None
            } else {
                Some(Ok(units))
            }
        },
    }
}

/// The operation of a command: the argument behind the manager's flag, or the
/// only argument; empty where there is none.
pub open spec fn operation_of(args: Seq<Seq<char>>) -> Seq<char> {
    if args.len() > 1 {
        args[1]
    } else if args.len() == 1 {
        args[0]
    } else {
        Seq::empty()
    }
}

/// The unit of a command: the last argument; empty where there is none.
pub open spec fn operand_of(args: Seq<Seq<char>>) -> Seq<char> {
    if args.len() > 0 {
        args.last()
    } else {
        Seq::empty()
    }
}

/// Whether `e` says that the operation `op` on `unit` failed, with `detail`.
pub open spec fn is_failure(
    e: WatchdogError,
    op: Seq<char>,
    unit: Seq<char>,
    detail: Seq<char>,
) -> bool {
    e matches WatchdogError::SystemctlFailed { op: o, unit: u, detail: d } && o@ == op && u@ == unit
        && d@ == detail
}

/// Whether `r` is the result of a command with `args` that came out as `out`.
pub open spec fn is_command_result(
    args: Seq<Seq<char>>,
    out: CommandOutcome,
    r: Result<(), WatchdogError>,
) -> bool {
    match out {
        CommandOutcome::NotRun(e) => r matches Err(f) && is_failure(
            f,
            operation_of(args),
            operand_of(args),
            e@,
        ),
        CommandOutcome::Done { success, code, stdout } => if success {
            r is Ok
        } else {
            r matches Err(f) && is_failure(
                f,
                operation_of(args),
                operand_of(args),
                exit_detail_of(code),
            )
        },
    }
}

/// The failure of a command with `args`.
fn command_failure(args: &[&str], detail: String) -> (r: WatchdogError)
    ensures
        is_failure(r, operation_of(strs(args@)), operand_of(strs(args@)), detail@),
{
    let n: usize = args.len();
    assert(strs(args@).len() == n);
    let op = if n > 1 {
        args[1].to_owned()
    } else if n == 1 {
        args[0].to_owned()
    } else {
        String::new()
    };
    let unit = if n > 0 {
        args[n - 1].to_owned()
    } else {
        String::new()
    };
    WatchdogError::SystemctlFailed { op, unit, detail }
}

/// The result of a command with `args`: the manager's flag, the operation and
/// the unit.
pub fn command_result(args: &[&str], out: CommandOutcome) -> (r: Result<(), WatchdogError>)
    ensures
        is_command_result(strs(args@), out, r),
{
    match out {
        CommandOutcome::NotRun(detail) => Err(command_failure(args, detail)),
        CommandOutcome::Done { success, code, stdout: _ } => {
            if success {
                Ok(())
            } else {
                Err(command_failure(args, exit_detail(code)))
            }
        },
    }
}

/// Whether `r` is the answer of a query for the failed state of `unit` that
/// came out as `out`.
pub open spec fn is_failed_answer(
    unit: Seq<char>,
    out: CommandOutcome,
    r: Result<bool, WatchdogError>,
) -> bool {
    match out {
        CommandOutcome::NotRun(e) => r matches Err(f) && is_failure(f, "is-failed"@, unit, e@),
        CommandOutcome::Done { success, code, stdout } => r matches Ok(f) && f == (trim_of(stdout@)
            == "failed"@),
    }
}

/// The answer of a query for the failed state of `unit`.
pub fn failed_answer(unit: &str, out: CommandOutcome) -> (r: Result<bool, WatchdogError>)
    ensures
        is_failed_answer(unit@, out, r),
        match out {
            CommandOutcome::NotRun(e) => match r {
                Err(WatchdogError::SystemctlFailed { op, unit: of, detail }) => op@ == "is-failed"@
                    && of@ == unit@ && detail@ == e@,
                _ => false,
            },
            CommandOutcome::Done { success, code, stdout } => match r {
                Ok(failed) => failed == (trim_of(stdout@) == "failed"@),
                Err(_) => false,
            },
        },
{
    match out {
        CommandOutcome::NotRun(detail) => Err(
            WatchdogError::SystemctlFailed {
                op: "is-failed".to_owned(),
                unit: unit.to_owned(),
                detail,
            },
        ),
        CommandOutcome::Done { success: _, code: _, stdout } => {
            Ok(same(trim(stdout.as_str()).as_str(), "failed"))
        },
    }
}

// ---------------------------------------------------------------------------
// Runs
// ---------------------------------------------------------------------------

/// Runs `systemctl` with `args` through `run`.
pub fn run_systemctl<R: Fn(&str, &[&str]) -> CommandOutcome>(run: &R, args: &[&str]) -> (r: Result<
    (),
    WatchdogError,
>)
    requires
        may_run(*run, "systemctl"@, strs(args@)),
    ensures
        exists|out: CommandOutcome| #[trigger]
            runs(*run, "systemctl"@, strs(args@), out) && is_command_result(
                strs(args@),
                out,
                r,
            ),
{
    let out = run("systemctl", args);
    assert(runs(*run, "systemctl"@, strs(args@), out));
    command_result(args, out)
}

impl SystemctlReal {
    /// The failed units, listed through `run`: as JSON, or as text where that
    /// fails or names no unit.
    pub fn list_failed_units<R: Fn(&str, &[&str]) -> CommandOutcome>(&self, run: &R) -> (r: Result<
        Vec<String>,
        WatchdogError,
    >)
        requires
            may_run(*run, "systemctl"@, list_json_args()),
            may_run(*run, "systemctl"@, list_text_args()),
        ensures
            exists|out: CommandOutcome| #[trigger]
                runs(*run, "systemctl"@, list_json_args(), out) && (is_json_listing(
                    out,
                    Some(r),
                ) || is_json_listing(out, None) && exists|text: CommandOutcome| #[trigger]
                    runs(*run, "systemctl"@, list_text_args(), text) && is_text_listing(
                        text,
                        r,
                    )),
    {
        let args = ["--user", "--state=failed", "--no-legend", "--plain", "-o", "json"];
        assert(strs(args@) == list_json_args());
        let out = run("systemctl", &args);
        assert(runs(*run, "systemctl"@, list_json_args(), out));
        match json_listing(out) {
            Some(r) => r,
            None => {
                let text_args = ["--user", "--state=failed", "--no-legend", "--plain"];
                assert(strs(text_args@) == list_text_args());
                let text = run("systemctl", &text_args);
                assert(runs(*run, "systemctl"@, list_text_args(), text));
                text_listing(text)
            },
        }
    }

    /// Clears the failed state of `unit` through `run`.
    pub fn reset_failed<R: Fn(&str, &[&str]) -> CommandOutcome>(&self, run: &R, unit: &str) -> (r:
        Result<(), WatchdogError>)
        requires
            may_run(*run, "systemctl"@, unit_args("reset-failed"@, unit@)),
        ensures
            exists|out: CommandOutcome| #[trigger]
                runs(*run, "systemctl"@, unit_args("reset-failed"@, unit@), out)
                    && is_command_result(unit_args("reset-failed"@, unit@), out, r),
    {
        let args = ["--user", "reset-failed", unit];
        assert(strs(args@) == unit_args("reset-failed"@, unit@));
        run_systemctl(run, &args)
    }

    /// Starts `unit` through `run`.
    pub fn start_unit<R: Fn(&str, &[&str]) -> CommandOutcome>(&self, run: &R, unit: &str) -> (r:
        Result<(), WatchdogError>)
        requires
            may_run(*run, "systemctl"@, unit_args("start"@, unit@)),
        ensures
            exists|out: CommandOutcome| #[trigger]
                runs(*run, "systemctl"@, unit_args("start"@, unit@), out)
                    && is_command_result(unit_args("start"@, unit@), out, r),
    {
        let args = ["--user", "start", unit];
        assert(strs(args@) == unit_args("start"@, unit@));
        run_systemctl(run, &args)
    }

    /// Asks through `run` whether `unit` is in the failed state.
    pub fn unit_is_failed<R: Fn(&str, &[&str]) -> CommandOutcome>(&self, run: &R, unit: &str) -> (r:
        Result<bool, WatchdogError>)
        requires
            may_run(*run, "systemctl"@, unit_args("is-failed"@, unit@)),
        ensures
            exists|out: CommandOutcome| #[trigger]
                runs(*run, "systemctl"@, unit_args("is-failed"@, unit@), out)
                    && is_failed_answer(unit@, out, r) && (out matches CommandOutcome::Done {
                    success,
                    code,
                    stdout,
                } ==> r == Ok::<bool, WatchdogError>(trim_of(stdout@) == "failed"@)),
    {
        let args = ["--user", "is-failed", unit];
        assert(strs(args@) == unit_args("is-failed"@, unit@));
        let out = run("systemctl", &args);
        assert(runs(*run, "systemctl"@, unit_args("is-failed"@, unit@), out));
        failed_answer(unit, out)
    }
}

} // verus!
