//! Launching children.

use crate::fleet::{ChildSpec, ChildSpecModel};
use crate::text::{same, texts, trim, trim_of};
use vstd::prelude::*;

verus! {

/// The text that the standard library's `Debug` writes for a string.
pub uninterp spec fn debug_of(s: Seq<char>) -> Seq<char>;

/// `format!` with `{:?}` on a string: the string in double quotes, with
/// escapes. What it writes is named `debug_of`, a function of the characters
/// of the string alone.
#[verifier::external_body]
fn debug_text(s: &str) -> (r: String)
    ensures
        r@ == debug_of(s@),
{
    format!("{:?}", s)
}

/// A child that was started.
#[derive(Debug, Clone, PartialEq, Eq)]
pub struct StartedChild {
    /// Id of the job: the logical name of the child.
    pub id: String,
    /// Process id of the supervised process.
    pub child_pid: u32,
    /// Process id of the launcher; zero where it does not fork.
    pub supervisor_pid: u32,
}

/// Why a child could not be started or probed.
#[derive(Debug, Clone, PartialEq, Eq)]
pub struct SpawnError {
    /// What went wrong.
    pub message: String,
}

/// Starts children and says whether they still run. It may be asked for what it
/// permits alone: what a caller may count on being permitted bounds what it can
/// ask for.
pub trait Spawner: Send + Sync {
    /// Whether a start of `child` may be asked for; of any, unless an
    /// implementation says otherwise.
    open spec fn may_start(&self, child: ChildSpecModel) -> bool {
        true
    }

    /// Whether the process `pid` may be asked about; any, unless an
    /// implementation says otherwise.
    open spec fn may_probe(&self, pid: u32) -> bool {
        true
    }

    /// Starts `spec` and returns the process ids.
    fn start(&self, spec: &ChildSpec) -> (r: Result<StartedChild, SpawnError>)
        requires
            self.may_start(spec@),
    ;

    /// Whether the process `pid` still runs.
    fn still_running(&self, pid: u32) -> (r: Result<bool, SpawnError>)
        requires
            self.may_probe(pid),
    ;
}

/// Whether `out` is something that `spawner` gives for a start of `child`.
pub open spec fn starts<S: Spawner>(
    spawner: &S,
    child: ChildSpecModel,
    out: Result<StartedChild, SpawnError>,
) -> bool {
    exists|c: &ChildSpec| c@ == child && #[trigger] call_ensures(S::start, (spawner, c), out)
}

/// Whether `out` is something that `spawner` gives for a probe of `pid`.
pub open spec fn probes<S: Spawner>(spawner: &S, pid: u32, out: Result<bool, SpawnError>) -> bool {
    call_ensures(S::still_running, (spawner, pid), out)
}

/// The launcher that runs `pevent run --id <name> -- <program> <args...>`.
#[derive(Debug, Clone, PartialEq, Eq)]
pub struct PeventSpawner {
    /// Name of the `pevent` binary; `pevent` where none is given.
    pub binary: Option<String>,
}

/// What became of a run of the launcher.
#[derive(Debug, Clone, PartialEq, Eq)]
pub enum LaunchOutcome {
    /// The binary could not be run.
    NotRun,
    /// It ended without success.
    Failed {
        /// Its exit status, in words.
        status: String,
        /// What it wrote to standard error.
        stderr: String,
    },
    /// It succeeded, and what it printed is not text.
    NotText,
    /// It succeeded and printed this.
    Printed(String),
}

/// Whether `run` may be asked to run `binary` with `args`.
pub open spec fn may_launch<R: Fn(&str, &Vec<String>) -> LaunchOutcome>(
    run: R,
    binary: Seq<char>,
    args: Seq<Seq<char>>,
) -> bool {
    forall|b: &str, a: &Vec<String>|
        b@ == binary && texts(a@) == args ==> #[trigger] run.requires((b, a))
}

/// Whether `out` is something that `run` gives for `binary` with `args`.
pub open spec fn launches<R: Fn(&str, &Vec<String>) -> LaunchOutcome>(
    run: R,
    binary: Seq<char>,
    args: Seq<Seq<char>>,
    out: LaunchOutcome,
) -> bool {
    exists|b: &str, a: &Vec<String>|
        b@ == binary && texts(a@) == args && #[trigger] run.ensures((b, a), out)
}

/// Whether `parse` may be asked about any text.
pub open spec fn may_parse<P: Fn(&str) -> Option<PeventRunReply>>(parse: P) -> bool {
    forall|t: &str| #[trigger] parse.requires((t,))
}

/// Whether `reply` is something that `parse` reads from `text`.
pub open spec fn parses<P: Fn(&str) -> Option<PeventRunReply>>(
    parse: P,
    text: Seq<char>,
    reply: Option<PeventRunReply>,
) -> bool {
    exists|t: &str| t@ == text && #[trigger] parse.ensures((t,), reply)
}

/// The launcher's reply.
#[derive(Debug, Clone, PartialEq, Eq)]
pub struct PeventRunReply {
    /// Id of the job.
    pub id: String,
    /// Process id of the supervised process.
    pub child_pid: u32,
    /// Process id of the launcher.
    pub supervisor_pid: u32,
}

impl Default for PeventSpawner {
    /// The launcher under its usual name.
    fn default() -> (r: Self)
        ensures
            r.binary is None,
    {
        PeventSpawner { binary: None }
    }
}

impl PeventSpawner {
    /// The name of the binary.
    pub open spec fn binary_of(&self) -> Seq<char> {
        match self.binary {
            Some(b) => b@,
            None => "pevent"@,
        }
    }

    /// The name of the binary.
    pub fn binary_name(&self) -> (r: String)
        ensures
            r@ == self.binary_of(),
    {
        match &self.binary {
            Some(b) => b.clone(),
            None => "pevent".to_owned(),
        }
    }

    /// The arguments with which the binary is run to start `child`.
    pub open spec fn run_args_of(child: ChildSpecModel) -> Seq<Seq<char>> {
        seq!["run"@, "--id"@, child.name, "--"@, child.program] + child.args
    }

    /// Why a run of the launcher started nothing; none where it printed a text.
    pub open spec fn launch_error(&self, child: ChildSpecModel, outcome: LaunchOutcome) -> Option<
        Seq<char>,
    > {
        match outcome {
            LaunchOutcome::NotRun => Some(
                "invoke `"@ + self.binary_of() + " run --id "@ + child.name + "`"@,
            ),
            LaunchOutcome::Failed { status, stderr } => Some(
                "pevent run failed (status "@ + status@ + "): "@ + trim_of(stderr@),
            ),
            LaunchOutcome::NotText => Some("pevent stdout was not utf-8"@),
            LaunchOutcome::Printed(_) => None,
        }
    }

    /// What a reply makes of a start of `child`: the reply must be about it.
    pub open spec fn accepts(
        child: ChildSpecModel,
        reply: PeventRunReply,
        r: Result<StartedChild, SpawnError>,
    ) -> bool {
        if reply.id@ == child.name {
            r matches Ok(s) && s.id == reply.id && s.child_pid == reply.child_pid
                && s.supervisor_pid == reply.supervisor_pid
        } else {
            r matches Err(e) && e.message@ == "pevent echoed id "@ + debug_of(reply.id@)
                + ", expected "@ + debug_of(child.name)
        }
    }

    /// What becomes of a start of `child` whose run printed `stdout`.
    pub open spec fn takes_reply<P: Fn(&str) -> Option<PeventRunReply>>(
        parse: P,
        child: ChildSpecModel,
        stdout: Seq<char>,
        r: Result<StartedChild, SpawnError>,
    ) -> bool {
        exists|reply: Option<PeventRunReply>| #[trigger]
            parses(parse, trim_of(stdout), reply) && match reply {
                Some(p) => Self::accepts(child, p, r),
                None => r matches Err(e) && e.message@ == "parse pevent reply: "@ + debug_of(
                    trim_of(stdout),
                ),
            }
    }

    /// Starts `spec`: runs the launcher, reads its reply, and takes the process
    /// ids from it. `run` runs a binary with arguments; `parse` reads a reply,
    /// and gives none where the text is no reply.
    pub fn start_with<
        R: Fn(&str, &Vec<String>) -> LaunchOutcome,
        P: Fn(&str) -> Option<PeventRunReply>,
    >(&self, spec: &ChildSpec, run: &R, parse: &P) -> (r: Result<StartedChild, SpawnError>)
        requires
            may_launch(*run, self.binary_of(), Self::run_args_of(spec@)),
            may_parse(*parse),
        ensures
            exists|outcome: LaunchOutcome| #[trigger]
                launches(*run, self.binary_of(), Self::run_args_of(spec@), outcome)
                    && match outcome {
                    LaunchOutcome::Printed(stdout) => Self::takes_reply(
                        *parse,
                        spec@,
                        stdout@,
                        r,
                    ),
                    _ => r matches Err(e) && Some(e.message@) == self.launch_error(spec@, outcome),
                },
    {
        let binary = self.binary_name();
        let args = self.run_args(spec);
        let outcome = run(binary.as_str(), &args);
        let ghost got = outcome;
        assert(launches(*run, self.binary_of(), Self::run_args_of(spec@), got));
        match self.check_launch(spec, outcome) {
            Err(e) => Err(e),
            Ok(text) => {
                let reply = parse(text.as_str());
                assert(parses(*parse, text@, reply));
                match reply {
                    Some(p) => self.accept_reply(spec, p),
                    None => Err(self.bad_reply(text.as_str())),
                }
            },
        }
    }

    /// The arguments with which the binary is run to start `spec`.
    pub fn run_args(&self, spec: &ChildSpec) -> (r: Vec<String>)
        ensures
            texts(r@) == Self::run_args_of(spec@),
    {
        let mut out: Vec<String> = Vec::new();
        out.push("run".to_owned());
        out.push("--id".to_owned());
        out.push(spec.name.clone());
        out.push("--".to_owned());
        out.push(spec.program.clone());
        let ghost head = seq!["run"@, "--id"@, spec@.name, "--"@, spec@.program];
        assert(texts(out@) == head);
        let mut i: usize = 0;
        assert(texts(out@) == head + texts(spec.args@).take(0));
        while i < spec.args.len()
            invariant
                i <= spec.args.len(),
                texts(out@) == head + texts(spec.args@).take(i as int),
            decreases spec.args.len() - i,
        {
            let ghost before = out@;
            out.push(spec.args[i].clone());
            assert(texts(out@) == texts(before).push(spec.args@[i as int]@));
            assert(texts(out@) == head + texts(spec.args@).take(i + 1));
            i += 1;
        }
        assert(texts(spec.args@).take(i as int) == texts(spec.args@));
        out
    }

    /// The reply text of a run that started `spec`, or why there is none.
    pub fn check_launch(&self, spec: &ChildSpec, outcome: LaunchOutcome) -> (r: Result<
        String,
        SpawnError,
    >)
        ensures
            match outcome {
                LaunchOutcome::Printed(stdout) => r matches Ok(t) && t@ == trim_of(stdout@),
                _ => r matches Err(e) && Some(e.message@) == self.launch_error(spec@, outcome),
            },
    {
        match outcome {
            LaunchOutcome::NotRun => {
                let message = "invoke `".to_owned().concat(self.binary_name().as_str()).concat(
                    " run --id ",
                ).concat(spec.name.as_str()).concat("`");
                Err(SpawnError { message })
            },
            LaunchOutcome::Failed { status, stderr } => {
                let message = "pevent run failed (status ".to_owned().concat(
                    status.as_str(),
                ).concat("): ").concat(trim(stderr.as_str()).as_str());
                Err(SpawnError { message })
            },
            LaunchOutcome::NotText => Err(
                SpawnError { message: "pevent stdout was not utf-8".to_owned() },
            ),
            LaunchOutcome::Printed(stdout) => Ok(trim(stdout.as_str())),
        }
    }

    /// The error for a reply text that is no reply.
    pub fn bad_reply(&self, text: &str) -> (r: SpawnError)
        ensures
            r.message@ == "parse pevent reply: "@ + debug_of(text@),
    {
        SpawnError { message: "parse pevent reply: ".to_owned().concat(debug_text(text).as_str()) }
    }

    /// The started child of a reply, which must be about `spec`.
    pub fn accept_reply(&self, spec: &ChildSpec, reply: PeventRunReply) -> (r: Result<
        StartedChild,
        SpawnError,
    >)
        ensures
            Self::accepts(spec@, reply, r),
    {
        if !same(reply.id.as_str(), spec.name.as_str()) {
            let message = "pevent echoed id ".to_owned().concat(
                debug_text(reply.id.as_str()).as_str(),
            ).concat(", expected ").concat(debug_text(spec.name.as_str()).as_str());
            return Err(SpawnError { message });
        }
        Ok(
            StartedChild {
                id: reply.id,
                child_pid: reply.child_pid,
                supervisor_pid: reply.supervisor_pid,
            },
        )
    }
}

} // verus!
