//! Commands of the host, run by the caller.

use crate::number::{signed, signed_of};
use crate::text::strs;
use vstd::prelude::*;

verus! {

/// What became of a command.
#[derive(Debug, Clone, PartialEq, Eq)]
pub enum CommandOutcome {
    /// It could not be run; the text says why.
    NotRun(String),
    /// It ran to its end.
    Done {
        /// Whether it succeeded.
        success: bool,
        /// Its exit code, if it had one.
        code: Option<i32>,
        /// What it wrote to standard output.
        stdout: String,
    },
}

/// Whether `run` may be asked to run the command `cmd` with `args`.
pub open spec fn may_run<T, R: Fn(&str, &[&str]) -> T>(
    run: R,
    cmd: Seq<char>,
    args: Seq<Seq<char>>,
) -> bool {
    forall|c: &str, a: &[&str]|
        c@ == cmd && strs(a@) == args ==> #[trigger] run.requires((c, a))
}

/// Whether `out` is something that `run` gives for the command `cmd` with `args`.
pub open spec fn runs<T, R: Fn(&str, &[&str]) -> T>(
    run: R,
    cmd: Seq<char>,
    args: Seq<Seq<char>>,
    out: T,
) -> bool {
    exists|c: &str, a: &[&str]|
        c@ == cmd && strs(a@) == args && #[trigger] run.ensures((c, a), out)
}

/// An exit code in words, as in `exit code Some(1)`.
pub open spec fn exit_detail_of(code: Option<i32>) -> Seq<char> {
    match code {
        Some(c) => "exit code Some("@ + signed_of(c as int) + ")"@,
        None => "exit code None"@,
    }
}

/// An exit code in words.
pub fn exit_detail(code: Option<i32>) -> (r: String)
    ensures
        r@ == exit_detail_of(code),
{
    match code {
        Some(c) => "exit code Some(".to_owned().concat(signed(c).as_str()).concat(")"),
        None => "exit code None".to_owned(),
    }
}

} // verus!
