//! One place for the fleet's binaries, and unit files that agree with it.

use crate::files::{join_of, join_path};
use crate::text::{
    after_prefix, contains_char, ends_with, join, lines, lines_of, split_once, split_once_of,
    starts_with, strip_prefix, text_opt, texts,
};
use vstd::prelude::*;

verus! {

/// Where the fleet's binaries are installed, as people write it.
pub const FLEET_INSTALL_DIR: &'static str = "~/.local/bin";

/// Where the fleet's binaries are installed, below the home directory.
pub const FLEET_INSTALL_SUBDIR: &'static str = ".local/bin";

/// The binaries of this project.
pub const PLATFORM_BINARIES: [&'static str; 2] = ["wmd-init", "wm"];

/// All binaries of the fleet.
pub const FLEET_BINARIES: [&'static str; 8] = [
    "wmd-init",
    "wm",
    "wm-audio",
    "wm-tts",
    "wm-stt",
    "wm-dialog",
    "wmd",
    "wm-bootstrap",
];

/// Where the fleet's binaries are installed under the home directory `home`.
pub fn fleet_install_dir_with(home: &str) -> (r: String)
    ensures
        r@ == join_of(home@, FLEET_INSTALL_SUBDIR@),
{
    join_path(home, FLEET_INSTALL_SUBDIR)
}

/// The path of `binary` under the home directory `home`.
pub fn binary_install_path(home: &str, binary: &str) -> (r: String)
    ensures
        r@ == join_of(join_of(home@, FLEET_INSTALL_SUBDIR@), binary@),
{
    join_path(fleet_install_dir_with(home).as_str(), binary)
}

// ---------------------------------------------------------------------------
// Rewriting
// ---------------------------------------------------------------------------

/// The directories from which binaries are moved to the fleet's own.
pub const KNOWN_PREFIXES: [&'static str; 5] = [
    "/usr/local/bin/",
    "%h/.local/bin/",
    "%h/.cargo/bin/",
    "~/.local/bin/",
    "~/.cargo/bin/",
];

/// The name `rest`, if it is one: not empty and without a slash.
pub open spec fn plain_name(rest: Seq<char>) -> Option<Seq<char>> {
    if rest.len() > 0 && !rest.contains('/') {
        Some(rest)
    } else {
        None
    }
}

/// The name of a binary directly below the directory `prefix`.
pub open spec fn name_below(path: Seq<char>, prefix: Seq<char>) -> Option<Seq<char>> {
    match after_prefix(path, prefix) {
        Some(rest) => plain_name(rest),
        None => None,
    }
}

/// The name of a binary directly below one of the known directories from
/// position `k` on.
pub open spec fn name_known(path: Seq<char>, k: int) -> Option<Seq<char>>
    decreases 5 - k,
{
    if k >= 5 {
        None
    } else if name_below(path, KNOWN_PREFIXES[k]@) is Some {
        name_below(path, KNOWN_PREFIXES[k]@)
    } else {
        name_known(path, k + 1)
    }
}

/// The name of a binary in `.local/bin` or `.cargo/bin` of some home directory.
pub open spec fn name_in_home(path: Seq<char>) -> Option<Seq<char>> {
    match after_prefix(path, "/home/"@) {
        Some(after_home) => match split_once_of(after_home, '/') {
            Some(parts) => match after_prefix(parts.1, ".local/bin/"@) {
                Some(rest) => plain_name(rest),
                None => name_below(parts.1, ".cargo/bin/"@),
            },
            None => None,
        },
        None => None,
    }
}

/// The name of the fleet binary that `path` stands for, if it does for one.
pub open spec fn binary_name_of(path: Seq<char>) -> Option<Seq<char>> {
    match name_known(path, 0) {
        Some(name) => Some(name),
        None => name_in_home(path),
    }
}

/// The command of an `ExecStart=` value and what follows the first space.
pub open spec fn command_of(rest: Seq<char>) -> (Seq<char>, Seq<char>) {
    match split_once_of(rest, ' ') {
        Some(parts) => parts,
        None => (rest, Seq::empty()),
    }
}

/// The line that starts the binary `name` from the fleet's directory.
pub open spec fn fleet_line(name: Seq<char>, args: Seq<char>) -> Seq<char> {
    if args.len() == 0 {
        "ExecStart=%h/.local/bin/"@ + name
    } else {
        "ExecStart=%h/.local/bin/"@ + name + " "@ + args
    }
}

/// A line of a unit file, rewritten to start its binary from the fleet's
/// directory; other lines stay.
pub open spec fn rewrite_of(line: Seq<char>) -> Seq<char> {
    match after_prefix(line, "ExecStart="@) {
        Some(rest) => match binary_name_of(command_of(rest).0) {
            Some(name) => fleet_line(name, command_of(rest).1),
            None => line,
        },
        None => line,
    }
}

/// The name `rest`, if it is one.
fn as_plain_name(rest: String) -> (r: Option<String>)
    ensures
        text_opt(r) == plain_name(rest@),
{
    if rest.as_str().unicode_len() > 0 && !contains_char(rest.as_str(), '/') {
        Some(rest)
    } else {
        None
    }
}

/// The name of a binary directly below the directory `prefix`.
fn find_below(path: &str, prefix: &str) -> (r: Option<String>)
    ensures
        text_opt(r) == name_below(path@, prefix@),
{
    match strip_prefix(path, prefix) {
        Some(rest) => as_plain_name(rest),
        None => None,
    }
}

/// The name of a binary in `.local/bin` or `.cargo/bin` of some home directory.
fn extract_from_home_prefix(path: &str) -> (r: Option<String>)
    ensures
        text_opt(r) == name_in_home(path@),
{
    match strip_prefix(path, "/home/") {
        Some(after_home) => match split_once(after_home.as_str(), '/') {
            Some(parts) => match strip_prefix(parts.1.as_str(), ".local/bin/") {
                Some(rest) => as_plain_name(rest),
                None => find_below(parts.1.as_str(), ".cargo/bin/"),
            },
            None => None,
        },
        None => None,
    }
}

/// The name of the fleet binary that `path` stands for.
fn extract_binary_name(path: &str) -> (r: Option<String>)
    ensures
        text_opt(r) == binary_name_of(path@),
{
    let mut k: usize = 0;
    while k < 5
        invariant
            k <= 5,
            name_known(path@, 0) == name_known(path@, k as int),
        decreases 5 - k,
    {
        let name = find_below(path, KNOWN_PREFIXES[k]);
        if name.is_some() {
            return name;
        }
        k += 1;
    }
    extract_from_home_prefix(path)
}

/// Rewrites a line of a unit file so that a fleet binary is started from the
/// fleet's directory, its arguments kept. Other lines are returned as they are.
pub fn rewrite_exec_start(line: &str) -> (r: String)
    ensures
        r@ == rewrite_of(line@),
{
    let rest = match strip_prefix(line, "ExecStart=") {
        Some(rest) => rest,
        None => {
            return line.to_owned();
        },
    };
    let (command, args) = match split_once(rest.as_str(), ' ') {
        Some(parts) => parts,
        None => (rest, String::new()),
    };
    match extract_binary_name(command.as_str()) {
        Some(name) => {
            let start = "ExecStart=%h/.local/bin/".to_owned().concat(name.as_str());
            if args.as_str().unicode_len() == 0 {
                start
            } else {
                start.concat(" ").concat(args.as_str())
            }
        },
        None => line.to_owned(),
    }
}

/// All lines, rewritten.
pub open spec fn rewrite_all(ls: Seq<Seq<char>>) -> Seq<Seq<char>> {
    ls.map_values(|l: Seq<char>| rewrite_of(l))
}

/// A unit file with all its lines rewritten. It ends in a line feed exactly if
/// it did before.
pub open spec fn rewrite_unit_of(body: Seq<char>) -> Seq<char> {
    crate::text::join_of(rewrite_all(lines_of(body)), "\n"@) + if "\n"@.is_suffix_of(body) {
        "\n"@
    } else {
        Seq::empty()
    }
}

/// Rewrites all lines of a unit file.
pub fn rewrite_unit_exec_starts(unit_body: &str) -> (r: String)
    ensures
        r@ == rewrite_unit_of(unit_body@),
{
    let ls = lines(unit_body);
    let ghost t = texts(ls@);
    let mut out: Vec<String> = Vec::new();
    let mut i: usize = 0;
    while i < ls.len()
        invariant
            i <= ls.len(),
            t == texts(ls@),
            out.len() == i,
            forall|j: int| 0 <= j < i ==> (#[trigger] out@[j])@ == rewrite_of(t[j]),
        decreases ls.len() - i,
    {
        assert(t[i as int] == ls@[i as int]@);
        out.push(rewrite_exec_start(ls[i].as_str()));
        i += 1;
    }
    assert(texts(out@) == rewrite_all(t));
    let joined = join(&out, "\n");
    if ends_with(unit_body, "\n") {
        joined.concat("\n")
    } else {
        assert(joined@ + Seq::<char>::empty() == joined@);
        joined
    }
}

// ---------------------------------------------------------------------------
// Checking
// ---------------------------------------------------------------------------

/// What a check of one unit file gave.
#[derive(Debug, Clone, PartialEq, Eq)]
pub struct UnitConventionCheck {
    /// Name of the unit file.
    pub unit_name: String,
    /// Whether every line agrees with the convention.
    pub compliant: bool,
    /// The first `ExecStart=` value that does not.
    pub offending_exec_start: Option<String>,
}

/// The `ExecStart=` value of a line that does not agree with the convention.
/// Values below `/bin` and `/usr/bin` are no binaries of the fleet.
pub open spec fn offence_in(line: Seq<char>) -> Option<Seq<char>> {
    match after_prefix(line, "ExecStart="@) {
        Some(rest) => if "/bin/"@.is_prefix_of(rest) || "/usr/bin/"@.is_prefix_of(rest)
            || "%h/.local/bin/"@.is_prefix_of(rest) {
            None
        } else {
            Some(rest)
        },
        None => None,
    }
}

/// The first offence in the lines.
pub open spec fn offence_of(ls: Seq<Seq<char>>) -> Option<Seq<char>>
    decreases ls.len(),
{
    if ls.len() == 0 {
        None
    } else if offence_in(ls[0]) is Some {
        offence_in(ls[0])
    } else {
        offence_of(ls.drop_first())
    }
}

/// The `ExecStart=` value of a line that does not agree with the convention.
fn find_offence(line: &str) -> (r: Option<String>)
    ensures
        text_opt(r) == offence_in(line@),
{
    match strip_prefix(line, "ExecStart=") {
        Some(rest) => {
            if starts_with(rest.as_str(), "/bin/") || starts_with(rest.as_str(), "/usr/bin/")
                || starts_with(rest.as_str(), "%h/.local/bin/") {
                None
            } else {
                Some(rest)
            }
        },
        None => None,
    }
}

/// Checks a unit file against the convention.
pub fn check_unit_convention(unit_name: &str, unit_body: &str) -> (r: UnitConventionCheck)
    ensures
        r.unit_name@ == unit_name@,
        text_opt(r.offending_exec_start) == offence_of(lines_of(unit_body@)),
        r.compliant == (offence_of(lines_of(unit_body@)) is None),
{
    let ls = lines(unit_body);
    let ghost t = texts(ls@);
    let mut offending: Option<String> = None;
    let mut i: usize = 0;
    assert(t.skip(0) == t);
    while i < ls.len() && offending.is_none()
        invariant
            i <= ls.len(),
            t == texts(ls@),
            match offending {
                Some(o) => offence_of(t) == Some(o@),
                None => offence_of(t) == offence_of(t.skip(i as int)),
            },
        decreases ls.len() - i,
    {
        assert(t.skip(i as int)[0] == ls@[i as int]@);
        offending = find_offence(ls[i].as_str());
        assert(t.skip(i as int).drop_first() == t.skip(i + 1));
        i += 1;
    }
    let compliant = offending.is_none();
    UnitConventionCheck { unit_name: unit_name.to_owned(), compliant, offending_exec_start: offending }
}

// ---------------------------------------------------------------------------
// Installing
// ---------------------------------------------------------------------------

/// One file that the installer puts in its place.
#[derive(Debug, Clone, PartialEq, Eq)]
pub struct InstallOp {
    /// The built binary.
    pub src: String,
    /// Its place.
    pub dst: String,
    /// Whether there is a file in its place already.
    pub already_correct: bool,
}

/// Whether asking `exists_at` about `path` may give `yes`.
pub open spec fn says_exists<F: Fn(&str) -> bool>(
    exists_at: F,
    path: Seq<char>,
    yes: bool,
) -> bool {
    exists|p: &str| p@ == path && #[trigger] exists_at.ensures((p,), yes)
}

/// Whether `op` is how `binary` gets from `release_dir` to `install_dir`.
pub open spec fn installs<F: Fn(&str) -> bool>(
    exists_at: F,
    release_dir: Seq<char>,
    install_dir: Seq<char>,
    binary: Seq<char>,
    op: InstallOp,
) -> bool {
    &&& op.src@ == join_of(release_dir, binary)
    &&& op.dst@ == join_of(install_dir, binary)
    &&& says_exists(exists_at, op.dst@, op.already_correct)
}

/// What the installer does to put `binaries` from `release_dir` into
/// `install_dir`, one operation for each in their order. Whether a file is in
/// its place already is asked through `exists_at`.
pub fn plan_install<F: Fn(&str) -> bool>(
    release_dir: &str,
    install_dir: &str,
    binaries: &[&str],
    exists_at: &F,
) -> (r: Vec<InstallOp>)
    requires
        forall|p: &str| exists_at.requires((p,)),
    ensures
        r@.len() == binaries@.len(),
        forall|i: int|
            0 <= i < r@.len() ==> installs(
                *exists_at,
                release_dir@,
                install_dir@,
                binaries@[i]@,
                #[trigger] r@[i],
            ),
{
    let mut out: Vec<InstallOp> = Vec::new();
    let mut i: usize = 0;
    while i < binaries.len()
        invariant
            i <= binaries.len(),
            forall|p: &str| exists_at.requires((p,)),
            out.len() == i,
            forall|j: int|
                0 <= j < i ==> installs(
                    *exists_at,
                    release_dir@,
                    install_dir@,
                    binaries@[j]@,
                    #[trigger] out@[j],
                ),
        decreases binaries.len() - i,
    {
        let src = join_path(release_dir, binaries[i]);
        let dst = join_path(install_dir, binaries[i]);
        let p: &str = dst.as_str();
        let already_correct = exists_at(p);
        assert(says_exists(*exists_at, dst@, already_correct));
        out.push(InstallOp { src, dst, already_correct });
        i += 1;
    }
    out
}

} // verus!
