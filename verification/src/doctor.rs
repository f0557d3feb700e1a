//! `wm doctor`: the health of the fleet's installation.
//!
//! For every unit of the fleet: which binary it starts, whether that exists
//! and is executable, and whether the unit is enabled, active and pulled in by
//! the fleet's target. Everything here only looks; nothing is changed.

use crate::commands::runs;
use crate::files::{join_of, join_path};
use crate::number::{decimal, decimal_of, is_u32, parse_u32, unsigned_digits, value_of};
use crate::order::{ascending, insert_text};
use crate::text::{
    after_prefix, contains_text, ends_with, join, lines, lines_of, pad_right, pad_right_of, repeat,
    repeat_of, replace, replace_of, same, str_opt, strip_prefix, strs, text_opt, texts, trim,
    trim_of, trim_start_matches, trim_start_of, words, words_of,
};
use vstd::prelude::*;

verus! {

/// Which service managers are looked at.
#[derive(Debug, Clone, Copy, PartialEq, Eq, Structural)]
pub enum DoctorScope {
    /// The user's.
    User,
    /// The system's.
    System,
    /// Both.
    Both,
}

impl Default for DoctorScope {
    /// The user's service manager.
    fn default() -> (r: Self)
        ensures
            r == DoctorScope::User,
    {
        DoctorScope::User
    }
}

/// What was found of one unit.
#[derive(Debug, Clone, PartialEq, Eq)]
pub struct UnitReport {
    /// Name of the unit.
    pub unit: String,
    /// First word of its `ExecStart=`; empty if it has none.
    pub exec_start: String,
    /// Path of the binary, specifiers expanded.
    pub resolved: String,
    /// Whether the binary exists.
    pub exists: bool,
    /// Whether the binary is executable.
    pub executable: bool,
    /// Answer of `systemctl is-enabled`.
    pub enabled: String,
    /// Answer of `systemctl is-active`.
    pub active: String,
    /// Whether the fleet's target pulls the unit in.
    pub in_target: bool,
    /// `user` or `system`.
    pub scope: String,
}

/// What a [`UnitReport`] says, as text.
#[verifier::ext_equal]
pub struct UnitModel {
    /// Name of the unit.
    pub unit: Seq<char>,
    /// First word of its `ExecStart=`.
    pub exec_start: Seq<char>,
    /// Path of the binary.
    pub resolved: Seq<char>,
    /// Whether the binary exists.
    pub exists: bool,
    /// Whether the binary is executable.
    pub executable: bool,
    /// Answer of `systemctl is-enabled`.
    pub enabled: Seq<char>,
    /// Answer of `systemctl is-active`.
    pub active: Seq<char>,
    /// Whether the fleet's target pulls the unit in.
    pub in_target: bool,
    /// `user` or `system`.
    pub scope: Seq<char>,
}

impl View for UnitReport {
    type V = UnitModel;

    open spec fn view(&self) -> UnitModel {
        UnitModel {
            unit: self.unit@,
            exec_start: self.exec_start@,
            resolved: self.resolved@,
            exists: self.exists,
            executable: self.executable,
            enabled: self.enabled@,
            active: self.active@,
            in_target: self.in_target,
            scope: self.scope@,
        }
    }
}

/// The models of a sequence of reports.
pub open spec fn units_of(v: Seq<UnitReport>) -> Seq<UnitModel> {
    v.map_values(|u: UnitReport| u@)
}

impl UnitModel {
    /// Whether the binary is present and executable.
    pub open spec fn ok(self) -> bool {
        self.exists && self.executable
    }
}

impl UnitReport {
    /// Whether the binary is present and executable.
    pub fn binary_ok(&self) -> (r: bool)
        ensures
            r == self@.ok(),
    {
        self.exists && self.executable
    }
}

/// What was found of all units.
#[derive(Debug, Clone, PartialEq, Eq)]
pub struct DoctorReport {
    /// One report for each unit, in the order of discovery.
    pub units: Vec<UnitReport>,
    /// Names of the units whose binary is missing or not executable.
    pub failures: Vec<String>,
    /// Whether every unit's binary is present and executable.
    pub all_ok: bool,
}

// ---------------------------------------------------------------------------
// Specifiers
// ---------------------------------------------------------------------------

/// What the host says of the user.
#[derive(Debug, Clone, PartialEq, Eq)]
pub struct HostEnv {
    /// The variable `HOME`, if set.
    pub home: Option<String>,
    /// The variable `USER`, if set.
    pub user: Option<String>,
    /// The variable `UID`, if set.
    pub uid: Option<String>,
    /// The text of `/proc/self/status`, if readable.
    pub proc_status: Option<String>,
}

impl Default for HostEnv {
    /// A host that says nothing.
    fn default() -> (r: Self)
        ensures
            r.home is None && r.user is None && r.uid is None && r.proc_status is None,
    {
        HostEnv { home: None, user: None, uid: None, proc_status: None }
    }
}

/// The user id of a line of `/proc/self/status`, if it gives one.
pub open spec fn uid_in_line(line: Seq<char>) -> Option<nat> {
    match after_prefix(line, "Uid:"@) {
        Some(rest) => if words_of(rest).len() > 0 && is_u32(words_of(rest)[0]) {
            Some(value_of(unsigned_digits(words_of(rest)[0])))
        } else {
            None
        },
        None => None,
    }
}

/// The first user id in the lines of `/proc/self/status`; zero if there is none.
pub open spec fn uid_in_status(ls: Seq<Seq<char>>) -> nat
    decreases ls.len(),
{
    if ls.len() == 0 {
        0
    } else {
        match uid_in_line(ls[0]) {
            Some(uid) => uid,
            None => uid_in_status(ls.drop_first()),
        }
    }
}

/// The home directory: the override, or the host's, or `/root`.
pub open spec fn home_for(chosen: Option<Seq<char>>, host: HostEnv) -> Seq<char> {
    match chosen {
        Some(h) => h,
        None => match host.home {
            Some(h) => h@,
            None => "/root"@,
        },
    }
}

/// The user name: the override, or the host's, or `root`.
pub open spec fn user_for(chosen: Option<Seq<char>>, host: HostEnv) -> Seq<char> {
    match chosen {
        Some(u) => u,
        None => match host.user {
            Some(u) => u@,
            None => "root"@,
        },
    }
}

/// The user id: the override, or the host's variable where it is a number, or
/// that of the process, or zero.
pub open spec fn uid_for(chosen: Option<u32>, host: HostEnv) -> nat {
    match chosen {
        Some(u) => u as nat,
        None => match host.uid {
            Some(text) if is_u32(text@) => value_of(unsigned_digits(text@)),
            _ => match host.proc_status {
                Some(status) => uid_in_status(lines_of(status@)),
                None => 0,
            },
        },
    }
}

/// `raw` with `%h`, `%u` and `%U` replaced, in this order.
pub open spec fn expand_of(
    raw: Seq<char>,
    home: Seq<char>,
    user: Seq<char>,
    uid: nat,
) -> Seq<char> {
    replace_of(
        replace_of(replace_of(raw, "%h"@, home), "%u"@, user),
        "%U"@,
        decimal_of(uid),
    )
}

/// The user id of a line of `/proc/self/status`.
fn uid_of_line(line: &str) -> (r: Option<u32>)
    ensures
        match r {
            Some(u) => uid_in_line(line@) == Some(u as nat),
            None => uid_in_line(line@) is None,
        },
{
    match strip_prefix(line, "Uid:") {
        Some(rest) => {
            let ws = words(rest.as_str());
            assert(texts(ws@).len() == ws@.len());
            if ws.len() > 0 {
                assert(texts(ws@)[0] == ws@[0]@);
                parse_u32(ws[0].as_str())
            } else {
                None
            }
        },
        None => None,
    }
}

/// The first user id in the text of `/proc/self/status`.
fn uid_of_status(status: &str) -> (r: u32)
    ensures
        r == uid_in_status(lines_of(status@)),
{
    let ls = lines(status);
    let ghost t = texts(ls@);
    let mut i: usize = 0;
    assert(t.skip(0) == t);
    while i < ls.len()
        invariant
            i <= ls.len(),
            t == texts(ls@),
            t == lines_of(status@),
            uid_in_status(t) == uid_in_status(t.skip(i as int)),
        decreases ls.len() - i,
    {
        assert(t.skip(i as int)[0] == ls@[i as int]@);
        if let Some(uid) = uid_of_line(ls[i].as_str()) {
            return uid;
        }
        assert(t.skip(i as int).drop_first() == t.skip(i + 1));
        i += 1;
    }
    0
}

/// Replaces the specifiers `%h` (home), `%u` (user) and `%U` (user id) in
/// `raw`; others stay as they are. What is not overridden comes from `host`.
pub fn expand_specifiers(
    raw: &str,
    home_override: Option<&str>,
    user_override: Option<&str>,
    uid_override: Option<u32>,
    host: &HostEnv,
) -> (r: String)
    ensures
        r@ == expand_of(
            raw@,
            home_for(str_opt(home_override), *host),
            user_for(str_opt(user_override), *host),
            uid_for(uid_override, *host),
        ),
{
    proof {
        reveal_strlit("%h");
        reveal_strlit("%u");
        reveal_strlit("%U");
    }
    let home: String = match home_override {
        Some(h) => h.to_owned(),
        None => match &host.home {
            Some(h) => h.clone(),
            None => "/root".to_owned(),
        },
    };
    let user: String = match user_override {
        Some(u) => u.to_owned(),
        None => match &host.user {
            Some(u) => u.clone(),
            None => "root".to_owned(),
        },
    };
    let parsed: Option<u32> = match uid_override {
        Some(u) => Some(u),
        None => match &host.uid {
            Some(text) => parse_u32(text.as_str()),
            None => None,
        },
    };
    let uid: u32 = match parsed {
        Some(u) => u,
        None => match &host.proc_status {
            Some(status) => uid_of_status(status.as_str()),
            None => 0,
        },
    };
    let a = replace(raw, "%h", home.as_str());
    let b = replace(a.as_str(), "%u", user.as_str());
    replace(b.as_str(), "%U", decimal(uid as u64).as_str())
}

// ---------------------------------------------------------------------------
// Binaries
// ---------------------------------------------------------------------------

/// What looking at a path gave.
#[derive(Debug, Clone, Copy, PartialEq, Eq, Structural)]
pub enum FileProbe {
    /// Nothing is there.
    Missing,
    /// Something is there that cannot be looked at.
    Unreadable,
    /// Something is there with these permission bits.
    Mode(u32),
}

/// The permission bits of which any one lets somebody execute a file.
pub const EXECUTE_BITS: u32 = 0o111;

/// Whether the path exists, and whether what is there is executable.
pub open spec fn binary_of(probe: FileProbe) -> (bool, bool) {
    match probe {
        FileProbe::Missing => (false, false),
        FileProbe::Unreadable => (true, false),
        FileProbe::Mode(mode) => (true, mode & EXECUTE_BITS != 0),
    }
}

/// A file is executable exactly if its mode has at least one of the three execute
/// bits, that of the owner, of the group or of the others; a path with nothing
/// there, and one whose mode cannot be read, is not.
pub proof fn law_any_execute_bit_counts(mode: u32)
    ensures
        mode & 0o100 != 0 ==> binary_of(FileProbe::Mode(mode)) == (true, true),
        mode & 0o010 != 0 ==> binary_of(FileProbe::Mode(mode)) == (true, true),
        mode & 0o001 != 0 ==> binary_of(FileProbe::Mode(mode)) == (true, true),
        mode & 0o100 == 0 && mode & 0o010 == 0 && mode & 0o001 == 0 ==> binary_of(
            FileProbe::Mode(mode),
        ) == (true, false),
        binary_of(FileProbe::Missing) == (false, false),
        binary_of(FileProbe::Unreadable) == (true, false),
{
    assert((mode & 0o111 != 0) == (mode & 0o100 != 0 || mode & 0o010 != 0 || mode & 0o001 != 0))
        by (bit_vector);
}

/// Whether a path exists and is executable, given what looking at it gave.
pub fn check_binary(probe: FileProbe) -> (r: (bool, bool))
    ensures
        r == binary_of(probe),
        r.0 == !(probe is Missing),
        probe is Unreadable ==> !r.1,
        probe matches FileProbe::Mode(mode) ==> r.1 == (mode & 0o100 != 0 || mode & 0o010 != 0
            || mode & 0o001 != 0),
{
    proof {
        if let FileProbe::Mode(mode) = probe {
            law_any_execute_bit_counts(mode);
        }
    }
    match probe {
        FileProbe::Missing => (false, false),
        FileProbe::Unreadable => (true, false),
        FileProbe::Mode(mode) => (true, mode & EXECUTE_BITS != 0),
    }
}

// ---------------------------------------------------------------------------
// Unit files
// ---------------------------------------------------------------------------

/// The flags that may stand in front of the command of an `ExecStart=`.
pub open spec fn exec_flags() -> Seq<char> {
    seq!['-', '@', '+', '!']
}

/// The first word of the `ExecStart=` of a line, if it has one.
pub open spec fn exec_start_in(line: Seq<char>) -> Option<Seq<char>> {
    match after_prefix(trim_of(line), "ExecStart="@) {
        Some(rest) => {
            let ws = words_of(trim_start_of(rest, exec_flags()));
            if ws.len() > 0 {
                Some(ws[0])
            } else {
                None
            }
        },
        None => None,
    }
}

/// The first word of the first `ExecStart=` of the lines that has one.
pub open spec fn exec_start_of(ls: Seq<Seq<char>>) -> Option<Seq<char>>
    decreases ls.len(),
{
    if ls.len() == 0 {
        None
    } else if exec_start_in(ls[0]) is Some {
        exec_start_in(ls[0])
    } else {
        exec_start_of(ls.drop_first())
    }
}

/// The first word of the `ExecStart=` of a line.
fn exec_start_in_line(line: &str) -> (r: Option<String>)
    ensures
        text_opt(r) == exec_start_in(line@),
{
    let t = trim(line);
    match strip_prefix(t.as_str(), "ExecStart=") {
        Some(rest) => {
            let flags = ['-', '@', '+', '!'];
            assert(flags@ == exec_flags());
            let command = trim_start_matches(rest.as_str(), &flags);
            let ws = words(command.as_str());
            assert(texts(ws@).len() == ws@.len());
            if ws.len() > 0 {
                assert(texts(ws@)[0] == ws@[0]@);
                Some(ws[0].clone())
            } else {
                None
            }
        },
        None => None,
    }
}

/// The first word of the first `ExecStart=` in the output of `systemctl cat`.
pub fn parse_exec_start(systemctl_cat_output: &str) -> (r: Option<String>)
    ensures
        text_opt(r) == exec_start_of(lines_of(systemctl_cat_output@)),
{
    let ls = lines(systemctl_cat_output);
    let ghost t = texts(ls@);
    let mut i: usize = 0;
    assert(t.skip(0) == t);
    while i < ls.len()
        invariant
            i <= ls.len(),
            t == texts(ls@),
            t == lines_of(systemctl_cat_output@),
            exec_start_of(t) == exec_start_of(t.skip(i as int)),
        decreases ls.len() - i,
    {
        assert(t.skip(i as int)[0] == ls@[i as int]@);
        let word = exec_start_in_line(ls[i].as_str());
        if word.is_some() {
            return word;
        }
        assert(t.skip(i as int).drop_first() == t.skip(i + 1));
        i += 1;
    }
    None
}

/// Whether a line of a target's unit file pulls `unit` in.
pub open spec fn pulls_in(line: Seq<char>, unit: Seq<char>) -> bool {
    let t = trim_of(line);
    match after_prefix(t, "Wants="@) {
        Some(rest) => words_of(rest).contains(unit),
        None => match after_prefix(t, "Requires="@) {
            Some(rest) => words_of(rest).contains(unit),
            None => false,
        },
    }
}

/// Whether a line of a target's unit file pulls `unit` in.
fn line_pulls_in(line: &str, unit: &str) -> (r: bool)
    ensures
        r == pulls_in(line@, unit@),
{
    let t = trim(line);
    let rest = match strip_prefix(t.as_str(), "Wants=") {
        Some(rest) => rest,
        None => match strip_prefix(t.as_str(), "Requires=") {
            Some(rest) => rest,
            None => {
                return false;
            },
        },
    };
    contains_text(&words(rest.as_str()), unit)
}

/// Whether one of the lines pulls `unit` in.
pub open spec fn any_pulls_in(ls: Seq<Seq<char>>, unit: Seq<char>) -> bool {
    exists|i: int| 0 <= i < ls.len() && pulls_in(#[trigger] ls[i], unit)
}

/// Whether `unit_name` stands in a `Wants=` or `Requires=` of the output of
/// `systemctl cat` for the target.
pub fn unit_in_target_from_cat(systemctl_cat_output: &str, unit_name: &str) -> (r: bool)
    ensures
        r == any_pulls_in(lines_of(systemctl_cat_output@), unit_name@),
{
    let ls = lines(systemctl_cat_output);
    let ghost t = texts(ls@);
    let mut i: usize = 0;
    while i < ls.len()
        invariant
            i <= ls.len(),
            t == texts(ls@),
            t == lines_of(systemctl_cat_output@),
            forall|j: int| 0 <= j < i ==> !pulls_in(#[trigger] t[j], unit_name@),
        decreases ls.len() - i,
    {
        assert(t[i as int] == ls@[i as int]@);
        if line_pulls_in(ls[i].as_str(), unit_name) {
            return true;
        }
        i += 1;
    }
    false
}

// ---------------------------------------------------------------------------
// Discovery
// ---------------------------------------------------------------------------

/// The commands of `systemctl` that only look.
pub open spec fn looks_only(verb: Seq<char>) -> bool {
    ||| verb == "cat"@
    ||| verb == "is-enabled"@
    ||| verb == "is-active"@
    ||| verb == "list-units"@
    ||| verb == "list-unit-files"@
}

/// Whether a command is a run of `systemctl` for the manager `flag` that only
/// looks.
pub open spec fn read_only(flag: Seq<char>, cmd: Seq<char>, args: Seq<Seq<char>>) -> bool {
    cmd == "systemctl"@ && args.len() >= 2 && args[0] == flag && looks_only(args[1])
}

/// `run` may be asked for commands that only look. It is the only permission
/// that the doctor has.
pub open spec fn may_look<R: Fn(&str, &[&str]) -> (String, bool)>(run: R, flag: Seq<char>) -> bool {
    forall|c: &str, a: &[&str]|
        read_only(flag, c@, strs(a@)) ==> #[trigger] run.requires((c, a))
}

/// Whether `text` may be the output of `systemctl` with `args`.
pub open spec fn prints<R: Fn(&str, &[&str]) -> (String, bool)>(
    run: R,
    args: Seq<Seq<char>>,
    text: Seq<char>,
) -> bool {
    exists|out: (String, bool)| #[trigger] runs(run, "systemctl"@, args, out) && out.0@ == text
}

/// The patterns of the fleet's services.
pub const SERVICE_PATTERNS: [&'static str; 3] = ["wm-*.service", "wmd.service", "wmd-init.service"];

/// The arguments of a listing of the installed units of a pattern.
pub open spec fn unit_files_args(flag: Seq<char>, pattern: Seq<char>) -> Seq<Seq<char>> {
    seq![flag, "list-unit-files"@, "--plain"@, "--no-legend"@, pattern]
}

/// The arguments of a listing of the loaded units of a pattern.
pub open spec fn units_args(flag: Seq<char>, pattern: Seq<char>) -> Seq<Seq<char>> {
    seq![flag, "list-units"@, "--plain"@, "--no-legend"@, "--all"@, pattern]
}

/// The services of the lines of a listing: the first words that end in `.service`.
pub open spec fn services_in(ls: Seq<Seq<char>>) -> Set<Seq<char>>
    decreases ls.len(),
{
    if ls.len() == 0 {
        Set::empty()
    } else {
        let rest = services_in(ls.drop_last());
        let ws = words_of(ls.last());
        if ws.len() > 0 && ".service"@.is_suffix_of(ws[0]) {
            rest.insert(ws[0])
        } else {
            rest
        }
    }
}

/// The services of the listings of the first `n` patterns, of installed units
/// (`files`) and of loaded ones (`loaded`).
pub open spec fn services_found(
    files: Seq<Seq<char>>,
    loaded: Seq<Seq<char>>,
    n: nat,
) -> Set<Seq<char>>
    decreases n,
{
    if n == 0 {
        Set::empty()
    } else {
        services_found(files, loaded, (n - 1) as nat).union(
            services_in(lines_of(files[n - 1])),
        ).union(services_in(lines_of(loaded[n - 1])))
    }
}

/// Whether the listings of all patterns may be `files` and `loaded`.
pub open spec fn listings<R: Fn(&str, &[&str]) -> (String, bool)>(
    run: R,
    flag: Seq<char>,
    files: Seq<Seq<char>>,
    loaded: Seq<Seq<char>>,
) -> bool {
    &&& files.len() == loaded.len()
    &&& files.len() <= 3
    &&& forall|i: int|
        0 <= i < files.len() ==> prints(
            run,
            unit_files_args(flag, SERVICE_PATTERNS[i]@),
            #[trigger] files[i],
        )
    &&& forall|i: int|
        0 <= i < loaded.len() ==> prints(
            run,
            units_args(flag, SERVICE_PATTERNS[i]@),
            #[trigger] loaded[i],
        )
}

/// Whether `names` may be the services that are discovered: all services of
/// the listings of all patterns, in ascending order, each once.
pub open spec fn discovers<R: Fn(&str, &[&str]) -> (String, bool)>(
    run: R,
    flag: Seq<char>,
    names: Seq<Seq<char>>,
) -> bool {
    exists|files: Seq<Seq<char>>, loaded: Seq<Seq<char>>|
        {
            &&& #[trigger] listings(run, flag, files, loaded)
            &&& files.len() == 3
            &&& ascending(names)
            &&& names.to_set() == services_found(files, loaded, 3)
        }
}

/// Adds the services of a listing to the ascending names `units`.
pub fn merge_listing(units: &mut Vec<String>, listing: &str)
    requires
        ascending(texts(old(units)@)),
    ensures
        ascending(texts(final(units)@)),
        texts(final(units)@).to_set() == texts(old(units)@).to_set().union(
            services_in(lines_of(listing@)),
        ),
{
    let ls = lines(listing);
    let ghost t = texts(ls@);
    let ghost s0 = texts(units@).to_set();
    let mut i: usize = 0;
    assert(s0.union(services_in(t.take(0))) == s0);
    while i < ls.len()
        invariant
            i <= ls.len(),
            t == texts(ls@),
            s0 == texts(old(units)@).to_set(),
            ascending(texts(units@)),
            texts(units@).to_set() == s0.union(services_in(t.take(i as int))),
        decreases ls.len() - i,
    {
        assert(t.take(i + 1).drop_last() == t.take(i as int));
        assert(t.take(i + 1).last() == ls@[i as int]@);
        let ws = words(ls[i].as_str());
        assert(texts(ws@).len() == ws@.len());
        let ghost before = texts(units@).to_set();
        if ws.len() > 0 && ends_with(ws[0].as_str(), ".service") {
            assert(texts(ws@)[0] == ws@[0]@);
            insert_text(units, ws[0].clone());
            assert(before.insert(ws@[0]@) == s0.union(services_in(t.take(i + 1))));
        } else {
            assert(ws.len() > 0 ==> texts(ws@)[0] == ws@[0]@);
        }
        i += 1;
    }
    assert(t.take(i as int) == t);
}

/// Discovers the fleet's services of the manager `scope_flag` through `run`.
/// Returns them in ascending order, each once.
pub fn discover_units<R: Fn(&str, &[&str]) -> (String, bool)>(run: &R, scope_flag: &str) -> (r: Vec<
    String,
>)
    requires
        may_look(*run, scope_flag@),
    ensures
        discovers(*run, scope_flag@, texts(r@)),
{
    let ghost flag = scope_flag@;
    let ghost mut files: Seq<Seq<char>> = Seq::empty();
    let ghost mut loaded: Seq<Seq<char>> = Seq::empty();
    let mut units: Vec<String> = Vec::new();
    let mut i: usize = 0;
    assert(texts(units@).to_set() == services_found(files, loaded, 0));
    while i < 3
        invariant
            i <= 3,
            flag == scope_flag@,
            may_look(*run, flag),
            files.len() == i,
            listings(*run, flag, files, loaded),
            ascending(texts(units@)),
            texts(units@).to_set() == services_found(files, loaded, i as nat),
        decreases 3 - i,
    {
        let pattern: &str = SERVICE_PATTERNS[i];
        let args = [scope_flag, "list-unit-files", "--plain", "--no-legend", pattern];
        assert(strs(args@) == unit_files_args(flag, pattern@));
        assert(strs(args@)[1] == "list-unit-files"@);
        let out = run("systemctl", &args);
        assert(runs(*run, "systemctl"@, unit_files_args(flag, pattern@), out));
        merge_listing(&mut units, out.0.as_str());
        let args2 = [scope_flag, "list-units", "--plain", "--no-legend", "--all", pattern];
        assert(strs(args2@) == units_args(flag, pattern@));
        assert(strs(args2@)[1] == "list-units"@);
        let out2 = run("systemctl", &args2);
        assert(runs(*run, "systemctl"@, units_args(flag, pattern@), out2));
        merge_listing(&mut units, out2.0.as_str());
        proof {
            let f = files.push(out.0@);
            let l = loaded.push(out2.0@);
            lemma_services_prefix(files, loaded, f, l, i as nat);
            assert(prints(*run, unit_files_args(flag, SERVICE_PATTERNS[i as int]@), f[i as int]));
            assert(prints(*run, units_args(flag, SERVICE_PATTERNS[i as int]@), l[i as int]));
            assert forall|j: int| 0 <= j < f.len() implies prints(
                *run,
                unit_files_args(flag, SERVICE_PATTERNS[j]@),
                #[trigger] f[j],
            ) by {
                if j < files.len() {
                    assert(f[j] == files[j]);
                }
            }
            assert forall|j: int| 0 <= j < l.len() implies prints(
                *run,
                units_args(flag, SERVICE_PATTERNS[j]@),
                #[trigger] l[j],
            ) by {
                if j < loaded.len() {
                    assert(l[j] == loaded[j]);
                }
            }
            files = f;
            loaded = l;
        }
        i += 1;
    }
    units
}

/// The services found depend on the listings that were read alone.
proof fn lemma_services_prefix(
    files: Seq<Seq<char>>,
    loaded: Seq<Seq<char>>,
    f: Seq<Seq<char>>,
    l: Seq<Seq<char>>,
    n: nat,
)
    requires
        n <= files.len() <= f.len(),
        n <= loaded.len() <= l.len(),
        forall|i: int| 0 <= i < files.len() ==> files[i] == f[i],
        forall|i: int| 0 <= i < loaded.len() ==> loaded[i] == l[i],
    ensures
        services_found(files, loaded, n) == services_found(f, l, n),
    decreases n,
{
    if n > 0 {
        lemma_services_prefix(files, loaded, f, l, (n - 1) as nat);
    }
}

// ---------------------------------------------------------------------------
// Probing one unit
// ---------------------------------------------------------------------------

/// Whether looking at `path` through `stat` may give `probe`.
pub open spec fn stats<F: Fn(&str) -> FileProbe>(
    stat: F,
    path: Seq<char>,
    probe: FileProbe,
) -> bool {
    exists|p: &str| p@ == path && #[trigger] stat.ensures((p,), probe)
}

/// The directories in which a unit is linked that the target pulls in.
pub open spec fn wants_dirs_of(flag: Seq<char>, home: Option<String>) -> Seq<Seq<char>> {
    if flag == "--user"@ {
        seq![
            "/etc/systemd/user/wintermute.target.wants"@,
            "/usr/lib/systemd/user/wintermute.target.wants"@,
            "/usr/local/lib/systemd/user/wintermute.target.wants"@,
            match home {
                Some(h) => h@,
                None => Seq::empty(),
            } + "/.config/systemd/user/wintermute.target.wants"@,
        ]
    } else {
        seq![
            "/etc/systemd/system/wintermute.target.wants"@,
            "/usr/lib/systemd/system/wintermute.target.wants"@,
        ]
    }
}

/// Whether looking for `unit` in `dirs` may find it (`found`) or not.
pub open spec fn links<F: Fn(&str) -> FileProbe>(
    stat: F,
    dirs: Seq<Seq<char>>,
    unit: Seq<char>,
    found: bool,
) -> bool {
    if found {
        exists|i: int, probe: FileProbe|
            0 <= i < dirs.len() && #[trigger] stats(stat, join_of(dirs[i], unit), probe)
                && probe != FileProbe::Missing
    } else {
        forall|i: int|
            0 <= i < dirs.len() ==> stats(
                stat,
                join_of(#[trigger] dirs[i], unit),
                FileProbe::Missing,
            )
    }
}

/// The directories in which a unit is linked that the target pulls in.
fn wants_dirs(scope_flag: &str, host: &HostEnv) -> (r: Vec<String>)
    ensures
        texts(r@) == wants_dirs_of(scope_flag@, host.home),
{
    let mut out: Vec<String> = Vec::new();
    if same(scope_flag, "--user") {
        let home: String = match &host.home {
            Some(h) => h.clone(),
            None => String::new(),
        };
        out.push("/etc/systemd/user/wintermute.target.wants".to_owned());
        out.push("/usr/lib/systemd/user/wintermute.target.wants".to_owned());
        out.push("/usr/local/lib/systemd/user/wintermute.target.wants".to_owned());
        out.push(home.concat("/.config/systemd/user/wintermute.target.wants"));
    } else {
        out.push("/etc/systemd/system/wintermute.target.wants".to_owned());
        out.push("/usr/lib/systemd/system/wintermute.target.wants".to_owned());
    }
    assert(texts(out@) == wants_dirs_of(scope_flag@, host.home));
    out
}

/// Whether `unit` is linked into the target of the manager `scope_flag`.
fn in_target_wants_dir<F: Fn(&str) -> FileProbe>(
    unit: &str,
    scope_flag: &str,
    host: &HostEnv,
    stat: &F,
) -> (r: bool)
    requires
        forall|p: &str| stat.requires((p,)),
    ensures
        links(*stat, wants_dirs_of(scope_flag@, host.home), unit@, r),
{
    let dirs = wants_dirs(scope_flag, host);
    let ghost ds = texts(dirs@);
    let mut i: usize = 0;
    while i < dirs.len()
        invariant
            i <= dirs.len(),
            ds == texts(dirs@),
            ds == wants_dirs_of(scope_flag@, host.home),
            forall|p: &str| stat.requires((p,)),
            forall|j: int|
                0 <= j < i ==> stats(
                    *stat,
                    join_of(#[trigger] ds[j], unit@),
                    FileProbe::Missing,
                ),
        decreases dirs.len() - i,
    {
        let path = join_path(dirs[i].as_str(), unit);
        let p: &str = path.as_str();
        let probe = stat(p);
        assert(ds[i as int] == dirs@[i as int]@);
        assert(stats(*stat, join_of(ds[i as int], unit@), probe));
        match probe {
            FileProbe::Missing => {},
            _ => {
                return true;
            },
        }
        i += 1;
    }
    false
}

/// What the host answered about one unit.
#[derive(Debug, Clone, PartialEq, Eq)]
pub struct UnitAnswers {
    /// Output of `systemctl cat`.
    pub cat: String,
    /// What looking at the binary gave.
    pub binary: FileProbe,
    /// Output of `systemctl is-enabled`.
    pub enabled: String,
    /// Output of `systemctl is-active`.
    pub active: String,
    /// Whether the unit is linked into the target.
    pub linked: bool,
}

/// What the host is asked on behalf of: the manager, the unit file of the
/// target, and the user's home, name and id.
#[verifier::ext_equal]
pub struct Asker {
    /// Flag of the manager.
    pub flag: Seq<char>,
    /// Output of `systemctl cat` for the target.
    pub target_cat: Seq<char>,
    /// Home directory.
    pub home: Seq<char>,
    /// User name.
    pub user: Seq<char>,
    /// User id.
    pub uid: nat,
}

/// The first word of the unit's `ExecStart=`; empty if it has none.
pub open spec fn exec_word(cat: Seq<char>) -> Seq<char> {
    match exec_start_of(lines_of(cat)) {
        Some(word) => word,
        None => Seq::empty(),
    }
}

/// The path of the unit's binary; empty if it has none.
pub open spec fn resolved_of(asker: Asker, cat: Seq<char>) -> Seq<char> {
    if exec_word(cat).len() == 0 {
        Seq::empty()
    } else {
        expand_of(exec_word(cat), asker.home, asker.user, asker.uid)
    }
}

/// The label of a manager.
pub open spec fn scope_label(flag: Seq<char>) -> Seq<char> {
    if flag == "--user"@ {
        "user"@
    } else {
        "system"@
    }
}

/// The report of `unit`, given the host's answers.
pub open spec fn report_of(asker: Asker, unit: Seq<char>, answers: UnitAnswers) -> UnitModel {
    let resolved = resolved_of(asker, answers.cat@);
    let binary = if resolved.len() == 0 {
        (false, false)
    } else {
        binary_of(answers.binary)
    };
    UnitModel {
        unit,
        exec_start: exec_word(answers.cat@),
        resolved,
        exists: binary.0,
        executable: binary.1,
        enabled: trim_of(answers.enabled@),
        active: trim_of(answers.active@),
        in_target: any_pulls_in(lines_of(asker.target_cat), unit) || answers.linked,
        scope: scope_label(asker.flag),
    }
}

/// What the unit probes of one run share.
pub struct ProbeCtx<'a, R: Fn(&str, &[&str]) -> (String, bool), F: Fn(&str) -> FileProbe> {
    /// Flag of the manager, `--user` or `--system`.
    pub scope_flag: &'a str,
    /// Output of `systemctl cat` for the target.
    pub target_cat: &'a str,
    /// Runs commands.
    pub run: &'a R,
    /// Looks at paths.
    pub stat: &'a F,
    /// What the host says of the user.
    pub host: &'a HostEnv,
    /// Home directory in place of the host's.
    pub home_override: Option<&'a str>,
    /// User name in place of the host's.
    pub user_override: Option<&'a str>,
    /// User id in place of the host's.
    pub uid_override: Option<u32>,
}

impl<'a, R: Fn(&str, &[&str]) -> (String, bool), F: Fn(&str) -> FileProbe> ProbeCtx<'a, R, F> {
    /// On behalf of what the host is asked.
    pub open spec fn asker(&self) -> Asker {
        Asker {
            flag: self.scope_flag@,
            target_cat: self.target_cat@,
            home: home_for(str_opt(self.home_override), *self.host),
            user: user_for(str_opt(self.user_override), *self.host),
            uid: uid_for(self.uid_override, *self.host),
        }
    }

    /// The unit may be looked at.
    pub open spec fn may_probe(&self) -> bool {
        &&& may_look(*self.run, self.scope_flag@)
        &&& forall|p: &str| self.stat.requires((p,))
    }

    /// The report of `unit`, given the host's answers.
    pub fn report(&self, unit: &str, answers: UnitAnswers) -> (r: UnitReport)
        ensures
            r@ == report_of(self.asker(), unit@, answers),
    {
        let (exec_start, resolved) = self.resolve(answers.cat.as_str());
        let (exists_there, executable) = if resolved.as_str().unicode_len() == 0 {
            (false, false)
        } else {
            check_binary(answers.binary)
        };
        let in_target = unit_in_target_from_cat(self.target_cat, unit) || answers.linked;
        let scope: String = if same(self.scope_flag, "--user") {
            "user".to_owned()
        } else {
            "system".to_owned()
        };
        UnitReport {
            unit: unit.to_owned(),
            exec_start,
            resolved,
            exists: exists_there,
            executable,
            enabled: trim(answers.enabled.as_str()),
            active: trim(answers.active.as_str()),
            in_target,
            scope,
        }
    }

    /// The first word of a unit's `ExecStart=` and the path that it stands for.
    fn resolve(&self, cat: &str) -> (r: (String, String))
        ensures
            r.0@ == exec_word(cat@),
            r.1@ == resolved_of(self.asker(), cat@),
    {
        let exec_start: String = match parse_exec_start(cat) {
            Some(word) => word,
            None => String::new(),
        };
        let resolved: String = if exec_start.as_str().unicode_len() == 0 {
            String::new()
        } else {
            expand_specifiers(
                exec_start.as_str(),
                self.home_override,
                self.user_override,
                self.uid_override,
                self.host,
            )
        };
        (exec_start, resolved)
    }
}

/// The arguments of a query `verb` about `unit`.
pub open spec fn query_args(flag: Seq<char>, verb: Seq<char>, unit: Seq<char>) -> Seq<Seq<char>> {
    seq![flag, verb, unit]
}

/// Whether the host may answer `answers` about `unit`. The binary is looked at
/// only where the unit names one, and the link only where the target's own
/// unit file does not pull the unit in.
pub open spec fn answers_for<
    R: Fn(&str, &[&str]) -> (String, bool),
    F: Fn(&str) -> FileProbe,
>(run: R, stat: F, host: HostEnv, asker: Asker, unit: Seq<char>, answers: UnitAnswers) -> bool {
    &&& prints(run, query_args(asker.flag, "cat"@, unit), answers.cat@)
    &&& prints(run, query_args(asker.flag, "is-enabled"@, unit), answers.enabled@)
    &&& prints(run, query_args(asker.flag, "is-active"@, unit), answers.active@)
    &&& resolved_of(asker, answers.cat@).len() > 0 ==> stats(
        stat,
        resolved_of(asker, answers.cat@),
        answers.binary,
    )
    &&& !any_pulls_in(lines_of(asker.target_cat), unit) ==> links(
        stat,
        wants_dirs_of(asker.flag, host.home),
        unit,
        answers.linked,
    )
}

/// Whether `m` may be the report of `unit`.
pub open spec fn probes_as<R: Fn(&str, &[&str]) -> (String, bool), F: Fn(&str) -> FileProbe>(
    run: R,
    stat: F,
    host: HostEnv,
    asker: Asker,
    unit: Seq<char>,
    m: UnitModel,
) -> bool {
    exists|answers: UnitAnswers| #[trigger]
        answers_for(run, stat, host, asker, unit, answers) && m == report_of(asker, unit, answers)
}

/// The output of a query of `systemctl` about `unit`.
fn query<R: Fn(&str, &[&str]) -> (String, bool)>(
    run: &R,
    scope_flag: &str,
    verb: &str,
    unit: &str,
) -> (r: String)
    requires
        may_look(*run, scope_flag@),
        looks_only(verb@),
    ensures
        prints(*run, query_args(scope_flag@, verb@, unit@), r@),
{
    let args = [scope_flag, verb, unit];
    assert(strs(args@) == query_args(scope_flag@, verb@, unit@));
    let out = run("systemctl", &args);
    assert(runs(*run, "systemctl"@, query_args(scope_flag@, verb@, unit@), out));
    out.0
}

/// Looks at one unit.
pub fn probe_unit<R: Fn(&str, &[&str]) -> (String, bool), F: Fn(&str) -> FileProbe>(
    unit: &str,
    ctx: &ProbeCtx<'_, R, F>,
) -> (r: UnitReport)
    requires
        ctx.may_probe(),
    ensures
        probes_as(*ctx.run, *ctx.stat, *ctx.host, ctx.asker(), unit@, r@),
{
    let cat = query(ctx.run, ctx.scope_flag, "cat", unit);
    let (_, resolved) = ctx.resolve(cat.as_str());
    let binary: FileProbe = if resolved.as_str().unicode_len() == 0 {
        FileProbe::Missing
    } else {
        let p: &str = resolved.as_str();
        let stat = ctx.stat;
        let probe = stat(p);
        assert(stats(*ctx.stat, resolved@, probe));
        probe
    };
    let enabled = query(ctx.run, ctx.scope_flag, "is-enabled", unit);
    let active = query(ctx.run, ctx.scope_flag, "is-active", unit);
    let linked = if unit_in_target_from_cat(ctx.target_cat, unit) {
        false
    } else {
        in_target_wants_dir(unit, ctx.scope_flag, ctx.host, ctx.stat)
    };
    let answers = UnitAnswers { cat, binary, enabled, active, linked };
    assert(answers_for(*ctx.run, *ctx.stat, *ctx.host, ctx.asker(), unit@, answers));
    ctx.report(unit, answers)
}

// ---------------------------------------------------------------------------
// Running the doctor
// ---------------------------------------------------------------------------

/// The names of the units whose binary is missing or not executable.
pub open spec fn failing_of(units: Seq<UnitModel>) -> Seq<Seq<char>>
    decreases units.len(),
{
    if units.len() == 0 {
        Seq::empty()
    } else if units.last().ok() {
        failing_of(units.drop_last())
    } else {
        failing_of(units.drop_last()).push(units.last().unit)
    }
}

/// The report of all units.
pub fn summarise(units: Vec<UnitReport>) -> (r: DoctorReport)
    ensures
        r.units == units,
        texts(r.failures@) == failing_of(units_of(units@)),
        r.all_ok == (failing_of(units_of(units@)).len() == 0),
{
    let ghost ms = units_of(units@);
    let mut failures: Vec<String> = Vec::new();
    let mut i: usize = 0;
    assert(texts(failures@) == failing_of(ms.take(0)));
    while i < units.len()
        invariant
            i <= units.len(),
            ms == units_of(units@),
            texts(failures@) == failing_of(ms.take(i as int)),
        decreases units.len() - i,
    {
        let ghost before = failures@;
        assert(ms.take(i + 1).drop_last() == ms.take(i as int));
        assert(ms.take(i + 1).last() == units@[i as int]@);
        if !units[i].binary_ok() {
            failures.push(units[i].unit.clone());
            assert(texts(failures@) == texts(before).push(units@[i as int].unit@));
        }
        i += 1;
    }
    assert(ms.take(i as int) == ms);
    let all_ok = failures.len() == 0;
    assert(texts(failures@).len() == failures@.len());
    DoctorReport { units, failures, all_ok }
}

/// The flags of the managers of a scope.
pub open spec fn scope_flags(scope: DoctorScope) -> Seq<Seq<char>> {
    match scope {
        DoctorScope::User => seq!["--user"@],
        DoctorScope::System => seq!["--system"@],
        DoctorScope::Both => seq!["--user"@, "--system"@],
    }
}

/// Whether `rows` may be the reports of the units of one manager: one for each
/// discovered unit, in order.
pub open spec fn rows_of_manager<
    R: Fn(&str, &[&str]) -> (String, bool),
    F: Fn(&str) -> FileProbe,
>(run: R, stat: F, host: HostEnv, asker: Asker, rows: Seq<UnitModel>) -> bool {
    &&& prints(run, query_args(asker.flag, "cat"@, "wintermute.target"@), asker.target_cat)
    &&& exists|names: Seq<Seq<char>>| #[trigger]
        discovers(run, asker.flag, names) && names.len() == rows.len() && forall|i: int|
            0 <= i < rows.len() ==> probes_as(
                run,
                stat,
                host,
                asker,
                names[i],
                #[trigger] rows[i],
            )
}

/// The reports of several managers, one manager after another.
pub open spec fn all_rows(parts: Seq<Seq<UnitModel>>) -> Seq<UnitModel>
    decreases parts.len(),
{
    if parts.len() == 0 {
        Seq::empty()
    } else {
        all_rows(parts.drop_last()) + parts.last()
    }
}

/// Whether `parts` may be the reports of the first managers of `flags`.
pub open spec fn managers_report<
    R: Fn(&str, &[&str]) -> (String, bool),
    F: Fn(&str) -> FileProbe,
>(
    run: R,
    stat: F,
    host: HostEnv,
    home: Seq<char>,
    user: Seq<char>,
    uid: nat,
    flags: Seq<Seq<char>>,
    parts: Seq<Seq<UnitModel>>,
) -> bool {
    &&& parts.len() <= flags.len()
    &&& forall|i: int|
        0 <= i < parts.len() ==> manager_reports(
            run,
            stat,
            host,
            home,
            user,
            uid,
            flags[i],
            #[trigger] parts[i],
        )
}

/// Whether `rows` may be the reports of the manager `flag`.
pub open spec fn manager_reports<
    R: Fn(&str, &[&str]) -> (String, bool),
    F: Fn(&str) -> FileProbe,
>(
    run: R,
    stat: F,
    host: HostEnv,
    home: Seq<char>,
    user: Seq<char>,
    uid: nat,
    flag: Seq<char>,
    rows: Seq<UnitModel>,
) -> bool {
    exists|asker: Asker|
        asker.flag == flag && asker.home == home && asker.user == user && asker.uid == uid
            && #[trigger] rows_of_manager(run, stat, host, asker, rows)
}

/// Whether `units` may be the reports of all units of a scope: those of its
/// managers, one manager after another.
pub open spec fn scope_reports<
    R: Fn(&str, &[&str]) -> (String, bool),
    F: Fn(&str) -> FileProbe,
>(
    run: R,
    stat: F,
    host: HostEnv,
    home: Seq<char>,
    user: Seq<char>,
    uid: nat,
    scope: DoctorScope,
    units: Seq<UnitModel>,
) -> bool {
    exists|parts: Seq<Seq<UnitModel>>|
        {
            &&& #[trigger] managers_report(
                run,
                stat,
                host,
                home,
                user,
                uid,
                scope_flags(scope),
                parts,
            )
            &&& parts.len() == scope_flags(scope).len()
            &&& units == all_rows(parts)
        }
}

/// Looks at every unit of one manager.
fn probe_manager<R: Fn(&str, &[&str]) -> (String, bool), F: Fn(&str) -> FileProbe>(
    scope_flag: &str,
    run: &R,
    stat: &F,
    host: &HostEnv,
    home_override: Option<&str>,
    user_override: Option<&str>,
    uid_override: Option<u32>,
) -> (r: Vec<UnitReport>)
    requires
        may_look(*run, scope_flag@),
        forall|p: &str| stat.requires((p,)),
    ensures
        manager_reports(
            *run,
            *stat,
            *host,
            home_for(str_opt(home_override), *host),
            user_for(str_opt(user_override), *host),
            uid_for(uid_override, *host),
            scope_flag@,
            units_of(r@),
        ),
{
    let target_cat = query(run, scope_flag, "cat", "wintermute.target");
    let names = discover_units(run, scope_flag);
    let ctx = ProbeCtx {
        scope_flag,
        target_cat: target_cat.as_str(),
        run,
        stat,
        host,
        home_override,
        user_override,
        uid_override,
    };
    let ghost ns = texts(names@);
    let mut rows: Vec<UnitReport> = Vec::new();
    let mut i: usize = 0;
    while i < names.len()
        invariant
            i <= names.len(),
            ns == texts(names@),
            ctx.may_probe(),
            *ctx.run == *run,
            *ctx.stat == *stat,
            *ctx.host == *host,
            rows.len() == i,
            forall|j: int|
                0 <= j < i ==> probes_as(
                    *run,
                    *stat,
                    *host,
                    ctx.asker(),
                    ns[j],
                    (#[trigger] rows@[j])@,
                ),
        decreases names.len() - i,
    {
        assert(ns[i as int] == names@[i as int]@);
        let row = probe_unit(names[i].as_str(), &ctx);
        rows.push(row);
        i += 1;
    }
    proof {
        let ms = units_of(rows@);
        assert forall|j: int| 0 <= j < ms.len() implies probes_as(
            *run,
            *stat,
            *host,
            ctx.asker(),
            ns[j],
            #[trigger] ms[j],
        ) by {
            assert(ms[j] == rows@[j]@);
        }
        assert(discovers(*run, ctx.asker().flag, ns));
        assert(ns.len() == ms.len());
        assert(rows_of_manager(*run, *stat, *host, ctx.asker(), ms));
    }
    rows
}

/// Runs the doctor for `scope`: looks at every unit of the fleet that the
/// managers know, and reports them.
pub fn run_doctor<R: Fn(&str, &[&str]) -> (String, bool), F: Fn(&str) -> FileProbe>(
    scope: DoctorScope,
    run: &R,
    stat: &F,
    host: &HostEnv,
    home_override: Option<&str>,
    user_override: Option<&str>,
    uid_override: Option<u32>,
) -> (r: DoctorReport)
    requires
        forall|k: int|
            0 <= k < scope_flags(scope).len() ==> may_look(*run, #[trigger] scope_flags(scope)[k]),
        forall|p: &str| stat.requires((p,)),
    ensures
        scope_reports(
            *run,
            *stat,
            *host,
            home_for(str_opt(home_override), *host),
            user_for(str_opt(user_override), *host),
            uid_for(uid_override, *host),
            scope,
            units_of(r.units@),
        ),
        texts(r.failures@) == failing_of(units_of(r.units@)),
        r.all_ok == (failing_of(units_of(r.units@)).len() == 0),
{
    let mut flags: Vec<&str> = Vec::new();
    match scope {
        DoctorScope::User => {
            flags.push("--user");
        },
        DoctorScope::System => {
            flags.push("--system");
        },
        DoctorScope::Both => {
            flags.push("--user");
            flags.push("--system");
        },
    }
    let ghost fs = scope_flags(scope);
    assert(strs(flags@) == fs);
    let ghost home = home_for(str_opt(home_override), *host);
    let ghost user = user_for(str_opt(user_override), *host);
    let ghost uid = uid_for(uid_override, *host);
    let ghost mut parts: Seq<Seq<UnitModel>> = Seq::empty();
    let mut units: Vec<UnitReport> = Vec::new();
    let mut i: usize = 0;
    assert(units_of(units@) == all_rows(parts));
    while i < flags.len()
        invariant
            i <= flags.len(),
            fs == scope_flags(scope),
            strs(flags@) == fs,
            forall|k: int| 0 <= k < fs.len() ==> may_look(*run, #[trigger] fs[k]),
            forall|p: &str| stat.requires((p,)),
            home == home_for(str_opt(home_override), *host),
            user == user_for(str_opt(user_override), *host),
            uid == uid_for(uid_override, *host),
            parts.len() == i,
            managers_report(*run, *stat, *host, home, user, uid, fs, parts),
            units_of(units@) == all_rows(parts),
        decreases flags.len() - i,
    {
        let scope_flag: &str = flags[i];
        assert(fs[i as int] == scope_flag@);
        let mut rows = probe_manager(
            scope_flag,
            run,
            stat,
            host,
            home_override,
            user_override,
            uid_override,
        );
        let ghost ms = units_of(rows@);
        let ghost before = units@;
        let ghost added = rows@;
        units.append(&mut rows);
        proof {
            assert(units_of(units@) == units_of(before) + units_of(added));
            let next = parts.push(ms);
            assert(next.drop_last() == parts);
            assert forall|k: int| 0 <= k < next.len() implies manager_reports(
                *run,
                *stat,
                *host,
                home,
                user,
                uid,
                fs[k],
                #[trigger] next[k],
            ) by {
                if k < parts.len() {
                    assert(next[k] == parts[k]);
                }
            }
            parts = next;
        }
        i += 1;
    }
    summarise(units)
}

// ---------------------------------------------------------------------------
// The table
// ---------------------------------------------------------------------------

/// One line of the table.
pub open spec fn table_line(
    unit: Seq<char>,
    exists_label: Seq<char>,
    exec_label: Seq<char>,
    enabled: Seq<char>,
    active: Seq<char>,
    resolved: Seq<char>,
) -> Seq<char> {
    pad_right_of(unit, 30) + "  "@ + pad_right_of(exists_label, 8) + "  "@ + pad_right_of(
        exec_label,
        8,
    ) + "  "@ + pad_right_of(enabled, 9) + "  "@ + pad_right_of(active, 9) + "  "@ + resolved
        + "\n"@
}

/// The line of a unit.
pub open spec fn unit_line(u: UnitModel) -> Seq<char> {
    table_line(
        u.unit,
        if u.exists {
            "YES"@
        } else {
            "MISSING"@
        },
        if !u.exists {
            "-"@
        } else if u.executable {
            "YES"@
        } else {
            "NO-EXEC"@
        },
        u.enabled,
        u.active,
        u.resolved,
    )
}

/// The lines of the units; only of those that fail, where the table is `quiet`.
pub open spec fn unit_lines(units: Seq<UnitModel>, quiet: bool) -> Seq<char>
    decreases units.len(),
{
    if units.len() == 0 {
        Seq::empty()
    } else {
        let rest = unit_lines(units.drop_last(), quiet);
        if quiet && units.last().ok() {
            rest
        } else {
            rest + unit_line(units.last())
        }
    }
}

/// The head of the table.
pub open spec fn table_head() -> Seq<char> {
    table_line("UNIT"@, "EXISTS"@, "EXEC"@, "ENABLED"@, "ACTIVE"@, "RESOLVED"@) + repeat_of(
        '-',
        100,
    ) + "\n"@
}

/// The summary below the table.
pub open spec fn table_foot(report: DoctorReport) -> Seq<char> {
    "\n"@ + if report.all_ok {
        "all "@ + decimal_of(report.units@.len()) + " units OK\n"@
    } else {
        decimal_of(report.failures@.len()) + " of "@ + decimal_of(report.units@.len())
            + " unit(s) have missing/non-executable binaries: "@ + crate::text::join_of(
            texts(report.failures@),
            ", "@,
        ) + "\n"@
    }
}

/// The table of a report: head, units and summary, or only the failing units
/// where it is `quiet`.
pub open spec fn table_of(report: DoctorReport, quiet: bool) -> Seq<char> {
    if quiet {
        unit_lines(units_of(report.units@), quiet)
    } else {
        table_head() + unit_lines(units_of(report.units@), quiet) + table_foot(report)
    }
}

/// One line of the table.
fn render_line(
    unit: &str,
    exists_label: &str,
    exec_label: &str,
    enabled: &str,
    active: &str,
    resolved: &str,
) -> (r: String)
    ensures
        r@ == table_line(unit@, exists_label@, exec_label@, enabled@, active@, resolved@),
{
    pad_right(unit, 30).concat("  ").concat(pad_right(exists_label, 8).as_str()).concat(
        "  ",
    ).concat(pad_right(exec_label, 8).as_str()).concat("  ").concat(
        pad_right(enabled, 9).as_str(),
    ).concat("  ").concat(pad_right(active, 9).as_str()).concat("  ").concat(resolved).concat(
        "\n",
    )
}

/// Renders a report as a table; where it is `quiet`, only the failing units.
pub fn render_table(report: &DoctorReport, quiet: bool) -> (r: String)
    ensures
        r@ == table_of(*report, quiet),
{
    let mut out: String = String::new();
    if !quiet {
        out = render_line("UNIT", "EXISTS", "EXEC", "ENABLED", "ACTIVE", "RESOLVED").concat(
            repeat('-', 100).as_str(),
        ).concat("\n");
    }
    let ghost head = out@;
    let ghost ms = units_of(report.units@);
    let mut i: usize = 0;
    assert(head + unit_lines(ms.take(0), quiet) == head);
    while i < report.units.len()
        invariant
            i <= report.units.len(),
            ms == units_of(report.units@),
            out@ == head + unit_lines(ms.take(i as int), quiet),
        decreases report.units.len() - i,
    {
        let u: &UnitReport = &report.units[i];
        let ghost before = out@;
        assert(ms.take(i + 1).drop_last() == ms.take(i as int));
        assert(ms.take(i + 1).last() == u@);
        if !(quiet && u.binary_ok()) {
            let exists_label: &str = if u.exists {
                "YES"
            } else {
                "MISSING"
            };
            let exec_label: &str = if !u.exists {
                "-"
            } else if u.executable {
                "YES"
            } else {
                "NO-EXEC"
            };
            let line = render_line(
                u.unit.as_str(),
                exists_label,
                exec_label,
                u.enabled.as_str(),
                u.active.as_str(),
                u.resolved.as_str(),
            );
            assert(line@ == unit_line(u@));
            out.append(line.as_str());
            assert(out@ == head + (unit_lines(ms.take(i as int), quiet) + unit_line(u@)));
        }
        i += 1;
    }
    assert(ms.take(i as int) == ms);
    if quiet {
        assert(head + unit_lines(ms, quiet) == unit_lines(ms, quiet));
        return out;
    }
    let foot: String = if report.all_ok {
        "\n".to_owned().concat(
            "all ".to_owned().concat(decimal(report.units.len() as u64).as_str()).concat(
                " units OK\n",
            ).as_str(),
        )
    } else {
        "\n".to_owned().concat(
            decimal(report.failures.len() as u64).concat(" of ").concat(
                decimal(report.units.len() as u64).as_str(),
            ).concat(" unit(s) have missing/non-executable binaries: ").concat(
                join(&report.failures, ", ").as_str(),
            ).concat("\n").as_str(),
        )
    };
    out.append(foot.as_str());
    out
}

// ---------------------------------------------------------------------------
// Laws
// ---------------------------------------------------------------------------

/// Text without a percent sign has nothing to expand.
pub proof fn law_plain_path_stays(raw: Seq<char>, home: Seq<char>, user: Seq<char>, uid: nat)
    requires
        !raw.contains('%'),
    ensures
        expand_of(raw, home, user, uid) == raw,
{
    reveal_strlit("%h");
    reveal_strlit("%u");
    reveal_strlit("%U");
    lemma_replace_none(raw, "%h"@, home);
    lemma_replace_none(raw, "%u"@, user);
    lemma_replace_none(raw, "%U"@, decimal_of(uid));
}

/// Text without the first character of a pattern has no occurrence of it.
proof fn lemma_replace_none(s: Seq<char>, pat: Seq<char>, with: Seq<char>)
    requires
        pat.len() > 0,
        !s.contains(pat[0]),
    ensures
        replace_of(s, pat, with) == s,
    decreases s.len(),
{
    if s.len() > 0 {
        assert(s.contains(s[0]));
        if pat.is_prefix_of(s) {
            assert(s.subrange(0, pat.len() as int)[0] == s[0]);
        }
        assert(!s.drop_first().contains(pat[0])) by {
            if s.drop_first().contains(pat[0]) {
                let i = s.drop_first().index_of(pat[0]);
                assert(s[i + 1] == pat[0]);
            }
        }
        lemma_replace_none(s.drop_first(), pat, with);
        assert(seq![s[0]] + s.drop_first() == s);
    }
}

/// The doctor is content exactly if every unit's binary is present and
/// executable; whether units are enabled, active or in the target does not
/// matter.
pub proof fn law_content_iff_all_binaries(units: Seq<UnitModel>)
    ensures
        failing_of(units).len() == 0 <==> forall|i: int|
            0 <= i < units.len() ==> (#[trigger] units[i]).exists && units[i].executable,
    decreases units.len(),
{
    if units.len() > 0 {
        let rest = units.drop_last();
        law_content_iff_all_binaries(rest);
        if forall|i: int|
            0 <= i < units.len() ==> (#[trigger] units[i]).exists && units[i].executable {
            assert forall|i: int| 0 <= i < rest.len() implies (#[trigger] rest[i]).exists
                && rest[i].executable by {
                assert(rest[i] == units[i]);
            }
            assert(units[units.len() - 1].exists);
        } else {
            let k = choose|i: int|
                0 <= i < units.len() && !((#[trigger] units[i]).exists && units[i].executable);
            if k < rest.len() {
                assert(rest[k] == units[k]);
            }
        }
    }
}

/// The failures name exactly the failing units.
pub proof fn law_failures_name_failing(units: Seq<UnitModel>, name: Seq<char>)
    ensures
        failing_of(units).contains(name) <==> exists|i: int|
            0 <= i < units.len() && (#[trigger] units[i]).unit == name && !units[i].ok(),
    decreases units.len(),
{
    if units.len() > 0 {
        let rest = units.drop_last();
        let last = units.len() - 1;
        law_failures_name_failing(rest, name);
        let f = failing_of(units);
        let fr = failing_of(rest);
        if f.contains(name) {
            let k = f.index_of(name);
            if k < fr.len() {
                assert(fr[k] == name);
                let i = choose|i: int|
                    0 <= i < rest.len() && (#[trigger] rest[i]).unit == name && !rest[i].ok();
                assert(units[i].unit == name);
            } else {
                assert(units[last].unit == name);
            }
        }
        if exists|i: int|
            0 <= i < units.len() && (#[trigger] units[i]).unit == name && !units[i].ok() {
            let i = choose|i: int|
                0 <= i < units.len() && (#[trigger] units[i]).unit == name && !units[i].ok();
            if i < last {
                assert(rest[i].unit == name);
                let k = fr.index_of(name);
                assert(f[k] == name);
            } else {
                assert(f[f.len() - 1] == name);
            }
        }
    }
}

/// What only looks changes nothing: none of the commands that the doctor may
/// run starts, stops, restarts, enables, disables or clears a unit.
pub proof fn law_looking_changes_nothing(flag: Seq<char>, cmd: Seq<char>, args: Seq<Seq<char>>)
    requires
        read_only(flag, cmd, args),
    ensures
        cmd == "systemctl"@,
        args[1] != "start"@,
        args[1] != "stop"@,
        args[1] != "restart"@,
        args[1] != "reload"@,
        args[1] != "reset-failed"@,
        args[1] != "enable"@,
        args[1] != "disable"@,
        args[1] != "mask"@,
        args[1] != "kill"@,
        args[1] != "daemon-reload"@,
{
    reveal_strlit("cat");
    reveal_strlit("is-enabled");
    reveal_strlit("is-active");
    reveal_strlit("list-units");
    reveal_strlit("list-unit-files");
    reveal_strlit("start");
    reveal_strlit("stop");
    reveal_strlit("restart");
    reveal_strlit("reload");
    reveal_strlit("reset-failed");
    reveal_strlit("enable");
    reveal_strlit("disable");
    reveal_strlit("mask");
    reveal_strlit("kill");
    reveal_strlit("daemon-reload");
    let v = args[1];
    assert(v[0] == 'c' || v[0] == 'i' || v[0] == 'l');
}

} // verus!
