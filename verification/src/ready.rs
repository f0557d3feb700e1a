//! `wm ready`: whether the device has everything it takes to converse.

use crate::commands::{may_run, runs};
use crate::env_config::{settings_of, EnvConfig};
use crate::files::{
    bootstrap_env_path_with, join_of, join_path, may_read, reads, FileRead, FileReadModel,
};
use crate::fleet::{BOOTSTRAP_ENV_PATH, CHILD_STARTUP_ORDER};
use crate::text::{
    join_strs, lines_of, same, split, split_of, str_opt, strs, text_opt, texts, trim, trim_of,
};
use vstd::prelude::*;

pub use crate::calendar::utc_timestamp;
pub use crate::fleet::BOOTSTRAP_ENV_OVERRIDE_VAR;

verus! {

/// What came of one check.
#[derive(Debug, PartialEq, Eq)]
pub struct CheckResult {
    /// Name of the check.
    pub name: String,
    /// Whether it passed.
    pub ok: bool,
    /// Details for a human; empty if there are none.
    pub detail: String,
}

/// What a [`CheckResult`] says, as text.
#[verifier::ext_equal]
pub struct CheckModel {
    /// Name of the check.
    pub name: Seq<char>,
    /// Whether it passed.
    pub ok: bool,
    /// Details.
    pub detail: Seq<char>,
}

impl View for CheckResult {
    type V = CheckModel;

    open spec fn view(&self) -> CheckModel {
        CheckModel { name: self.name@, ok: self.ok, detail: self.detail@ }
    }
}

impl Clone for CheckResult {
    fn clone(&self) -> (r: Self)
        ensures
            r@ == self@,
    {
        CheckResult { name: self.name.clone(), ok: self.ok, detail: self.detail.clone() }
    }
}

/// The models of a sequence of check results.
pub open spec fn checks_of(v: Seq<CheckResult>) -> Seq<CheckModel> {
    v.map_values(|c: CheckResult| c@)
}

/// The verdict as it is sent over the bus.
#[derive(Debug, Clone, PartialEq, Eq)]
pub struct HealthReadyEnvelope {
    /// Topic of the envelope.
    pub topic: String,
    /// Time of the verdict.
    pub ts: String,
    /// Whether all checks passed.
    pub ready: bool,
    /// The checks.
    pub checks: Vec<CheckResult>,
    /// The worst failing check, if any.
    pub worst_reason: Option<String>,
    /// The phrase to speak when ready.
    pub ready_phrase: Option<String>,
}

/// Name of the check of the API key.
pub const CHECK_BRAIN: &'static str = "brain";

/// Name of the check of the fleet's target.
pub const CHECK_TARGET: &'static str = "target";

/// Name of the check of microphone and speaker.
pub const CHECK_AUDIO: &'static str = "audio";

/// Name of the check of the message bus.
pub const CHECK_BUS: &'static str = "bus";

/// Name of the check of the fleet's binaries.
pub const CHECK_UNITS: &'static str = "units";

/// What is spoken when the device is ready.
pub const BOOT_PHRASE_READY: &'static str = "Wintermute is ready.";

/// The checks from the most to the least critical.
pub const CHECK_PRIORITY: [&'static str; 5] = ["brain", "target", "bus", "audio", "units"];

// ---------------------------------------------------------------------------
// Phrases
// ---------------------------------------------------------------------------

/// What is spoken when a check fails: one sentence without technical terms.
pub open spec fn phrase_for(check: Seq<char>) -> Seq<char> {
    if check == CHECK_BRAIN@ {
        "Wintermute is up, but it can't reach its brain."@
    } else if check == CHECK_TARGET@ {
        "Wintermute has not fully started yet."@
    } else if check == CHECK_AUDIO@ {
        "Wintermute can't hear — its microphone or speaker is missing."@
    } else if check == CHECK_BUS@ {
        "Wintermute can't reach its message bus."@
    } else if check == CHECK_UNITS@ {
        "One or more of Wintermute's programs are missing."@
    } else {
        "Wintermute is not ready."@
    }
}

/// What is spoken when the check `check_name` fails.
pub fn not_ready_phrase(check_name: &str) -> (r: &'static str)
    ensures
        r@ == phrase_for(check_name@),
{
    if same(check_name, CHECK_BRAIN) {
        "Wintermute is up, but it can't reach its brain."
    } else if same(check_name, CHECK_TARGET) {
        "Wintermute has not fully started yet."
    } else if same(check_name, CHECK_AUDIO) {
        "Wintermute can't hear — its microphone or speaker is missing."
    } else if same(check_name, CHECK_BUS) {
        "Wintermute can't reach its message bus."
    } else if same(check_name, CHECK_UNITS) {
        "One or more of Wintermute's programs are missing."
    } else {
        "Wintermute is not ready."
    }
}

/// A check that passed.
pub open spec fn passed(name: Seq<char>) -> CheckModel {
    CheckModel { name, ok: true, detail: Seq::empty() }
}

/// A check that failed.
pub open spec fn failed(name: Seq<char>, detail: Seq<char>) -> CheckModel {
    CheckModel { name, ok: false, detail }
}

/// A check that passed.
fn pass(name: &str) -> (r: CheckResult)
    ensures
        r@ == passed(name@),
{
    CheckResult { name: name.to_owned(), ok: true, detail: String::new() }
}

/// A check that failed.
fn fail(name: &str, detail: String) -> (r: CheckResult)
    ensures
        r@ == failed(name@, detail@),
{
    CheckResult { name: name.to_owned(), ok: false, detail }
}

// ---------------------------------------------------------------------------
// Brain
// ---------------------------------------------------------------------------

/// The key of the API key among the settings.
pub const API_KEY_SETTING: &'static str = "WM_ANTHROPIC_API_KEY";

/// The check of the API key, where reading the settings at `path` gave `read`.
pub open spec fn brain_of(path: Seq<char>, read: FileReadModel) -> CheckModel {
    match read {
        FileReadModel::Text(text) => {
            let settings = settings_of(lines_of(text));
            if settings.contains_key(API_KEY_SETTING@) && settings[API_KEY_SETTING@].len() > 0 {
                passed(CHECK_BRAIN@)
            } else {
                failed(CHECK_BRAIN@, "WM_ANTHROPIC_API_KEY is empty in "@ + path)
            }
        },
        FileReadModel::NotFound => failed(CHECK_BRAIN@, "bootstrap env not found: "@ + path),
        FileReadModel::Failed(e) => failed(CHECK_BRAIN@, "could not read bootstrap env: "@ + e),
    }
}

/// The check of the API key, given what reading the settings at `path` gave.
pub fn brain_verdict(path: &str, read: FileRead) -> (r: CheckResult)
    ensures
        r@ == brain_of(path@, read@),
{
    match EnvConfig::from_read(read) {
        Ok(Some(cfg)) => {
            let present = match cfg.value(API_KEY_SETTING) {
                Some(v) => v.as_str().unicode_len() > 0,
                None => false,
            };
            if present {
                pass(CHECK_BRAIN)
            } else {
                fail(CHECK_BRAIN, "WM_ANTHROPIC_API_KEY is empty in ".to_owned().concat(path))
            }
        },
        Ok(None) => fail(CHECK_BRAIN, "bootstrap env not found: ".to_owned().concat(path)),
        Err(e) => fail(
            CHECK_BRAIN,
            "could not read bootstrap env: ".to_owned().concat(e.as_str()),
        ),
    }
}

/// The path of the settings: the override, or what the variable says, or the
/// default.
pub open spec fn env_path_of(chosen: Option<Seq<char>>, var: Option<Seq<char>>) -> Seq<char> {
    match chosen {
        Some(p) => p,
        None => match var {
            Some(p) => p,
            None => BOOTSTRAP_ENV_PATH@,
        },
    }
}

/// Whether the check of the settings at `path`, read through `read`, may give `c`.
pub open spec fn brain_checked<R: Fn(&str) -> FileRead>(
    read: R,
    path: Seq<char>,
    c: CheckModel,
) -> bool {
    exists|got: FileRead| #[trigger] reads(read, path, got) && c == brain_of(path, got@)
}

/// Checks the API key in the settings, read through `read`. The path is
/// `env_path_override`, or `bootstrap_var`, or the default.
pub fn check_brain<R: Fn(&str) -> FileRead>(
    env_path_override: Option<&str>,
    bootstrap_var: Option<&str>,
    read: &R,
) -> (r: CheckResult)
    requires
        may_read(*read, env_path_of(str_opt(env_path_override), str_opt(bootstrap_var))),
    ensures
        brain_checked(
            *read,
            env_path_of(str_opt(env_path_override), str_opt(bootstrap_var)),
            r@,
        ),
{
    let path: String = match env_path_override {
        Some(p) => p.to_owned(),
        None => bootstrap_env_path_with(bootstrap_var),
    };
    let p: &str = path.as_str();
    let got = read(p);
    assert(reads(*read, env_path_of(str_opt(env_path_override), str_opt(bootstrap_var)), got));
    brain_verdict(p, got)
}

// ---------------------------------------------------------------------------
// Target
// ---------------------------------------------------------------------------

/// The arguments of the query for the fleet's target.
pub open spec fn target_args() -> Seq<Seq<char>> {
    seq!["is-active"@, "--quiet"@, "wintermute.target"@]
}

/// The check of the fleet's target, given the output and success of the query.
pub open spec fn target_of(stdout: Seq<char>, ok: bool) -> CheckModel {
    if ok {
        passed(CHECK_TARGET@)
    } else if trim_of(stdout).len() == 0 {
        failed(CHECK_TARGET@, "wintermute.target is not active"@)
    } else {
        failed(CHECK_TARGET@, "wintermute.target: "@ + trim_of(stdout))
    }
}

/// The check of the fleet's target, given the output and success of the query.
pub fn target_verdict(stdout: &str, ok: bool) -> (r: CheckResult)
    ensures
        r@ == target_of(stdout@, ok),
{
    if ok {
        return pass(CHECK_TARGET);
    }
    let detail = trim(stdout);
    if detail.as_str().unicode_len() == 0 {
        fail(CHECK_TARGET, "wintermute.target is not active".to_owned())
    } else {
        fail(CHECK_TARGET, "wintermute.target: ".to_owned().concat(detail.as_str()))
    }
}

/// Whether the check of the fleet's target through `run` may give `c`.
pub open spec fn target_checked<R: Fn(&str, &[&str]) -> (String, bool)>(
    run: R,
    c: CheckModel,
) -> bool {
    exists|out: (String, bool)| #[trigger]
        runs(run, "systemctl"@, target_args(), out) && c == target_of(out.0@, out.1)
}

/// Checks through `run` whether the fleet's target is active.
pub fn check_target<R: Fn(&str, &[&str]) -> (String, bool)>(run: &R) -> (r: CheckResult)
    requires
        may_run(*run, "systemctl"@, target_args()),
    ensures
        target_checked(*run, r@),
{
    let args = ["is-active", "--quiet", "wintermute.target"];
    assert(strs(args@) == target_args());
    let out = run("systemctl", &args);
    assert(runs(*run, "systemctl"@, target_args(), out));
    target_verdict(out.0.as_str(), out.1)
}

// ---------------------------------------------------------------------------
// Audio
// ---------------------------------------------------------------------------

/// The arguments of a listing of audio devices of one sort.
pub open spec fn audio_args(sort: Seq<char>) -> Seq<Seq<char>> {
    seq!["list"@, "short"@, sort]
}

/// The check of microphone and speaker, given the output and success of the
/// listings of sources and of sinks.
pub open spec fn audio_of(
    sources: Seq<char>,
    sources_ok: bool,
    sinks: Seq<char>,
    sinks_ok: bool,
) -> CheckModel {
    let has_source = sources_ok && trim_of(sources).len() > 0;
    let has_sink = sinks_ok && trim_of(sinks).len() > 0;
    if has_source && has_sink {
        passed(CHECK_AUDIO@)
    } else if !sources_ok && !sinks_ok {
        failed(CHECK_AUDIO@, "pactl not available or PulseAudio/PipeWire not running"@)
    } else if has_sink {
        failed(CHECK_AUDIO@, "no audio source (microphone)"@)
    } else if has_source {
        failed(CHECK_AUDIO@, "no audio sink (speaker)"@)
    } else {
        failed(CHECK_AUDIO@, "no audio source (microphone); no audio sink (speaker)"@)
    }
}

/// The check of microphone and speaker, given the two listings.
pub fn audio_verdict(sources: &str, sources_ok: bool, sinks: &str, sinks_ok: bool) -> (r:
    CheckResult)
    ensures
        r@ == audio_of(sources@, sources_ok, sinks@, sinks_ok),
{
    let has_source = sources_ok && trim(sources).as_str().unicode_len() > 0;
    let has_sink = sinks_ok && trim(sinks).as_str().unicode_len() > 0;
    if has_source && has_sink {
        pass(CHECK_AUDIO)
    } else if !sources_ok && !sinks_ok {
        fail(CHECK_AUDIO, "pactl not available or PulseAudio/PipeWire not running".to_owned())
    } else if has_sink {
        fail(CHECK_AUDIO, "no audio source (microphone)".to_owned())
    } else if has_source {
        fail(CHECK_AUDIO, "no audio sink (speaker)".to_owned())
    } else {
        fail(CHECK_AUDIO, "no audio source (microphone); no audio sink (speaker)".to_owned())
    }
}

/// Whether the check of microphone and speaker through `run` may give `c`.
pub open spec fn audio_checked<R: Fn(&str, &[&str]) -> (String, bool)>(
    run: R,
    c: CheckModel,
) -> bool {
    exists|sources: (String, bool), sinks: (String, bool)|
        {
            &&& #[trigger] runs(run, "pactl"@, audio_args("sources"@), sources)
            &&& #[trigger] runs(run, "pactl"@, audio_args("sinks"@), sinks)
            &&& c == audio_of(sources.0@, sources.1, sinks.0@, sinks.1)
        }
}

/// Checks through `run` that there are a microphone and a speaker.
pub fn check_audio<R: Fn(&str, &[&str]) -> (String, bool)>(run: &R) -> (r: CheckResult)
    requires
        may_run(*run, "pactl"@, audio_args("sources"@)),
        may_run(*run, "pactl"@, audio_args("sinks"@)),
    ensures
        audio_checked(*run, r@),
{
    let source_args = ["list", "short", "sources"];
    assert(strs(source_args@) == audio_args("sources"@));
    let sources = run("pactl", &source_args);
    assert(runs(*run, "pactl"@, audio_args("sources"@), sources));
    let sink_args = ["list", "short", "sinks"];
    assert(strs(sink_args@) == audio_args("sinks"@));
    let sinks = run("pactl", &sink_args);
    assert(runs(*run, "pactl"@, audio_args("sinks"@), sinks));
    audio_verdict(sources.0.as_str(), sources.1, sinks.0.as_str(), sinks.1)
}

// ---------------------------------------------------------------------------
// Bus
// ---------------------------------------------------------------------------

/// What a try to reach the message bus gave.
#[derive(Debug, Clone, PartialEq, Eq)]
pub enum BusProbe {
    /// There is no socket.
    Missing,
    /// The bus was reached.
    Connected,
    /// The socket is there and cannot be connected to; the text says why.
    Refused(String),
}

/// The path of the bus: the override, or the usual place under the runtime
/// directory.
pub open spec fn bus_path_of(chosen: Option<Seq<char>>, runtime_dir: Option<Seq<char>>) -> Seq<
    char,
> {
    match chosen {
        Some(p) => p,
        None => join_of(
            join_of(crate::files::dir_or_tmp(runtime_dir), "agorabus"@),
            "bus.sock"@,
        ),
    }
}

/// The check of the bus at `path`, given what a try to reach it gave.
pub open spec fn bus_of(path: Seq<char>, probe: BusProbe) -> CheckModel {
    match probe {
        BusProbe::Missing => failed(CHECK_BUS@, "agorabus socket not found: "@ + path),
        BusProbe::Connected => passed(CHECK_BUS@),
        BusProbe::Refused(e) => failed(CHECK_BUS@, "agorabus socket not connectable: "@ + e@),
    }
}

/// The check of the bus at `path`, given what a try to reach it gave.
pub fn bus_verdict(path: &str, probe: BusProbe) -> (r: CheckResult)
    ensures
        r@ == bus_of(path@, probe),
{
    match probe {
        BusProbe::Missing => fail(
            CHECK_BUS,
            "agorabus socket not found: ".to_owned().concat(path),
        ),
        BusProbe::Connected => pass(CHECK_BUS),
        BusProbe::Refused(e) => fail(
            CHECK_BUS,
            "agorabus socket not connectable: ".to_owned().concat(e.as_str()),
        ),
    }
}

/// Whether a try to reach the bus at `path` through `connect` may give `probe`.
pub open spec fn connects<P: Fn(&str) -> BusProbe>(
    connect: P,
    path: Seq<char>,
    probe: BusProbe,
) -> bool {
    exists|p: &str| p@ == path && #[trigger] connect.ensures((p,), probe)
}

/// The usual place of the bus under the runtime directory.
pub fn default_bus_socket_path(runtime_dir: Option<&str>) -> (r: String)
    ensures
        r@ == bus_path_of(None, str_opt(runtime_dir)),
{
    let base: &str = match runtime_dir {
        Some(d) => d,
        None => "/tmp",
    };
    join_path(join_path(base, "agorabus").as_str(), "bus.sock")
}

/// Whether the check of the bus at `path` through `connect` may give `c`.
pub open spec fn bus_checked<P: Fn(&str) -> BusProbe>(
    connect: P,
    path: Seq<char>,
    c: CheckModel,
) -> bool {
    exists|probe: BusProbe| #[trigger] connects(connect, path, probe) && c == bus_of(path, probe)
}

/// Checks through `connect` whether the bus can be reached.
pub fn check_bus<P: Fn(&str) -> BusProbe>(
    bus_socket_path_override: Option<&str>,
    runtime_dir: Option<&str>,
    connect: &P,
) -> (r: CheckResult)
    requires
        forall|p: &str|
            p@ == bus_path_of(str_opt(bus_socket_path_override), str_opt(runtime_dir))
                ==> connect.requires((p,)),
    ensures
        bus_checked(
            *connect,
            bus_path_of(str_opt(bus_socket_path_override), str_opt(runtime_dir)),
            r@,
        ),
{
    let path: String = match bus_socket_path_override {
        Some(p) => p.to_owned(),
        None => default_bus_socket_path(runtime_dir),
    };
    let p: &str = path.as_str();
    let probe = connect(p);
    assert(connects(
        *connect,
        bus_path_of(str_opt(bus_socket_path_override), str_opt(runtime_dir)),
        probe,
    ));
    bus_verdict(p, probe)
}

// ---------------------------------------------------------------------------
// Units
// ---------------------------------------------------------------------------

/// Whether asking `is_file` about `path` may give `yes`.
pub open spec fn says_file<F: Fn(&str) -> bool>(is_file: F, path: Seq<char>, yes: bool) -> bool {
    exists|p: &str| p@ == path && #[trigger] is_file.ensures((p,), yes)
}

/// The directories of a search path.
pub open spec fn search_dirs(path_env: Option<Seq<char>>) -> Seq<Seq<char>> {
    match path_env {
        Some(p) => split_of(p, ':'),
        None => Seq::empty(),
    }
}

/// Whether a search for `name` in `dirs` may give `found`: the path of the
/// first directory that has a file of that name, or none if none has.
pub open spec fn searches<F: Fn(&str) -> bool>(
    is_file: F,
    dirs: Seq<Seq<char>>,
    name: Seq<char>,
    found: Option<Seq<char>>,
) -> bool {
    match found {
        Some(path) => exists|i: int|
            {
                &&& 0 <= i < dirs.len()
                &&& path == join_of(#[trigger] dirs[i], name)
                &&& says_file(is_file, path, true)
                &&& none_before(is_file, dirs, name, i)
            },
        None => none_before(is_file, dirs, name, dirs.len() as int),
    }
}

/// Whether none of the first `n` directories may have a file called `name`.
pub open spec fn none_before<F: Fn(&str) -> bool>(
    is_file: F,
    dirs: Seq<Seq<char>>,
    name: Seq<char>,
    n: int,
) -> bool {
    forall|j: int| 0 <= j < n ==> says_file(is_file, join_of(#[trigger] dirs[j], name), false)
}

/// Searches the directories of `path_env` for a file called `name`.
pub fn which_on_path<F: Fn(&str) -> bool>(
    name: &str,
    path_env: Option<&str>,
    is_file: &F,
) -> (r: Option<String>)
    requires
        forall|p: &str| is_file.requires((p,)),
    ensures
        searches(*is_file, search_dirs(str_opt(path_env)), name@, text_opt(r)),
{
    let dirs: Vec<String> = match path_env {
        Some(p) => split(p, ':'),
        None => Vec::new(),
    };
    let ghost ds = texts(dirs@);
    assert(ds == search_dirs(str_opt(path_env)));
    let mut i: usize = 0;
    while i < dirs.len()
        invariant
            i <= dirs.len(),
            ds == texts(dirs@),
            ds == search_dirs(str_opt(path_env)),
            forall|p: &str| is_file.requires((p,)),
            none_before(*is_file, ds, name@, i as int),
        decreases dirs.len() - i,
    {
        let candidate = join_path(dirs[i].as_str(), name);
        let p: &str = candidate.as_str();
        let yes = is_file(p);
        assert(ds[i as int] == dirs@[i as int]@);
        assert(says_file(*is_file, join_of(ds[i as int], name@), yes));
        if yes {
            return Some(candidate);
        }
        i += 1;
    }
    None
}

/// The names of the fleet's first binaries that were not found.
pub open spec fn missing_of(found: Seq<bool>) -> Seq<Seq<char>>
    decreases found.len(),
{
    if found.len() == 0 {
        Seq::empty()
    } else if found.last() {
        missing_of(found.drop_last())
    } else {
        missing_of(found.drop_last()).push(CHILD_STARTUP_ORDER[found.len() - 1]@)
    }
}

/// The check of the fleet's binaries, given the names of those not found.
pub open spec fn units_check_of(missing: Seq<Seq<char>>) -> CheckModel {
    if missing.len() == 0 {
        passed(CHECK_UNITS@)
    } else {
        failed(CHECK_UNITS@, "missing binaries: "@ + crate::text::join_of(missing, ", "@))
    }
}

/// The check of the fleet's binaries, given the names of those not found.
pub fn units_verdict(missing: &[&str]) -> (r: CheckResult)
    ensures
        r@ == units_check_of(strs(missing@)),
{
    assert(strs(missing@).len() == missing@.len());
    if missing.len() == 0 {
        pass(CHECK_UNITS)
    } else {
        fail(
            CHECK_UNITS,
            "missing binaries: ".to_owned().concat(join_strs(missing, ", ").as_str()),
        )
    }
}

/// Whether the searches for the fleet's first binaries may give `found`.
pub open spec fn all_search<F: Fn(&str) -> bool>(
    is_file: F,
    dirs: Seq<Seq<char>>,
    found: Seq<bool>,
) -> bool {
    &&& found.len() <= 5
    &&& forall|i: int|
        0 <= i < found.len() ==> search_ends(
            is_file,
            dirs,
            CHILD_STARTUP_ORDER[i]@,
            #[trigger] found[i],
        )
}

/// Whether a search for `name` in `dirs` may end with the file found, or not.
pub open spec fn search_ends<F: Fn(&str) -> bool>(
    is_file: F,
    dirs: Seq<Seq<char>>,
    name: Seq<char>,
    found: bool,
) -> bool {
    exists|path: Option<Seq<char>>| #[trigger]
        searches(is_file, dirs, name, path) && found == (path is Some)
}

/// Whether the check of the fleet's binaries in `dirs` may give `c`.
pub open spec fn units_checked<F: Fn(&str) -> bool>(
    is_file: F,
    dirs: Seq<Seq<char>>,
    c: CheckModel,
) -> bool {
    exists|found: Seq<bool>|
        {
            &&& #[trigger] all_search(is_file, dirs, found)
            &&& found.len() == 5
            &&& c == units_check_of(missing_of(found))
        }
}

/// Checks through `is_file` that every binary of the fleet is on the search
/// path `path_env`.
pub fn check_units<F: Fn(&str) -> bool>(path_env: Option<&str>, is_file: &F) -> (r: CheckResult)
    requires
        forall|p: &str| is_file.requires((p,)),
    ensures
        units_checked(*is_file, search_dirs(str_opt(path_env)), r@),
{
    let ghost dirs = search_dirs(str_opt(path_env));
    let ghost mut found: Seq<bool> = Seq::empty();
    let mut missing: Vec<&str> = Vec::new();
    let mut i: usize = 0;
    assert(strs(missing@) == missing_of(found));
    while i < 5
        invariant
            i <= 5,
            dirs == search_dirs(str_opt(path_env)),
            forall|p: &str| is_file.requires((p,)),
            found.len() == i,
            all_search(*is_file, dirs, found),
            strs(missing@) == missing_of(found),
        decreases 5 - i,
    {
        let name: &str = CHILD_STARTUP_ORDER[i];
        let path = which_on_path(name, path_env, is_file);
        let ghost before = missing@;
        let there = path.is_some();
        if !there {
            missing.push(name);
            assert(strs(missing@) == strs(before).push(name@));
        }
        proof {
            assert(searches(*is_file, dirs, name@, text_opt(path)));
            assert(search_ends(*is_file, dirs, name@, there));
            let next = found.push(there);
            assert(next.drop_last() == found);
            assert forall|k: int| 0 <= k < next.len() implies search_ends(
                *is_file,
                dirs,
                CHILD_STARTUP_ORDER[k]@,
                #[trigger] next[k],
            ) by {
                if k < found.len() {
                    assert(next[k] == found[k]);
                }
            }
            found = next;
        }
        i += 1;
    }
    units_verdict(missing.as_slice())
}

// ---------------------------------------------------------------------------
// All checks
// ---------------------------------------------------------------------------

/// What the environment says about the places of the checks.
#[derive(Debug, Clone, PartialEq, Eq)]
pub struct ReadyEnv {
    /// The variable that moves the bootstrap environment file, if set.
    pub bootstrap_env: Option<String>,
    /// The variable `XDG_RUNTIME_DIR`, if set.
    pub runtime_dir: Option<String>,
    /// The variable `PATH`, if set.
    pub path: Option<String>,
}

/// Runs the five checks, in the order in which they are reported: the API key,
/// the target, audio, the bus and the fleet's binaries.
pub fn check_all<
    R: Fn(&str) -> FileRead,
    C: Fn(&str, &[&str]) -> (String, bool),
    P: Fn(&str) -> BusProbe,
    F: Fn(&str) -> bool,
>(env: &ReadyEnv, read: &R, run: &C, connect: &P, is_file: &F) -> (r: Vec<CheckResult>)
    requires
        may_read(*read, env_path_of(None, text_opt(env.bootstrap_env))),
        may_run(*run, "systemctl"@, target_args()),
        may_run(*run, "pactl"@, audio_args("sources"@)),
        may_run(*run, "pactl"@, audio_args("sinks"@)),
        forall|p: &str|
            p@ == bus_path_of(None, text_opt(env.runtime_dir)) ==> connect.requires((p,)),
        forall|p: &str| is_file.requires((p,)),
    ensures
        all_checked(*env, *read, *run, *connect, *is_file, checks_of(r@)),
{
    let mut checks: Vec<CheckResult> = Vec::new();
    checks.push(check_brain(None, as_str_opt(&env.bootstrap_env), read));
    checks.push(check_target(run));
    checks.push(check_audio(run));
    checks.push(check_bus(None, as_str_opt(&env.runtime_dir), connect));
    checks.push(check_units(as_str_opt(&env.path), is_file));
    checks
}

/// Whether the five checks, in order, may give `cs`.
pub open spec fn all_checked<
    R: Fn(&str) -> FileRead,
    C: Fn(&str, &[&str]) -> (String, bool),
    P: Fn(&str) -> BusProbe,
    F: Fn(&str) -> bool,
>(env: ReadyEnv, read: R, run: C, connect: P, is_file: F, cs: Seq<CheckModel>) -> bool {
    &&& cs.len() == 5
    &&& brain_checked(read, env_path_of(None, text_opt(env.bootstrap_env)), cs[0])
    &&& target_checked(run, cs[1])
    &&& audio_checked(run, cs[2])
    &&& bus_checked(connect, bus_path_of(None, text_opt(env.runtime_dir)), cs[3])
    &&& units_checked(is_file, search_dirs(text_opt(env.path)), cs[4])
}

/// An optional text as an optional slice.
fn as_str_opt(s: &Option<String>) -> (r: Option<&str>)
    ensures
        str_opt(r) == text_opt(*s),
{
    match s {
        Some(t) => Some(t.as_str()),
        None => None,
    }
}

// ---------------------------------------------------------------------------
// The verdict
// ---------------------------------------------------------------------------

/// Whether a check called `name` failed.
pub open spec fn fails_named(checks: Seq<CheckModel>, name: Seq<char>) -> bool {
    exists|i: int| 0 <= i < checks.len() && (#[trigger] checks[i]).name == name && !checks[i].ok
}

/// Whether all checks passed.
pub open spec fn all_passed(checks: Seq<CheckModel>) -> bool {
    forall|i: int| 0 <= i < checks.len() ==> (#[trigger] checks[i]).ok
}

/// The position of the first check that failed, or the number of checks.
pub open spec fn first_failed(checks: Seq<CheckModel>) -> int
    decreases checks.len(),
{
    if checks.len() == 0 || !checks[0].ok {
        0
    } else {
        1 + first_failed(checks.drop_first())
    }
}

/// The most critical of the checks from position `k` of the order on that
/// failed; where none of them failed, the first check that did.
pub open spec fn worst_from(checks: Seq<CheckModel>, k: int) -> Seq<char>
    decreases 5 - k,
{
    if k >= 5 {
        checks[first_failed(checks)].name
    } else if fails_named(checks, CHECK_PRIORITY[k]@) {
        CHECK_PRIORITY[k]@
    } else {
        worst_from(checks, k + 1)
    }
}

/// The worst failing check, if any.
pub open spec fn worst_of(checks: Seq<CheckModel>) -> Option<Seq<char>> {
    if all_passed(checks) {
        None
    } else {
        Some(worst_from(checks, 0))
    }
}

/// What `first_failed` finds.
proof fn lemma_first_failed(checks: Seq<CheckModel>)
    ensures
        0 <= first_failed(checks) <= checks.len(),
        first_failed(checks) < checks.len() <==> !all_passed(checks),
        first_failed(checks) < checks.len() ==> !checks[first_failed(checks)].ok,
    decreases checks.len(),
{
    if checks.len() > 0 && checks[0].ok {
        let rest = checks.drop_first();
        lemma_first_failed(rest);
        if all_passed(rest) {
            assert forall|i: int| 0 <= i < checks.len() implies (#[trigger] checks[i]).ok by {
                if i > 0 {
                    assert(checks[i] == rest[i - 1]);
                }
            }
        } else {
            let j = choose|j: int| 0 <= j < rest.len() && !(#[trigger] rest[j]).ok;
            assert(!checks[j + 1].ok);
        }
    } else if checks.len() > 0 {
        assert(!checks[0].ok);
    }
}

/// The position of the first check that failed, or the number of checks.
fn find_failed(checks: &[CheckResult]) -> (r: usize)
    ensures
        r == first_failed(checks_of(checks@)),
        r <= checks.len(),
{
    let ghost cs = checks_of(checks@);
    let mut i: usize = 0;
    assert(cs.skip(0) == cs);
    while i < checks.len()
        invariant
            i <= checks.len(),
            cs == checks_of(checks@),
            first_failed(cs) == i + first_failed(cs.skip(i as int)),
        decreases checks.len() - i,
    {
        assert(cs.skip(i as int)[0] == checks@[i as int]@);
        if !checks[i].ok {
            return i;
        }
        assert(cs.skip(i as int).drop_first() == cs.skip(i + 1));
        i += 1;
    }
    i
}

/// Whether a check called `name` failed.
fn any_failed(checks: &[CheckResult], name: &str) -> (r: bool)
    ensures
        r == fails_named(checks_of(checks@), name@),
{
    let ghost cs = checks_of(checks@);
    let mut i: usize = 0;
    while i < checks.len()
        invariant
            i <= checks.len(),
            cs == checks_of(checks@),
            forall|j: int| 0 <= j < i ==> !((#[trigger] cs[j]).name == name@ && !cs[j].ok),
        decreases checks.len() - i,
    {
        assert(cs[i as int] == checks@[i as int]@);
        if !checks[i].ok && same(checks[i].name.as_str(), name) {
            return true;
        }
        i += 1;
    }
    false
}

/// The verdict of the checks: whether all passed, and the worst that did not.
pub fn aggregate(checks: &[CheckResult]) -> (r: (bool, Option<String>))
    ensures
        r.0 == all_passed(checks_of(checks@)),
        text_opt(r.1) == worst_of(checks_of(checks@)),
{
    let ghost cs = checks_of(checks@);
    let first: usize = find_failed(checks);
    proof {
        lemma_first_failed(cs);
    }
    if first == checks.len() {
        return (true, None);
    }
    let mut k: usize = 0;
    while k < 5
        invariant
            k <= 5,
            cs == checks_of(checks@),
            !all_passed(cs),
            worst_from(cs, 0) == worst_from(cs, k as int),
        decreases 5 - k,
    {
        if any_failed(checks, CHECK_PRIORITY[k]) {
            return (false, Some(CHECK_PRIORITY[k].to_owned()));
        }
        k += 1;
    }
    assert(cs[first as int] == checks@[first as int]@);
    (false, Some(checks[first].name.clone()))
}

/// The verdict in one line.
pub fn verdict_line(ready: bool, failing: &[&str]) -> (r: String)
    ensures
        r@ == if ready {
            "READY"@
        } else {
            "NOT READY: "@ + crate::text::join_of(strs(failing@), ", "@)
        },
{
    if ready {
        "READY".to_owned()
    } else {
        "NOT READY: ".to_owned().concat(join_strs(failing, ", ").as_str())
    }
}

/// The device is ready exactly if every check passed. Otherwise a check is
/// named as the worst, that check did fail, and no check of the order that is
/// more critical failed.
pub proof fn law_worst_failed(checks: Seq<CheckModel>)
    ensures
        all_passed(checks) <==> worst_of(checks) is None,
        worst_of(checks) matches Some(w) ==> fails_named(checks, w) && forall|k: int, j: int|
            0 <= j < k < 5 && w == #[trigger] CHECK_PRIORITY[k]@ ==> !fails_named(
                checks,
                #[trigger] CHECK_PRIORITY[j]@,
            ),
{
    lemma_first_failed(checks);
    if !all_passed(checks) {
        lemma_worst_from(checks, 0);
    }
}

proof fn lemma_worst_from(checks: Seq<CheckModel>, k: int)
    requires
        !all_passed(checks),
        0 <= k <= 5,
        forall|j: int| 0 <= j < k ==> !fails_named(checks, #[trigger] CHECK_PRIORITY[j]@),
    ensures
        fails_named(checks, worst_from(checks, k)),
        forall|i: int, j: int|
            0 <= j < i < 5 && worst_from(checks, k) == #[trigger] CHECK_PRIORITY[i]@
                ==> !fails_named(checks, #[trigger] CHECK_PRIORITY[j]@),
    decreases 5 - k,
{
    lemma_first_failed(checks);
    lemma_priority_distinct();
    if k >= 5 {
        assert(fails_named(checks, checks[first_failed(checks)].name));
    } else if fails_named(checks, CHECK_PRIORITY[k]@) {
        assert forall|i: int, j: int|
            0 <= j < i < 5 && worst_from(checks, k)
                == #[trigger] CHECK_PRIORITY[i]@ implies !fails_named(
            checks,
            #[trigger] CHECK_PRIORITY[j]@,
        ) by {
            assert(i == k);
        }
    } else {
        assert forall|j: int| 0 <= j < k + 1 implies !fails_named(
            checks,
            #[trigger] CHECK_PRIORITY[j]@,
        ) by {
            if j == k {
                assert(CHECK_PRIORITY[j]@ == CHECK_PRIORITY[k]@);
            }
        }
        lemma_worst_from(checks, k + 1);
    }
}

/// The names of the checks are distinct.
proof fn lemma_priority_distinct()
    ensures
        forall|i: int, j: int|
            0 <= i < 5 && 0 <= j < 5 && #[trigger] CHECK_PRIORITY[i]@
                == #[trigger] CHECK_PRIORITY[j]@ ==> i == j,
{
    reveal_strlit("brain");
    reveal_strlit("target");
    reveal_strlit("bus");
    reveal_strlit("audio");
    reveal_strlit("units");
    assert(CHECK_PRIORITY[0]@.len() == 5 && CHECK_PRIORITY[0]@[0] == 'b');
    assert(CHECK_PRIORITY[1]@.len() == 6);
    assert(CHECK_PRIORITY[2]@.len() == 3);
    assert(CHECK_PRIORITY[3]@.len() == 5 && CHECK_PRIORITY[3]@[0] == 'a');
    assert(CHECK_PRIORITY[4]@.len() == 5 && CHECK_PRIORITY[4]@[0] == 'u');
}

} // verus!
