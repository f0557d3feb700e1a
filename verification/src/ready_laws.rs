//! What holds of settings and of the checks for readiness.

use crate::env_config::{setting_of, settings_of};
use crate::files::{join_of, reads, FileRead, FileReadModel};
use crate::fleet::CHILD_STARTUP_ORDER;
use crate::commands::runs;
use crate::ready::{
    all_passed, first_failed, all_checked, all_search, search_ends, units_checked, connects,
    ReadyEnv, audio_args, audio_of, brain_of, bus_of, bus_path_of, env_path_of, fails_named,
    missing_of, phrase_for, says_file, search_dirs, searches, target_args, target_of,
    units_check_of, worst_from, worst_of, BusProbe, CheckModel, CHECK_PRIORITY,
};
use crate::text::{is_space, lines_of, split_of, text_opt, trim_of};
use crate::text_laws::{blank, law_split_at_the_first, law_trim_takes_the_ends, law_white_space};
use vstd::prelude::*;

verus! {

// ---------------------------------------------------------------------------
// Settings
// ---------------------------------------------------------------------------

/// Whether a text neither begins nor ends with white space.
pub open spec fn trimmed(s: Seq<char>) -> bool {
    s.len() > 0 ==> !is_space(s[0]) && !is_space(s.last())
}

/// A line sets what stands before its first `=` to what stands behind it, both
/// without the white space around them; the value may hold any character, `=`
/// and `#` too.
pub proof fn law_setting_is_around_the_first_equals(
    pre: Seq<char>,
    key: Seq<char>,
    gap: Seq<char>,
    gap2: Seq<char>,
    value: Seq<char>,
    post: Seq<char>,
)
    requires
        blank(pre),
        blank(gap),
        blank(gap2),
        blank(post),
        trimmed(key),
        key.len() > 0,
        key[0] != '#',
        !key.contains('='),
        trimmed(value),
    ensures
        setting_of(pre + (key + gap).push('=') + (gap2 + value + post)) == Some((key, value)),
{
    let line = pre + (key + gap).push('=') + (gap2 + value + post);
    let head = key + gap;
    let e = Seq::<char>::empty();
    assert(!head.contains('=')) by {
        if head.contains('=') {
            let i = head.index_of('=');
            if i < key.len() {
                assert(key[i] == '=');
            } else {
                assert(is_space(gap[i - key.len()]));
            }
        }
    }
    reveal_strlit("#");
    if value.len() > 0 {
        let mid = head.push('=') + (gap2 + value);
        assert(mid[0] == key[0]);
        assert(mid.last() == value.last());
        assert(line == pre + mid + post);
        law_trim_takes_the_ends(pre, mid, post);
        law_split_at_the_first(head, gap2 + value, '=');
        lemma_trim_inner(key, gap);
        assert(gap2 + value == gap2 + value + e);
        law_trim_takes_the_ends(gap2, value, e);
        lemma_not_prefix(mid);
    } else {
        let mid = head.push('=');
        let tail = gap2 + value + post;
        assert(mid[0] == key[0]);
        assert(mid.last() == '=');
        assert(line == pre + mid + tail);
        assert forall|i: int| 0 <= i < tail.len() implies is_space(#[trigger] tail[i]) by {
            if i < gap2.len() {
                assert(is_space(gap2[i]));
            } else {
                assert(is_space(post[i - gap2.len()]));
            }
        }
        law_trim_takes_the_ends(pre, mid, tail);
        law_split_at_the_first(head, e, '=');
        assert(mid == head.push('=') + e);
        lemma_trim_inner(key, gap);
        assert(e == e + e + e);
        law_trim_takes_the_ends(e, e, e);
        assert(value == e);
        lemma_not_prefix(mid);
    }
}

proof fn lemma_trim_inner(key: Seq<char>, gap: Seq<char>)
    requires
        blank(gap),
        trimmed(key),
    ensures
        trim_of(key + gap) == key,
{
    let e = Seq::<char>::empty();
    assert(key + gap == e + key + gap);
    law_trim_takes_the_ends(e, key, gap);
}

proof fn lemma_not_prefix(t: Seq<char>)
    requires
        t.len() > 0,
        t[0] != '#',
    ensures
        !"#"@.is_prefix_of(t),
{
    reveal_strlit("#");
    if "#"@.is_prefix_of(t) {
        assert(t.subrange(0, 1)[0] == t[0]);
    }
}

/// Nothing before the first `=` is a key too.
pub proof fn law_empty_key_is_a_key(
    pre: Seq<char>,
    gap: Seq<char>,
    value: Seq<char>,
    post: Seq<char>,
)
    requires
        blank(pre),
        blank(gap),
        blank(post),
        trimmed(value),
        value.len() > 0,
    ensures
        setting_of(pre.push('=') + gap + value + post) == Some((Seq::<char>::empty(), value)),
        setting_of(pre.push('=') + gap) == Some((Seq::<char>::empty(), Seq::<char>::empty())),
{
    let e = Seq::<char>::empty();
    let mid = seq!['='] + gap + value;
    assert(pre.push('=') + gap + value + post == pre + mid + post);
    assert(mid.last() == value.last());
    assert(mid[0] == '=');
    law_white_space('=');
    law_trim_takes_the_ends(pre, mid, post);
    lemma_not_prefix(mid);
    assert(mid == e.push('=') + (gap + value));
    law_split_at_the_first(e, gap + value, '=');
    assert(e == e + e + e);
    law_trim_takes_the_ends(e, e, e);
    assert(gap + value == gap + value + e);
    law_trim_takes_the_ends(gap, value, e);
    let one = seq!['='];
    assert(pre.push('=') + gap == pre + one + gap);
    law_trim_takes_the_ends(pre, one, gap);
    lemma_not_prefix(one);
    assert(one == e.push('=') + e);
    law_split_at_the_first(e, e, '=');
}

/// Comments, white space and lines without `=` set nothing.
pub proof fn law_other_lines_set_nothing(
    pre: Seq<char>,
    rest: Seq<char>,
    post: Seq<char>,
    bare: Seq<char>,
)
    requires
        blank(pre),
        blank(post),
        trimmed(seq!['#'] + rest),
        !bare.contains('='),
    ensures
        setting_of(pre + (seq!['#'] + rest) + post) is None,
        setting_of(pre) is None,
        setting_of(bare) is None,
{
    reveal_strlit("#");
    let e = Seq::<char>::empty();
    let mid = seq!['#'] + rest;
    law_trim_takes_the_ends(pre, mid, post);
    assert(mid.subrange(0, 1) == "#"@);
    assert(pre == pre + e + e);
    law_trim_takes_the_ends(pre, e, e);
    let cut = crate::text_laws::law_trim_is_a_part(bare);
    let t = trim_of(bare);
    assert(!t.contains('=')) by {
        if t.contains('=') {
            let i = t.index_of('=');
            assert(bare[cut.0.len() + i] == '=');
        }
    }
    law_split_at_the_first(t, e, '=');
}

/// A key is set exactly if some line sets it, and to what the last such line says.
pub proof fn law_last_setting_counts(ls: Seq<Seq<char>>, key: Seq<char>)
    ensures
        settings_of(ls).contains_key(key) <==> exists|i: int|
            0 <= i < ls.len() && sets(#[trigger] ls[i], key),
        forall|i: int|
            0 <= i < ls.len() && sets(#[trigger] ls[i], key) && (forall|j: int|
                i < j < ls.len() ==> !sets(#[trigger] ls[j], key)) ==> settings_of(ls)[key]
                == (setting_of(ls[i])->0).1,
    decreases ls.len(),
{
    if ls.len() > 0 {
        let rest = ls.drop_last();
        law_last_setting_counts(rest, key);
        if exists|i: int| 0 <= i < ls.len() && sets(#[trigger] ls[i], key) {
            let i = choose|i: int| 0 <= i < ls.len() && sets(#[trigger] ls[i], key);
            if i < rest.len() {
                assert(rest[i] == ls[i]);
            }
        }
        if exists|i: int| 0 <= i < rest.len() && sets(#[trigger] rest[i], key) {
            let i = choose|i: int| 0 <= i < rest.len() && sets(#[trigger] rest[i], key);
            assert(ls[i] == rest[i]);
        }
        assert(ls[ls.len() - 1] == ls.last());
        assert forall|i: int|
            0 <= i < ls.len() && sets(#[trigger] ls[i], key) && (forall|j: int|
                i < j < ls.len() ==> !sets(#[trigger] ls[j], key)) implies settings_of(ls)[key]
            == (setting_of(ls[i])->0).1 by {
            if i < rest.len() {
                assert(rest[i] == ls[i]);
                assert(!sets(ls[ls.len() - 1], key));
                assert forall|j: int| i < j < rest.len() implies !sets(#[trigger] rest[j], key) by {
                    assert(ls[j] == rest[j]);
                }
            }
        }
    }
}

/// Whether a line sets `key`.
pub open spec fn sets(line: Seq<char>, key: Seq<char>) -> bool {
    setting_of(line) matches Some(kv) && kv.0 == key
}

// ---------------------------------------------------------------------------
// Checks
// ---------------------------------------------------------------------------

/// The brain can be reached exactly if the bootstrap settings were read and hold
/// a key that is not empty; otherwise the check says which of these was missing.
pub proof fn law_brain_needs_a_key(path: Seq<char>, text: Seq<char>, e: Seq<char>)
    ensures
        ({
            let settings = settings_of(lines_of(text));
            let c = brain_of(path, FileReadModel::Text(text));
            &&& c.name == "brain"@
            &&& c.ok <==> settings.contains_key("WM_ANTHROPIC_API_KEY"@)
                && settings["WM_ANTHROPIC_API_KEY"@].len() > 0
            &&& c.ok ==> c.detail.len() == 0
            &&& !c.ok ==> c.detail == "WM_ANTHROPIC_API_KEY is empty in "@ + path
        }),
        brain_of(path, FileReadModel::NotFound) == (CheckModel {
            name: "brain"@,
            ok: false,
            detail: "bootstrap env not found: "@ + path,
        }),
        brain_of(path, FileReadModel::Failed(e)) == (CheckModel {
            name: "brain"@,
            ok: false,
            detail: "could not read bootstrap env: "@ + e,
        }),
{
}

/// The settings are read from the chosen path, else from the one in the
/// environment, else from the usual one.
pub proof fn law_settings_path(chosen: Seq<char>, var: Seq<char>)
    ensures
        env_path_of(Some(chosen), Some(var)) == chosen,
        env_path_of(Some(chosen), None) == chosen,
        env_path_of(None, Some(var)) == var,
        env_path_of(None, None) == "/etc/wintermute/conf.d/00-bootstrap.env"@,
{
}

/// The target is up exactly if its query succeeds; what the query printed is
/// passed on without the white space around it.
pub proof fn law_target_is_up_if_its_query_succeeds(
    pre: Seq<char>,
    state: Seq<char>,
    post: Seq<char>,
    stdout: Seq<char>,
)
    requires
        blank(pre),
        blank(post),
        trimmed(state),
    ensures
        target_of(stdout, true) == (CheckModel {
            name: "target"@,
            ok: true,
            detail: Seq::empty(),
        }),
        state.len() > 0 ==> target_of(pre + state + post, false) == (CheckModel {
            name: "target"@,
            ok: false,
            detail: "wintermute.target: "@ + state,
        }),
        state.len() == 0 ==> target_of(pre + state + post, false) == (CheckModel {
            name: "target"@,
            ok: false,
            detail: "wintermute.target is not active"@,
        }),
        target_args() == seq!["is-active"@, "--quiet"@, "wintermute.target"@],
{
    law_trim_takes_the_ends(pre, state, post);
}

/// Audio works exactly if both listings succeed and name something; otherwise the
/// check says what is missing.
pub proof fn law_audio_needs_a_source_and_a_sink(
    sources: Seq<char>,
    sources_ok: bool,
    sinks: Seq<char>,
    sinks_ok: bool,
)
    ensures
        ({
            let c = audio_of(sources, sources_ok, sinks, sinks_ok);
            let source = sources_ok && !blank(sources);
            let sink = sinks_ok && !blank(sinks);
            &&& c.name == "audio"@
            &&& c.ok <==> source && sink
            &&& c.ok ==> c.detail.len() == 0
            &&& !sources_ok && !sinks_ok ==> c.detail
                == "pactl not available or PulseAudio/PipeWire not running"@
            &&& (sources_ok || sinks_ok) && !source && sink ==> c.detail
                == "no audio source (microphone)"@
            &&& (sources_ok || sinks_ok) && source && !sink ==> c.detail
                == "no audio sink (speaker)"@
            &&& (sources_ok || sinks_ok) && !source && !sink ==> c.detail
                == "no audio source (microphone); no audio sink (speaker)"@
        }),
        audio_args("sources"@) == seq!["list"@, "short"@, "sources"@],
        audio_args("sinks"@) == seq!["list"@, "short"@, "sinks"@],
{
    lemma_blank(sources);
    lemma_blank(sinks);
}

/// A text is blank exactly if trimming leaves nothing.
proof fn lemma_blank(s: Seq<char>)
    ensures
        blank(s) <==> trim_of(s).len() == 0,
{
    let e = Seq::<char>::empty();
    let cut = crate::text_laws::law_trim_is_a_part(s);
    if blank(s) {
        assert(s == s + e + e);
        law_trim_takes_the_ends(s, e, e);
    } else if trim_of(s).len() == 0 {
        assert forall|i: int| 0 <= i < s.len() implies is_space(#[trigger] s[i]) by {
            if i < cut.0.len() {
                assert(is_space(cut.0[i]));
            } else {
                assert(is_space(cut.1[i - cut.0.len()]));
            }
        }
    }
}

/// The bus can be reached exactly if the connection was made.
pub proof fn law_bus_needs_a_connection(path: Seq<char>, e: String)
    ensures
        bus_of(path, BusProbe::Connected) == (CheckModel {
            name: "bus"@,
            ok: true,
            detail: Seq::empty(),
        }),
        bus_of(path, BusProbe::Missing) == (CheckModel {
            name: "bus"@,
            ok: false,
            detail: "agorabus socket not found: "@ + path,
        }),
        bus_of(path, BusProbe::Refused(e)) == (CheckModel {
            name: "bus"@,
            ok: false,
            detail: "agorabus socket not connectable: "@ + e@,
        }),
{
}

/// The bus is at the chosen path, or else below the runtime directory, which is
/// `/tmp` where none is given.
pub proof fn law_bus_path(chosen: Seq<char>, dir: Seq<char>, any: Option<Seq<char>>)
    requires
        dir.len() > 0,
        dir.last() != '/',
    ensures
        bus_path_of(Some(chosen), any) == chosen,
        bus_path_of(None, Some(dir)) == dir + "/agorabus/bus.sock"@,
        bus_path_of(None, None) == "/tmp/agorabus/bus.sock"@,
{
    reveal_strlit("/");
    reveal_strlit("/tmp");
    reveal_strlit("agorabus");
    reveal_strlit("bus.sock");
    reveal_strlit("/agorabus/bus.sock");
    reveal_strlit("/tmp/agorabus/bus.sock");
    lemma_join(dir, "agorabus"@);
    lemma_join(dir + "/"@ + "agorabus"@, "bus.sock"@);
    assert(dir + "/"@ + "agorabus"@ + "/"@ + "bus.sock"@ == dir + "/agorabus/bus.sock"@);
    lemma_join("/tmp"@, "agorabus"@);
    lemma_join("/tmp"@ + "/"@ + "agorabus"@, "bus.sock"@);
    assert("/tmp"@ + "/"@ + "agorabus"@ + "/"@ + "bus.sock"@ == "/tmp/agorabus/bus.sock"@);
}

proof fn lemma_join(base: Seq<char>, rel: Seq<char>)
    requires
        base.len() > 0,
        base.last() != '/',
        rel.len() > 0,
        rel[0] != '/',
    ensures
        join_of(base, rel) == base + "/"@ + rel,
{
    reveal_strlit("/");
    if "/"@.is_prefix_of(rel) {
        assert(rel.subrange(0, 1)[0] == rel[0]);
    }
    if "/"@.is_suffix_of(base) {
        assert(base.subrange(base.len() - 1, base.len() as int)[0] == base.last());
    }
}

/// A program is found in the first directory of the search path that has it; the
/// directories are what stands between colons.
pub proof fn law_first_directory_with_the_program<F: Fn(&str) -> bool>(
    is_file: F,
    path_env: Seq<char>,
    name: Seq<char>,
    found: Option<Seq<char>>,
)
    requires
        searches(is_file, search_dirs(Some(path_env)), name, found),
    ensures
        search_dirs(Some(path_env)) == split_of(path_env, ':'),
        search_dirs(None).len() == 0,
        match found {
            Some(path) => exists|i: int|
                {
                    &&& 0 <= i < split_of(path_env, ':').len()
                    &&& path == join_of(#[trigger] split_of(path_env, ':')[i], name)
                    &&& says_file(is_file, path, true)
                    &&& forall|j: int|
                        0 <= j < i ==> says_file(
                            is_file,
                            join_of(#[trigger] split_of(path_env, ':')[j], name),
                            false,
                        )
                },
            None => forall|j: int|
                0 <= j < split_of(path_env, ':').len() ==> says_file(
                    is_file,
                    join_of(#[trigger] split_of(path_env, ':')[j], name),
                    false,
                ),
        },
{
}

/// The programs that were not found are named, in the order of the fleet, and the
/// check fails exactly if there is one.
pub proof fn law_missing_programs_are_named(found: Seq<bool>, yes: bool, missing: Seq<Seq<char>>)
    requires
        found.len() < 5,
    ensures
        missing_of(found.push(yes)) == if yes {
            missing_of(found)
        } else {
            missing_of(found).push(CHILD_STARTUP_ORDER[found.len() as int]@)
        },
        missing_of(Seq::empty()).len() == 0,
        units_check_of(missing).name == "units"@,
        units_check_of(missing).ok <==> missing.len() == 0,
        missing.len() == 0 ==> units_check_of(missing).detail.len() == 0,
        missing.len() > 0 ==> units_check_of(missing).detail == "missing binaries: "@
            + crate::text::join_of(missing, ", "@),
        CHILD_STARTUP_ORDER[0]@ == "wm-audio"@,
        CHILD_STARTUP_ORDER[1]@ == "wm-tts"@,
        CHILD_STARTUP_ORDER[2]@ == "wm-stt"@,
        CHILD_STARTUP_ORDER[3]@ == "wm-dialog"@,
        CHILD_STARTUP_ORDER[4]@ == "wmd"@,
{
    assert(found.push(yes).drop_last() == found);
}

/// The checks are made in this order, each of them on what its own source says.
pub proof fn law_checks_ask_their_sources<
    R: Fn(&str) -> FileRead,
    C: Fn(&str, &[&str]) -> (String, bool),
    P: Fn(&str) -> BusProbe,
    F: Fn(&str) -> bool,
>(env: ReadyEnv, read: R, run: C, connect: P, is_file: F, cs: Seq<CheckModel>)
    requires
        all_checked(env, read, run, connect, is_file, cs),
    ensures
        cs.len() == 5,
        cs[0].name == "brain"@ && cs[1].name == "target"@ && cs[2].name == "audio"@,
        cs[3].name == "bus"@ && cs[4].name == "units"@,
        exists|got: FileRead| #[trigger]
            reads(read, env_path_of(None, text_opt(env.bootstrap_env)), got) && cs[0] == brain_of(
                env_path_of(None, text_opt(env.bootstrap_env)),
                got@,
            ),
        target_args() == seq!["is-active"@, "--quiet"@, "wintermute.target"@],
        audio_args("sources"@) == seq!["list"@, "short"@, "sources"@],
        audio_args("sinks"@) == seq!["list"@, "short"@, "sinks"@],
        exists|out: (String, bool)| #[trigger]
            runs(run, "systemctl"@, target_args(), out)
                && cs[1] == target_of(out.0@, out.1),
        exists|sources: (String, bool), sinks: (String, bool)|
            {
                &&& #[trigger] runs(run, "pactl"@, audio_args("sources"@), sources)
                &&& #[trigger] runs(run, "pactl"@, audio_args("sinks"@), sinks)
                &&& cs[2] == audio_of(sources.0@, sources.1, sinks.0@, sinks.1)
            },
        exists|probe: BusProbe| #[trigger]
            connects(connect, bus_path_of(None, text_opt(env.runtime_dir)), probe) && cs[3]
                == bus_of(bus_path_of(None, text_opt(env.runtime_dir)), probe),
        units_checked(is_file, search_dirs(text_opt(env.path)), cs[4]),
{
}

/// The units check passes exactly if every program of the fleet was found, and
/// names those that were not, in the order of the fleet.
pub proof fn law_units_need_every_program<F: Fn(&str) -> bool>(
    is_file: F,
    dirs: Seq<Seq<char>>,
    c: CheckModel,
) -> (found: Seq<bool>)
    requires
        units_checked(is_file, dirs, c),
    ensures
        found.len() == 5,
        forall|i: int|
            0 <= i < 5 ==> exists|path: Option<Seq<char>>| #[trigger]
                searches(is_file, dirs, CHILD_STARTUP_ORDER[i]@, path) && #[trigger] found[i] == (
                path is Some),
        c == units_check_of(missing_of(found)),
        c.ok <==> found[0] && found[1] && found[2] && found[3] && found[4],
{
    let found = choose|found: Seq<bool>|
        {
            &&& #[trigger] all_search(is_file, dirs, found)
            &&& found.len() == 5
            &&& c == units_check_of(missing_of(found))
        };
    assert forall|i: int| 0 <= i < 5 implies exists|path: Option<Seq<char>>| #[trigger]
        searches(is_file, dirs, CHILD_STARTUP_ORDER[i]@, path) && #[trigger] found[i] == (
        path is Some) by {
        assert(search_ends(is_file, dirs, CHILD_STARTUP_ORDER[i]@, found[i]));
    }
    reveal_with_fuel(missing_of, 6);
    let f4 = found.drop_last();
    let f3 = f4.drop_last();
    let f2 = f3.drop_last();
    let f1 = f2.drop_last();
    assert(f1.drop_last().len() == 0);
    assert(missing_of(f1.drop_last()).len() == 0);
    assert(missing_of(f1).len() == 0 <==> found[0]);
    assert(missing_of(f2).len() == 0 <==> found[0] && found[1]);
    assert(missing_of(f3).len() == 0 <==> found[0] && found[1] && found[2]);
    assert(missing_of(f4).len() == 0 <==> found[0] && found[1] && found[2] && found[3]);
    found
}

/// The reason that is given is the gravest of the failed checks: the brain goes
/// before the target, that before the bus, audio and the units; and every reason has
/// its own phrase.
pub proof fn law_gravest_failure_is_the_reason(checks: Seq<CheckModel>)
    ensures
        worst_of(checks) is None <==> forall|i: int|
            0 <= i < checks.len() ==> (#[trigger] checks[i]).ok,
        fails_named(checks, "brain"@) ==> worst_of(checks) == Some("brain"@),
        !fails_named(checks, "brain"@) && fails_named(checks, "target"@) ==> worst_of(checks)
            == Some("target"@),
        !fails_named(checks, "brain"@) && !fails_named(checks, "target"@) && fails_named(
            checks,
            "bus"@,
        ) ==> worst_of(checks) == Some("bus"@),
        !fails_named(checks, "brain"@) && !fails_named(checks, "target"@) && !fails_named(
            checks,
            "bus"@,
        ) && fails_named(checks, "audio"@) ==> worst_of(checks) == Some("audio"@),
        !fails_named(checks, "brain"@) && !fails_named(checks, "target"@) && !fails_named(
            checks,
            "bus"@,
        ) && !fails_named(checks, "audio"@) && fails_named(checks, "units"@) ==> worst_of(checks)
            == Some("units"@),
        phrase_for("brain"@) == "Wintermute is up, but it can't reach its brain."@,
        phrase_for("target"@) == "Wintermute has not fully started yet."@,
        phrase_for("audio"@) == "Wintermute can't hear — its microphone or speaker is missing."@,
        phrase_for("bus"@) == "Wintermute can't reach its message bus."@,
        phrase_for("units"@) == "One or more of Wintermute's programs are missing."@,
{
    assert(CHECK_PRIORITY[0]@ == "brain"@);
    assert(CHECK_PRIORITY[1]@ == "target"@);
    assert(CHECK_PRIORITY[2]@ == "bus"@);
    assert(CHECK_PRIORITY[3]@ == "audio"@);
    assert(CHECK_PRIORITY[4]@ == "units"@);
    reveal_with_fuel(worst_from, 6);
    reveal_strlit("brain");
    reveal_strlit("target");
    reveal_strlit("audio");
    reveal_strlit("bus");
    reveal_strlit("units");
    assert("brain"@.len() == 5 && "brain"@[0] == 'b');
    assert("target"@.len() == 6);
    assert("audio"@.len() == 5 && "audio"@[0] == 'a');
    assert("bus"@.len() == 3);
    assert("units"@.len() == 5 && "units"@[0] == 'u');
}

/// Where no known check failed, the first that did is the reason.
pub proof fn law_first_unknown_failure_is_the_reason(
    before: Seq<CheckModel>,
    c: CheckModel,
    behind: Seq<CheckModel>,
)
    requires
        all_passed(before),
        !c.ok,
        ({
            let checks = before.push(c) + behind;
            !fails_named(checks, "brain"@) && !fails_named(checks, "target"@) && !fails_named(
                checks,
                "bus"@,
            ) && !fails_named(checks, "audio"@) && !fails_named(checks, "units"@)
        }),
    ensures
        worst_of(before.push(c) + behind) == Some(c.name),
{
    let checks = before.push(c) + behind;
    assert(checks[before.len() as int] == c);
    reveal_with_fuel(worst_from, 6);
    assert(CHECK_PRIORITY[0]@ == "brain"@);
    assert(CHECK_PRIORITY[1]@ == "target"@);
    assert(CHECK_PRIORITY[2]@ == "bus"@);
    assert(CHECK_PRIORITY[3]@ == "audio"@);
    assert(CHECK_PRIORITY[4]@ == "units"@);
    lemma_first_failed(before, c, behind);
}

proof fn lemma_first_failed(before: Seq<CheckModel>, c: CheckModel, behind: Seq<CheckModel>)
    requires
        all_passed(before),
        !c.ok,
    ensures
        first_failed(before.push(c) + behind) == before.len(),
    decreases before.len(),
{
    let checks = before.push(c) + behind;
    if before.len() > 0 {
        let rest = before.drop_first();
        assert(before[0].ok);
        assert forall|i: int| 0 <= i < rest.len() implies (#[trigger] rest[i]).ok by {
            assert(before[i + 1].ok);
        }
        lemma_first_failed(rest, c, behind);
        assert(checks[0] == before[0]);
        assert(checks.drop_first() == rest.push(c) + behind);
    } else {
        assert(checks[0] == c);
    }
}

/// A check that is none of the known ones gives the general phrase.
pub proof fn law_unknown_failure_has_the_general_phrase(check: Seq<char>)
    requires
        check != "brain"@,
        check != "target"@,
        check != "audio"@,
        check != "bus"@,
        check != "units"@,
    ensures
        phrase_for(check) == "Wintermute is not ready."@,
{
}

} // verus!
