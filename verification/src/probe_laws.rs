//! What the doctor reads out of unit files and listings, and what it reports.

use crate::files::join_of;
use crate::doctor::{
    all_rows, managers_report, manager_reports, scope_reports, prints, unit_files_args, units_args,
    answers_for, stats, rows_of_manager, probes_as, any_pulls_in, discovers, exec_start_in,
    exec_start_of, expand_of, failing_of, home_for, listings, pulls_in, report_of, scope_flags,
    services_found, services_in, table_foot, table_head, table_of, uid_for, uid_in_line,
    uid_in_status, unit_line, unit_lines, units_of, user_for, wants_dirs_of, Asker, DoctorReport,
    DoctorScope, FileProbe, HostEnv, UnitAnswers, UnitModel, SERVICE_PATTERNS,
};
use crate::number::{decimal_of, is_u32, unsigned_digits, value_of};
use crate::order::ascending;
use crate::text::{
    is_space, lines_of, pad_right_of, repeat_of, replace_of, strs, texts, trim_of, words_of,
};
use crate::text_laws::{
    blank, law_lines_are_those_of_the_text, law_prefix_is_stripped, law_trim_start_takes_the_set,
    law_trim_takes_the_ends, law_words_stand_between_space, only, solid,
};
use vstd::prelude::*;

verus! {

// ---------------------------------------------------------------------------
// Unit files
// ---------------------------------------------------------------------------

/// The command of a line `ExecStart=` is its first word, whatever arguments
/// follow, without the flags `-`, `@`, `+` and `!` in front of it and whatever
/// white space is around the line.
pub proof fn law_exec_start_is_the_first_word(
    pre: Seq<char>,
    flags: Seq<char>,
    word: Seq<char>,
    args: Seq<char>,
    post: Seq<char>,
)
    requires
        blank(pre),
        blank(post),
        only(flags, seq!['-', '@', '+', '!']),
        solid(word),
        word.len() > 0,
        !seq!['-', '@', '+', '!'].contains(word[0]),
        args.len() > 0 ==> is_space(args[0]) && !is_space(args.last()),
    ensures
        exec_start_in(pre + ("ExecStart="@ + flags + word + args) + post) == Some(word),
        exec_start_in(pre + ("ExecStart="@ + flags) + post) is None,
{
    reveal_strlit("ExecStart=");
    let set = seq!['-', '@', '+', '!'];
    let body = "ExecStart="@ + flags + word + args;
    assert(body[0] == 'E');
    assert(!is_space(word[word.len() - 1]));
    assert(body.last() == if args.len() > 0 {
        args.last()
    } else {
        word.last()
    });
    law_trim_takes_the_ends(pre, body, post);
    assert(body == "ExecStart="@ + (flags + (word + args)));
    law_prefix_is_stripped("ExecStart="@, flags + (word + args), body);
    assert((word + args)[0] == word[0]);
    law_trim_start_takes_the_set(flags, word + args, set);
    let e = Seq::<char>::empty();
    law_words_stand_between_space(e, word, args);
    assert(e + word + args == word + args);
    let bare = "ExecStart="@ + flags;
    assert(bare[0] == 'E');
    assert(!is_space(bare.last())) by {
        if flags.len() > 0 {
            assert(set.contains(flags[flags.len() - 1]));
            assert(bare.last() == flags.last());
            let k = set.index_of(flags.last());
            assert(set[k] == flags.last());
        }
    }
    law_trim_takes_the_ends(pre, bare, post);
    law_prefix_is_stripped("ExecStart="@, flags, bare);
    law_trim_start_takes_the_set(flags, e, set);
    assert(flags + e == flags);
}

/// A line that does not begin with `ExecStart=` behind white space starts
/// nothing.
pub proof fn law_other_lines_start_nothing(line: Seq<char>)
    requires
        !"ExecStart="@.is_prefix_of(trim_of(line)),
    ensures
        exec_start_in(line) is None,
{
}

/// The first line that starts something says what a unit starts.
pub proof fn law_first_exec_start_counts(line: Seq<char>, rest: Seq<char>)
    requires
        !line.contains('\n'),
        line.len() > 0 ==> line.last() != '\r',
    ensures
        exec_start_of(lines_of(line.push('\n') + rest)) == match exec_start_in(line) {
            Some(word) => Some(word),
            None => exec_start_of(lines_of(rest)),
        },
        line.len() > 0 ==> exec_start_of(lines_of(line)) == exec_start_in(line),
        exec_start_of(lines_of(Seq::empty())) is None,
{
    law_lines_are_those_of_the_text(line, rest);
    let all = seq![line] + lines_of(rest);
    assert(all[0] == line);
    assert(all.drop_first() == lines_of(rest));
    if line.len() > 0 {
        assert(seq![line].drop_first() == Seq::<Seq<char>>::empty());
        assert(exec_start_of(seq![line].drop_first()) is None);
    }
}

/// A unit is pulled in by a line exactly if it is one of the words behind `Wants=`
/// or `Requires=`, which stand at the beginning of the line but for white space.
pub proof fn law_pulled_in_by_wants_or_requires(
    pre: Seq<char>,
    list: Seq<char>,
    post: Seq<char>,
    unit: Seq<char>,
    line: Seq<char>,
)
    requires
        blank(pre),
        blank(post),
        list.len() > 0,
        !is_space(list.last()),
    ensures
        pulls_in(pre + ("Wants="@ + list) + post, unit) == words_of(list).contains(unit),
        pulls_in(pre + ("Requires="@ + list) + post, unit) == words_of(list).contains(unit),
        !"Wants="@.is_prefix_of(trim_of(line)) && !"Requires="@.is_prefix_of(trim_of(line))
            ==> !pulls_in(line, unit),
{
    reveal_strlit("Wants=");
    reveal_strlit("Requires=");
    let w = "Wants="@ + list;
    let r = "Requires="@ + list;
    assert(w[0] == 'W' && w.last() == list.last());
    assert(r[0] == 'R' && r.last() == list.last());
    law_trim_takes_the_ends(pre, w, post);
    law_trim_takes_the_ends(pre, r, post);
    law_prefix_is_stripped("Wants="@, list, w);
    law_prefix_is_stripped("Requires="@, list, r);
    assert(!"Wants="@.is_prefix_of(r)) by {
        if "Wants="@.is_prefix_of(r) {
            assert(r.subrange(0, 6)[0] == r[0]);
        }
    }
}

// ---------------------------------------------------------------------------
// Listings
// ---------------------------------------------------------------------------

/// Whether `name` is a service that heads one of the lines.
pub open spec fn heads_a_line(ls: Seq<Seq<char>>, name: Seq<char>) -> bool {
    ".service"@.is_suffix_of(name) && exists|i: int|
        0 <= i < ls.len() && words_of(#[trigger] ls[i]).len() > 0 && words_of(ls[i])[0] == name
}

/// The services of a listing are the first words of its lines that end in
/// `.service`.
pub proof fn law_services_head_their_lines(ls: Seq<Seq<char>>, name: Seq<char>)
    ensures
        services_in(ls).contains(name) <==> heads_a_line(ls, name),
    decreases ls.len(),
{
    if ls.len() > 0 {
        let rest = ls.drop_last();
        law_services_head_their_lines(rest, name);
        if heads_a_line(rest, name) {
            let i = choose|i: int|
                0 <= i < rest.len() && words_of(#[trigger] rest[i]).len() > 0 && words_of(
                    rest[i],
                )[0] == name;
            assert(ls[i] == rest[i]);
        }
        if heads_a_line(ls, name) {
            let i = choose|i: int|
                0 <= i < ls.len() && words_of(#[trigger] ls[i]).len() > 0 && words_of(ls[i])[0]
                    == name;
            if i < rest.len() {
                assert(rest[i] == ls[i]);
            }
        }
        if words_of(ls.last()).len() > 0 && words_of(ls.last())[0] == name {
            assert(ls[ls.len() - 1] == ls.last());
        }
    }
}

/// What the manager is asked for, and what is found: every service that heads a
/// line of the listings of `wm-*.service`, `wmd.service` and `wmd-init.service`,
/// be it of the installed or of the loaded units, once and in order.
pub proof fn law_discovery_finds_every_listed_service<R: Fn(&str, &[&str]) -> (String, bool)>(
    run: R,
    flag: Seq<char>,
    names: Seq<Seq<char>>,
    name: Seq<char>,
) -> (printed: (Seq<Seq<char>>, Seq<Seq<char>>))
    requires
        discovers(run, flag, names),
    ensures
        SERVICE_PATTERNS[0]@ == "wm-*.service"@,
        SERVICE_PATTERNS[1]@ == "wmd.service"@,
        SERVICE_PATTERNS[2]@ == "wmd-init.service"@,
        printed.0.len() == 3 && printed.1.len() == 3,
        forall|i: int|
            0 <= i < 3 ==> says(
                run,
                seq![
                    flag,
                    "list-unit-files"@,
                    "--plain"@,
                    "--no-legend"@,
                    SERVICE_PATTERNS[i]@,
                ],
                #[trigger] printed.0[i],
            ),
        forall|i: int|
            0 <= i < 3 ==> says(
                run,
                seq![
                    flag,
                    "list-units"@,
                    "--plain"@,
                    "--no-legend"@,
                    "--all"@,
                    SERVICE_PATTERNS[i]@,
                ],
                #[trigger] printed.1[i],
            ),
        ascending(names),
        names.contains(name) <==> exists|i: int|
            0 <= i < 3 && (heads_a_line(lines_of(#[trigger] printed.0[i]), name) || heads_a_line(
                lines_of(printed.1[i]),
                name,
            )),
{
    let (files, loaded) = choose|files: Seq<Seq<char>>, loaded: Seq<Seq<char>>|
        {
            &&& #[trigger] listings(run, flag, files, loaded)
            &&& files.len() == 3
            &&& ascending(names)
            &&& names.to_set() == services_found(files, loaded, 3)
        };
    assert(names.to_set().contains(name) == names.contains(name));
    assert forall|i: int| 0 <= i < 3 implies says(
        run,
        seq![flag, "list-unit-files"@, "--plain"@, "--no-legend"@, SERVICE_PATTERNS[i]@],
        #[trigger] files[i],
    ) by {
        assert(prints(run, unit_files_args(flag, SERVICE_PATTERNS[i]@), files[i]));
    }
    assert forall|i: int| 0 <= i < 3 implies says(
        run,
        seq![flag, "list-units"@, "--plain"@, "--no-legend"@, "--all"@, SERVICE_PATTERNS[i]@],
        #[trigger] loaded[i],
    ) by {
        assert(prints(run, units_args(flag, SERVICE_PATTERNS[i]@), loaded[i]));
    }
    reveal_with_fuel(services_found, 4);
    assert(services_found(files, loaded, 3).contains(name) <==> exists|i: int|
        0 <= i < 3 && (services_in(lines_of(#[trigger] files[i])).contains(name) || services_in(
            lines_of(loaded[i]),
        ).contains(name))) by {
        assert(services_found(files, loaded, 0) == Set::<Seq<char>>::empty());
        let a = files[0];
        let b = files[1];
        let c = files[2];
        if exists|i: int|
            0 <= i < 3 && (services_in(lines_of(#[trigger] files[i])).contains(name)
                || services_in(lines_of(loaded[i])).contains(name)) {
            let i = choose|i: int|
                0 <= i < 3 && (services_in(lines_of(#[trigger] files[i])).contains(name)
                    || services_in(lines_of(loaded[i])).contains(name));
            assert(i == 0 || i == 1 || i == 2);
        }
    }
    assert forall|i: int| 0 <= i < 3 implies (services_in(lines_of(#[trigger] files[i])).contains(
        name,
    ) <==> heads_a_line(lines_of(files[i]), name)) && (services_in(lines_of(loaded[i])).contains(
        name,
    ) <==> heads_a_line(lines_of(loaded[i]), name)) by {
        law_services_head_their_lines(lines_of(files[i]), name);
        law_services_head_their_lines(lines_of(loaded[i]), name);
    }
    (files, loaded)
}

// ---------------------------------------------------------------------------
// Specifiers
// ---------------------------------------------------------------------------

/// A pattern that begins with a percent sign is not met in text without one.
proof fn lemma_replace_behind(p: Seq<char>, s: Seq<char>, pat: Seq<char>, with: Seq<char>)
    requires
        pat.len() > 0,
        !p.contains(pat[0]),
    ensures
        replace_of(p + s, pat, with) == p + replace_of(s, pat, with),
    decreases p.len(),
{
    if p.len() == 0 {
        assert(p + s == s);
        assert(p + replace_of(s, pat, with) == replace_of(s, pat, with));
    } else {
        let t = p + s;
        assert(p.contains(p[0]));
        assert(!pat.is_prefix_of(t)) by {
            if pat.is_prefix_of(t) {
                assert(t.subrange(0, pat.len() as int)[0] == t[0]);
            }
        }
        let q = p.drop_first();
        assert(!q.contains(pat[0])) by {
            if q.contains(pat[0]) {
                let i = q.index_of(pat[0]);
                assert(p[i + 1] == pat[0]);
            }
        }
        lemma_replace_behind(q, s, pat, with);
        assert(t.drop_first() == q + s);
        assert(p == seq![t[0]] + q);
        assert(p + replace_of(s, pat, with) == seq![t[0]] + (q + replace_of(s, pat, with)));
    }
}

/// A pattern of two characters is met where it stands.
proof fn lemma_replace_here(s: Seq<char>, pat: Seq<char>, with: Seq<char>)
    requires
        pat.len() > 0,
    ensures
        replace_of(pat + s, pat, with) == with + replace_of(s, pat, with),
{
    assert((pat + s).subrange(0, pat.len() as int) == pat);
    assert((pat + s).skip(pat.len() as int) == s);
}

/// Another specifier is passed over.
proof fn lemma_replace_other(c: char, s: Seq<char>, pat: Seq<char>, with: Seq<char>)
    requires
        pat.len() == 2,
        pat[0] == '%',
        pat[1] != c,
        c != '%',
    ensures
        replace_of(seq!['%', c] + s, pat, with) == seq!['%', c] + replace_of(s, pat, with),
{
    let t = seq!['%', c] + s;
    assert(!pat.is_prefix_of(t)) by {
        if pat.is_prefix_of(t) {
            assert(t.subrange(0, 2)[1] == t[1]);
        }
    }
    let one = seq![c];
    assert(t.drop_first() == one + s);
    assert(!one.contains('%'));
    lemma_replace_behind(one, s, pat, with);
    assert(seq!['%', c] + replace_of(s, pat, with) == seq!['%'] + (one + replace_of(s, pat, with)));
}

/// Specifiers are expanded one by one: in the place of `%h` stands the home
/// directory, of `%u` the user, of `%U` the user id; any other specifier stays,
/// and so does all text between them.
pub proof fn law_specifiers_are_expanded_in_place(
    a: Seq<char>,
    c: char,
    rest: Seq<char>,
    home: Seq<char>,
    user: Seq<char>,
    uid: nat,
)
    requires
        !a.contains('%'),
        !home.contains('%'),
        !user.contains('%'),
    ensures
        expand_of(a + seq!['%', 'h'] + rest, home, user, uid) == a + home + expand_of(
            rest,
            home,
            user,
            uid,
        ),
        expand_of(a + seq!['%', 'u'] + rest, home, user, uid) == a + user + expand_of(
            rest,
            home,
            user,
            uid,
        ),
        expand_of(a + seq!['%', 'U'] + rest, home, user, uid) == a + decimal_of(uid) + expand_of(
            rest,
            home,
            user,
            uid,
        ),
        c != 'h' && c != 'u' && c != 'U' && c != '%' ==> expand_of(
            a + seq!['%', c] + rest,
            home,
            user,
            uid,
        ) == a + seq!['%', c] + expand_of(rest, home, user, uid),
        expand_of(a, home, user, uid) == a,
{
    reveal_strlit("%h");
    reveal_strlit("%u");
    reveal_strlit("%U");
    let h = "%h"@;
    let u = "%u"@;
    let n = "%U"@;
    let id = decimal_of(uid);
    assert(h == seq!['%', 'h'] && u == seq!['%', 'u'] && n == seq!['%', 'U']);
    let r1 = replace_of(rest, h, home);
    let r2 = replace_of(r1, u, user);
    let r3 = replace_of(r2, n, id);
    assert(r3 == expand_of(rest, home, user, uid));
    // `%h`
    assert(a + h + rest == a + (h + rest));
    lemma_replace_behind(a, h + rest, h, home);
    lemma_replace_here(rest, h, home);
    lemma_replace_behind(a, home + r1, u, user);
    lemma_replace_behind(home, r1, u, user);
    lemma_replace_behind(a, home + r2, n, id);
    lemma_replace_behind(home, r2, n, id);
    assert(a + (home + r3) == a + home + r3);
    // `%u`
    assert(a + u + rest == a + (u + rest));
    lemma_replace_behind(a, u + rest, h, home);
    lemma_replace_other('u', rest, h, home);
    lemma_replace_behind(a, u + r1, u, user);
    lemma_replace_here(r1, u, user);
    lemma_replace_behind(a, user + r2, n, id);
    lemma_replace_behind(user, r2, n, id);
    assert(a + (user + r3) == a + user + r3);
    // `%U`
    assert(a + n + rest == a + (n + rest));
    lemma_replace_behind(a, n + rest, h, home);
    lemma_replace_other('U', rest, h, home);
    lemma_replace_behind(a, n + r1, u, user);
    lemma_replace_other('U', r1, u, user);
    lemma_replace_behind(a, n + r2, n, id);
    lemma_replace_here(r2, n, id);
    assert(a + (id + r3) == a + id + r3);
    if c != 'h' && c != 'u' && c != 'U' && c != '%' {
        let s = seq!['%', c];
        assert(a + s + rest == a + (s + rest));
        lemma_replace_behind(a, s + rest, h, home);
        lemma_replace_other(c, rest, h, home);
        lemma_replace_behind(a, s + r1, u, user);
        lemma_replace_other(c, r1, u, user);
        lemma_replace_behind(a, s + r2, n, id);
        lemma_replace_other(c, r2, n, id);
        assert(a + (s + r3) == a + s + r3);
    }
    let e = Seq::<char>::empty();
    assert(a + e == a);
    lemma_replace_behind(a, e, h, home);
    lemma_replace_behind(a, e, u, user);
    lemma_replace_behind(a, e, n, id);
}

/// What is chosen goes before what the host says, and that before the usual: the
/// home `/root` and the user `root`.
pub proof fn law_choices_go_before_the_host(
    home: Seq<char>,
    user: Seq<char>,
    uid: u32,
    host: HostEnv,
)
    ensures
        home_for(Some(home), host) == home,
        user_for(Some(user), host) == user,
        uid_for(Some(uid), host) == uid,
        host.home matches Some(h) ==> home_for(None, host) == h@,
        host.user matches Some(u) ==> user_for(None, host) == u@,
        host.home is None ==> home_for(None, host) == "/root"@,
        host.user is None ==> user_for(None, host) == "root"@,
        host.uid is Some && is_u32(host.uid->0@) ==> uid_for(None, host) == value_of(
            unsigned_digits(host.uid->0@),
        ),
        !(host.uid is Some && is_u32(host.uid->0@)) && host.proc_status is Some ==> uid_for(
            None,
            host,
        ) == uid_in_status(lines_of(host.proc_status->0@)),
        !(host.uid is Some && is_u32(host.uid->0@)) && host.proc_status is None ==> uid_for(
            None,
            host,
        ) == 0,
{
}

/// The user id of a process is the first number behind `Uid:` of the first line
/// that has one.
pub proof fn law_uid_is_the_first_number(
    gap: Seq<char>,
    digits: Seq<char>,
    more: Seq<char>,
    line: Seq<char>,
    rest: Seq<char>,
)
    requires
        blank(gap),
        solid(digits),
        is_u32(digits),
        more.len() > 0 ==> is_space(more[0]),
        !line.contains('\n'),
        line.len() > 0 ==> line.last() != '\r',
    ensures
        uid_in_line("Uid:"@ + gap + digits + more) == Some(value_of(unsigned_digits(digits))),
        !"Uid:"@.is_prefix_of(line) ==> uid_in_line(line) is None,
        uid_in_line("Uid:"@ + gap) is None,
        uid_in_status(lines_of(line.push('\n') + rest)) == match uid_in_line(line) {
            Some(uid) => uid,
            None => uid_in_status(lines_of(rest)),
        },
        uid_in_status(Seq::empty()) == 0,
{
    law_prefix_is_stripped("Uid:"@, gap, gap);
    let tail = gap + digits + more;
    assert("Uid:"@ + gap + digits + more == "Uid:"@ + tail);
    law_prefix_is_stripped("Uid:"@, tail, tail);
    assert(digits.len() > 0);
    law_words_stand_between_space(gap, digits, more);
    law_lines_are_those_of_the_text(line, rest);
    let all = seq![line] + lines_of(rest);
    assert(all[0] == line);
    assert(all.drop_first() == lines_of(rest));
}

/// A line `Uid:` whose first word is no number gives no user id, whatever follows.
pub proof fn law_uid_must_be_a_number(gap: Seq<char>, word: Seq<char>, more: Seq<char>)
    requires
        blank(gap),
        solid(word),
        word.len() > 0,
        !is_u32(word),
        more.len() > 0 ==> is_space(more[0]),
    ensures
        uid_in_line("Uid:"@ + gap + word + more) is None,
{
    let tail = gap + word + more;
    assert("Uid:"@ + gap + word + more == "Uid:"@ + tail);
    law_prefix_is_stripped("Uid:"@, tail, tail);
    law_words_stand_between_space(gap, word, more);
}

/// A percent sign that begins no specifier stays: one at the end, and two in a
/// row.
pub proof fn law_lone_percent_stays(
    a: Seq<char>,
    x: char,
    rest: Seq<char>,
    home: Seq<char>,
    user: Seq<char>,
    uid: nat,
)
    requires
        !a.contains('%'),
        !home.contains('%'),
        !user.contains('%'),
        x != 'h' && x != 'u' && x != 'U' && x != '%',
    ensures
        expand_of(a.push('%'), home, user, uid) == a.push('%'),
        expand_of(a + seq!['%', '%', x] + rest, home, user, uid) == a + seq!['%', '%', x]
            + expand_of(rest, home, user, uid),
{
    reveal_strlit("%h");
    reveal_strlit("%u");
    reveal_strlit("%U");
    let id = decimal_of(uid);
    let e = Seq::<char>::empty();
    lemma_replace_last(a, "%h"@, home);
    lemma_replace_last(a, "%u"@, user);
    lemma_replace_last(a, "%U"@, id);
    let two = seq!['%', '%', x];
    let r1 = replace_of(rest, "%h"@, home);
    let r2 = replace_of(r1, "%u"@, user);
    assert(a + two + rest == a + (two + rest));
    lemma_replace_two(a, x, rest, "%h"@, home);
    assert(a + two + r1 == a + (two + r1));
    lemma_replace_two(a, x, r1, "%u"@, user);
    assert(a + two + r2 == a + (two + r2));
    lemma_replace_two(a, x, r2, "%U"@, id);
}

proof fn lemma_replace_last(a: Seq<char>, pat: Seq<char>, with: Seq<char>)
    requires
        pat.len() == 2,
        pat[0] == '%',
        !a.contains('%'),
    ensures
        replace_of(a.push('%'), pat, with) == a.push('%'),
{
    let one = seq!['%'];
    assert(a.push('%') == a + one);
    lemma_replace_behind(a, one, pat, with);
    assert(one.drop_first() == Seq::<char>::empty());
    assert(replace_of(one.drop_first(), pat, with) == Seq::<char>::empty());
    assert(replace_of(one, pat, with) == one);
}

proof fn lemma_replace_two(
    a: Seq<char>,
    x: char,
    s: Seq<char>,
    pat: Seq<char>,
    with: Seq<char>,
)
    requires
        pat.len() == 2,
        pat[0] == '%',
        pat[1] != x,
        pat[1] != '%',
        x != '%',
        !a.contains('%'),
    ensures
        replace_of(a + (seq!['%', '%', x] + s), pat, with) == a + seq!['%', '%', x] + replace_of(
            s,
            pat,
            with,
        ),
{
    let two = seq!['%', '%', x];
    let t = two + s;
    lemma_replace_behind(a, t, pat, with);
    assert(!pat.is_prefix_of(t)) by {
        if pat.is_prefix_of(t) {
            assert(t.subrange(0, 2)[1] == t[1]);
        }
    }
    assert(t.drop_first() == seq!['%', x] + s);
    lemma_replace_other(x, s, pat, with);
    assert(replace_of(t, pat, with) == seq!['%'] + (seq!['%', x] + replace_of(s, pat, with)));
    assert(seq!['%'] + (seq!['%', x] + replace_of(s, pat, with)) == two + replace_of(s, pat, with));
    assert(a + (two + replace_of(s, pat, with)) == a + two + replace_of(s, pat, with));
}

// ---------------------------------------------------------------------------
// Reports
// ---------------------------------------------------------------------------

/// What a row says of a unit. A unit that starts nothing has no binary; of
/// another the command is expanded, and its binary exists if something is there,
/// and is executable if any execute bit is set. It is in the target if the
/// target's unit file pulls it in or it is linked there.
pub proof fn law_report_says_what_was_answered(
    asker: Asker,
    unit: Seq<char>,
    answers: UnitAnswers,
)
    ensures
        ({
            let r = report_of(asker, unit, answers);
            &&& r.unit == unit
            &&& r.enabled == trim_of(answers.enabled@)
            &&& r.active == trim_of(answers.active@)
            &&& r.in_target == (any_pulls_in(lines_of(asker.target_cat), unit) || answers.linked)
            &&& asker.flag == "--user"@ ==> r.scope == "user"@
            &&& asker.flag != "--user"@ ==> r.scope == "system"@
            &&& match exec_start_of(lines_of(answers.cat@)) {
                Some(word) if word.len() > 0 => r.exec_start == word && r.resolved == expand_of(
                    word,
                    asker.home,
                    asker.user,
                    asker.uid,
                ),
                _ => r.exec_start.len() == 0 && r.resolved.len() == 0,
            }
            &&& r.exists == (r.resolved.len() > 0 && answers.binary != FileProbe::Missing)
            &&& r.executable ==> r.exists
            &&& r.resolved.len() > 0 ==> (answers.binary matches FileProbe::Mode(mode) ==> (
            r.executable <==> mode & 0o100 != 0 || mode & 0o010 != 0 || mode & 0o001 != 0))
            &&& answers.binary is Unreadable ==> !r.executable
        }),
{
    if let FileProbe::Mode(mode) = answers.binary {
        crate::doctor::law_any_execute_bit_counts(mode);
    }
}

/// What the manager and the host are asked about a unit: its unit file, whether it
/// is enabled and whether it is active; what is at the resolved path, if it starts
/// something; and, where the target does not pull it in, whether it is linked in
/// one of the places for that.
pub proof fn law_unit_is_asked_about_by_name<
    R: Fn(&str, &[&str]) -> (String, bool),
    F: Fn(&str) -> FileProbe,
>(run: R, stat: F, host: HostEnv, asker: Asker, unit: Seq<char>, answers: UnitAnswers, i: int)
    requires
        answers_for(run, stat, host, asker, unit, answers),
    ensures
        says(run, seq![asker.flag, "cat"@, unit], answers.cat@),
        says(run, seq![asker.flag, "is-enabled"@, unit], answers.enabled@),
        says(run, seq![asker.flag, "is-active"@, unit], answers.active@),
        report_of(asker, unit, answers).resolved.len() > 0 ==> shows(
            stat,
            report_of(asker, unit, answers).resolved,
            answers.binary,
        ),
        ({
            let dirs = wants_dirs_of(asker.flag, host.home);
            let asked = !any_pulls_in(lines_of(asker.target_cat), unit);
            &&& asked && !answers.linked && 0 <= i < dirs.len() ==> shows(
                stat,
                join_of(dirs[i], unit),
                FileProbe::Missing,
            )
            &&& asked && answers.linked ==> exists|k: int, probe: FileProbe|
                0 <= k < dirs.len() && #[trigger] shows(stat, join_of(dirs[k], unit), probe)
                    && probe != FileProbe::Missing
        }),
{
    let dirs = wants_dirs_of(asker.flag, host.home);
    if !any_pulls_in(lines_of(asker.target_cat), unit) {
        if answers.linked {
            let (k, probe) = choose|k: int, probe: FileProbe|
                0 <= k < dirs.len() && #[trigger] stats(stat, join_of(dirs[k], unit), probe)
                    && probe != FileProbe::Missing;
            assert(shows(stat, join_of(dirs[k], unit), probe));
        } else if 0 <= i < dirs.len() {
            assert(stats(stat, join_of(dirs[i], unit), FileProbe::Missing));
        }
    }
}

/// Whether the manager prints `text` for these arguments.
pub open spec fn says<R: Fn(&str, &[&str]) -> (String, bool)>(
    run: R,
    args: Seq<Seq<char>>,
    text: Seq<char>,
) -> bool {
    exists|c: &str, a: &[&str], out: (String, bool)|
        c@ == "systemctl"@ && strs(a@) == args && #[trigger] run.ensures((c, a), out) && out.0@
            == text
}

/// Whether looking at `path` gives `probe`.
pub open spec fn shows<F: Fn(&str) -> FileProbe>(
    stat: F,
    path: Seq<char>,
    probe: FileProbe,
) -> bool {
    exists|p: &str| p@ == path && #[trigger] stat.ensures((p,), probe)
}

/// A manager's rows are those of the services that it lists, in that order, each
/// probed with the unit file of the target that the same manager printed.
pub proof fn law_manager_reports_what_it_lists<
    R: Fn(&str, &[&str]) -> (String, bool),
    F: Fn(&str) -> FileProbe,
>(run: R, stat: F, host: HostEnv, asker: Asker, rows: Seq<UnitModel>) -> (names: Seq<Seq<char>>)
    requires
        rows_of_manager(run, stat, host, asker, rows),
    ensures
        says(run, seq![asker.flag, "cat"@, "wintermute.target"@], asker.target_cat),
        discovers(run, asker.flag, names),
        names.len() == rows.len(),
        forall|i: int|
            0 <= i < rows.len() ==> (#[trigger] rows[i]).unit == names[i] && exists|
                answers: UnitAnswers,
            | #[trigger]
                answers_for(run, stat, host, asker, names[i], answers) && rows[i] == report_of(
                    asker,
                    names[i],
                    answers,
                ),
{
    let names = choose|names: Seq<Seq<char>>| #[trigger]
        discovers(run, asker.flag, names) && names.len() == rows.len() && forall|i: int|
            0 <= i < rows.len() ==> probes_as(
                run,
                stat,
                host,
                asker,
                names[i],
                #[trigger] rows[i],
            );
    assert forall|i: int| 0 <= i < rows.len() implies (#[trigger] rows[i]).unit == names[i]
        && exists|answers: UnitAnswers| #[trigger]
        answers_for(run, stat, host, asker, names[i], answers) && rows[i] == report_of(
            asker,
            names[i],
            answers,
        ) by {
        assert(probes_as(run, stat, host, asker, names[i], rows[i]));
    }
    names
}

/// The failures are the units whose binary is missing or not executable, in the
/// order of the rows.
pub proof fn law_failures_follow_the_rows(units: Seq<UnitModel>, u: UnitModel)
    ensures
        failing_of(units.push(u)) == if u.exists && u.executable {
            failing_of(units)
        } else {
            failing_of(units).push(u.unit)
        },
        failing_of(Seq::empty()).len() == 0,
{
    assert(units.push(u).drop_last() == units);
}

/// The report of a scope is that of its managers, one behind the other, and each
/// of them is asked on behalf of the same home, user and id.
pub proof fn law_scope_reports_its_managers<
    R: Fn(&str, &[&str]) -> (String, bool),
    F: Fn(&str) -> FileProbe,
>(
    run: R,
    stat: F,
    host: HostEnv,
    home: Seq<char>,
    user: Seq<char>,
    uid: nat,
    scope: DoctorScope,
    units: Seq<UnitModel>,
) -> (rows: (Seq<UnitModel>, Seq<UnitModel>))
    requires
        scope_reports(run, stat, host, home, user, uid, scope, units),
    ensures
        units == rows.0 + rows.1,
        scope != DoctorScope::System ==> exists|asker: Asker| #[trigger]
            rows_of_manager(run, stat, host, asker, rows.0) && asker.flag == "--user"@
                && asker.home == home && asker.user == user && asker.uid == uid,
        scope != DoctorScope::User ==> exists|asker: Asker| #[trigger]
            rows_of_manager(run, stat, host, asker, rows.1) && asker.flag == "--system"@
                && asker.home == home && asker.user == user && asker.uid == uid,
        scope == DoctorScope::System ==> rows.0.len() == 0,
        scope == DoctorScope::User ==> rows.1.len() == 0,
{
    let flags = scope_flags(scope);
    let parts = choose|parts: Seq<Seq<UnitModel>>|
        {
            &&& #[trigger] managers_report(run, stat, host, home, user, uid, flags, parts)
            &&& parts.len() == flags.len()
            &&& units == all_rows(parts)
        };
    let e = Seq::<UnitModel>::empty();
    reveal_with_fuel(all_rows, 3);
    assert(manager_reports(run, stat, host, home, user, uid, flags[0], parts[0]));
    let a = choose|asker: Asker|
        asker.flag == flags[0] && asker.home == home && asker.user == user && asker.uid == uid
            && #[trigger] rows_of_manager(run, stat, host, asker, parts[0]);
    assert(rows_of_manager(run, stat, host, a, parts[0]) && a.flag == flags[0]);
    if scope == DoctorScope::Both {
        assert(manager_reports(run, stat, host, home, user, uid, flags[1], parts[1]));
        let b = choose|asker: Asker|
            asker.flag == flags[1] && asker.home == home && asker.user == user && asker.uid == uid
                && #[trigger] rows_of_manager(run, stat, host, asker, parts[1]);
        assert(rows_of_manager(run, stat, host, b, parts[1]) && b.flag == flags[1]);
        assert(parts.drop_last().drop_last().len() == 0);
        assert(all_rows(parts.drop_last().drop_last()) == e);
        assert(all_rows(parts.drop_last()) == e + parts[0]);
        assert(e + parts[0] == parts[0]);
        assert(a.flag == "--user"@);
        assert(b.flag == "--system"@);
        (parts[0], parts[1])
    } else {
        assert(all_rows(parts.drop_last()) == e);
        assert(e + parts[0] == parts[0]);
        assert(parts[0] + e == parts[0]);
        if scope == DoctorScope::User {
            assert(a.flag == "--user"@);
            assert(rows_of_manager(run, stat, host, a, (parts[0], e).0));
            (parts[0], e)
        } else {
            assert(a.flag == "--system"@);
            (e, parts[0])
        }
    }
}

/// Each scope asks its managers, the user's before the system's.
pub proof fn law_scopes_ask_their_managers()
    ensures
        scope_flags(DoctorScope::User) == seq!["--user"@],
        scope_flags(DoctorScope::System) == seq!["--system"@],
        scope_flags(DoctorScope::Both) == scope_flags(DoctorScope::User) + scope_flags(
            DoctorScope::System,
        ),
{
    assert(scope_flags(DoctorScope::Both) == scope_flags(DoctorScope::User) + scope_flags(
        DoctorScope::System,
    ));
}

/// Where a unit may be linked into the target: the places of the system for either
/// manager, and one in the home directory for the user's.
pub proof fn law_links_are_looked_up_in_the_managers_places(home: Option<String>, flag: Seq<char>)
    ensures
        flag == "--user"@ ==> wants_dirs_of(flag, home) == seq![
            "/etc/systemd/user/wintermute.target.wants"@,
            "/usr/lib/systemd/user/wintermute.target.wants"@,
            "/usr/local/lib/systemd/user/wintermute.target.wants"@,
            (if home is Some {
                home->0@
            } else {
                Seq::empty()
            }) + "/.config/systemd/user/wintermute.target.wants"@,
        ],
        flag != "--user"@ ==> wants_dirs_of(flag, home) == seq![
            "/etc/systemd/system/wintermute.target.wants"@,
            "/usr/lib/systemd/system/wintermute.target.wants"@,
        ],
{
}

/// The table has one line for each row, in order, with the unit, what is there,
/// whether it can be run, and the states; a quiet table has those of failing units
/// alone, and neither head nor foot.
pub proof fn law_table_has_a_line_for_each_row(
    units: Seq<UnitModel>,
    u: UnitModel,
    quiet: bool,
    report: DoctorReport,
)
    ensures
        unit_lines(units.push(u), quiet) == if quiet && u.exists && u.executable {
            unit_lines(units, quiet)
        } else {
            unit_lines(units, quiet) + unit_line(u)
        },
        unit_lines(Seq::empty(), quiet).len() == 0,
        unit_line(u) == pad_right_of(u.unit, 30) + "  "@ + pad_right_of(
            if u.exists {
                "YES"@
            } else {
                "MISSING"@
            },
            8,
        ) + "  "@ + pad_right_of(
            if !u.exists {
                "-"@
            } else if u.executable {
                "YES"@
            } else {
                "NO-EXEC"@
            },
            8,
        ) + "  "@ + pad_right_of(u.enabled, 9) + "  "@ + pad_right_of(u.active, 9) + "  "@
            + u.resolved + "\n"@,
        table_of(report, true) == unit_lines(units_of(report.units@), true),
        table_of(report, false) == table_head() + unit_lines(units_of(report.units@), false)
            + table_foot(report),
        table_head() == pad_right_of("UNIT"@, 30) + "  "@ + pad_right_of("EXISTS"@, 8) + "  "@
            + pad_right_of("EXEC"@, 8) + "  "@ + pad_right_of("ENABLED"@, 9) + "  "@ + pad_right_of(
            "ACTIVE"@,
            9,
        ) + "  "@ + "RESOLVED"@ + "\n"@ + Seq::new(100, |k: int| '-') + "\n"@,
        report.all_ok ==> table_foot(report) == "\n"@ + ("all "@ + decimal_of(report.units@.len())
            + " units OK\n"@),
        !report.all_ok ==> table_foot(report) == "\n"@ + (decimal_of(report.failures@.len())
            + " of "@ + decimal_of(report.units@.len())
            + " unit(s) have missing/non-executable binaries: "@ + crate::text::join_of(
            texts(report.failures@),
            ", "@,
        ) + "\n"@),
{
    assert(units.push(u).drop_last() == units);
    assert(repeat_of('-', 100) == Seq::new(100, |k: int| '-'));
}

} // verus!
