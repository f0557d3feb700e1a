//! What holds of the install convention.

use crate::files::join_of;
use crate::install_convention::{
    binary_name_of, command_of, fleet_line, installs, name_below, name_in_home, name_known,
    offence_in, offence_of, rewrite_all, rewrite_of, rewrite_unit_of, says_exists, InstallOp,
    KNOWN_PREFIXES,
};
use crate::line_laws::{
    as_read, ends_line, has_return, lemma_lines, lemma_lines_of_text, lemma_text_of_lines, text_of,
};
use crate::text::{
    after_prefix, drop_return, exactly, first_char, lemma_first_where, lemma_first_where_unique,
    lines_of, split_once_of,
};
use vstd::prelude::*;

verus! {

/// What follows a prefix, and what is made of a prefix and a rest.
proof fn lemma_after_prefix(s: Seq<char>, p: Seq<char>)
    ensures
        after_prefix(p + s, p) == Some(s),
        after_prefix(s, p) matches Some(rest) ==> s == p + rest,
{
    assert((p + s).subrange(0, p.len() as int) == p);
    assert((p + s).skip(p.len() as int) == s);
    if p.is_prefix_of(s) {
        assert(s == p + s.skip(p.len() as int));
    }
}

/// What the parts around a character are.
proof fn lemma_split_once(s: Seq<char>, c: char)
    ensures
        split_once_of(s, c) matches Some(parts) ==> s == parts.0 + seq![c] + parts.1
            && !parts.0.contains(c),
        split_once_of(s, c) is None ==> !s.contains(c),
{
    lemma_first_where(s, exactly(c));
    let k = first_char(s, c);
    if k < s.len() {
        assert(s == s.take(k as int) + seq![c] + s.skip(k as int + 1));
        if s.take(k as int).contains(c) {
            let i = s.take(k as int).index_of(c);
            assert(!exactly(c)(s[i]));
        }
    } else if s.contains(c) {
        let i = s.index_of(c);
        assert(!exactly(c)(s[i]));
    }
}

/// A text is split at the first of a character.
proof fn lemma_split_at(a: Seq<char>, c: char, b: Seq<char>)
    requires
        !a.contains(c),
    ensures
        split_once_of(a + seq![c] + b, c) == Some((a, b)),
{
    let s = a + seq![c] + b;
    let k = a.len();
    assert forall|i: int| 0 <= i < k implies !exactly(c)(#[trigger] s[i]) by {
        assert(a.contains(a[i]));
    }
    assert(s[k as int] == c);
    lemma_first_where_unique(s, exactly(c), k);
    assert(s.take(k as int) == a);
    assert(s.skip(k as int + 1) == b);
}

/// A text without a character is not split at it.
proof fn lemma_no_split(a: Seq<char>, c: char)
    requires
        !a.contains(c),
    ensures
        split_once_of(a, c) is None,
{
    assert forall|i: int| 0 <= i < a.len() implies !exactly(c)(#[trigger] a[i]) by {
        assert(a.contains(a[i]));
    }
    lemma_first_where_unique(a, exactly(c), a.len());
}

/// The name of a binary is the end of its path, not empty and without a slash.
proof fn lemma_name_is_end(path: Seq<char>)
    ensures
        binary_name_of(path) matches Some(name) ==> name.len() > 0 && !name.contains('/') && exists|
            head: Seq<char>,
        | path == #[trigger] (head + name),
{
    lemma_known_is_end(path, 0);
    if name_known(path, 0) is None {
        lemma_after_prefix(path, "/home/"@);
        if let Some(after_home) = after_prefix(path, "/home/"@) {
            lemma_split_once(after_home, '/');
            if let Some(parts) = split_once_of(after_home, '/') {
                lemma_after_prefix(parts.1, ".local/bin/"@);
                lemma_after_prefix(parts.1, ".cargo/bin/"@);
                if let Some(name) = name_in_home(path) {
                    let dir = if after_prefix(parts.1, ".local/bin/"@) is Some {
                        ".local/bin/"@
                    } else {
                        ".cargo/bin/"@
                    };
                    let head = "/home/"@ + (parts.0 + seq!['/'] + dir);
                    assert(path == head + name);
                }
            }
        }
    }
}

proof fn lemma_known_is_end(path: Seq<char>, k: int)
    requires
        0 <= k <= 5,
    ensures
        name_known(path, k) matches Some(name) ==> name.len() > 0 && !name.contains('/') && exists|
            head: Seq<char>,
        | path == #[trigger] (head + name),
    decreases 5 - k,
{
    if k < 5 {
        lemma_after_prefix(path, KNOWN_PREFIXES[k]@);
        if let Some(name) = name_below(path, KNOWN_PREFIXES[k]@) {
            assert(path == KNOWN_PREFIXES[k]@ + name);
        } else {
            lemma_known_is_end(path, k + 1);
        }
    }
}

/// A character of the end of a text is one of the text.
proof fn lemma_end_contains(head: Seq<char>, end: Seq<char>, c: char)
    requires
        end.contains(c),
    ensures
        (head + end).contains(c),
{
    let i = end.index_of(c);
    assert((head + end)[head.len() + i] == c);
}

/// The name of a binary in the fleet's directory is found.
proof fn lemma_fleet_name(name: Seq<char>)
    requires
        name.len() > 0,
        !name.contains('/'),
    ensures
        binary_name_of("%h/.local/bin/"@ + name) == Some(name),
{
    let path = "%h/.local/bin/"@ + name;
    reveal_strlit("/usr/local/bin/");
    reveal_strlit("%h/.local/bin/");
    assert(path[0] == '%');
    assert(!KNOWN_PREFIXES[0]@.is_prefix_of(path)) by {
        if KNOWN_PREFIXES[0]@.is_prefix_of(path) {
            assert(path.subrange(0, KNOWN_PREFIXES[0]@.len() as int)[0] == path[0]);
        }
    }
    lemma_after_prefix(name, "%h/.local/bin/"@);
    assert(name_below(path, KNOWN_PREFIXES[1]@) == Some(name));
    reveal_with_fuel(name_known, 3);
}

/// The command and arguments of a rewritten line.
proof fn lemma_fleet_line(name: Seq<char>, args: Seq<char>)
    requires
        name.len() > 0,
        !name.contains('/'),
        !name.contains(' '),
    ensures
        rewrite_of(fleet_line(name, args)) == fleet_line(name, args),
        after_prefix(fleet_line(name, args), "ExecStart="@) matches Some(rest)
            && "%h/.local/bin/"@.is_prefix_of(rest),
{
    reveal_strlit("ExecStart=%h/.local/bin/");
    reveal_strlit("ExecStart=");
    reveal_strlit("%h/.local/bin/");
    reveal_strlit(" ");
    assert("ExecStart=%h/.local/bin/"@ == "ExecStart="@ + "%h/.local/bin/"@);
    let command = "%h/.local/bin/"@ + name;
    let rest = if args.len() == 0 {
        command
    } else {
        command + seq![' '] + args
    };
    assert(" "@ == seq![' ']);
    assert(fleet_line(name, args) == "ExecStart="@ + rest);
    lemma_after_prefix(rest, "ExecStart="@);
    assert(!command.contains(' ')) by {
        if command.contains(' ') {
            let i = command.index_of(' ');
            let n = "%h/.local/bin/"@.len();
            if i >= n {
                assert(name[i - n] == ' ');
            } else {
                assert("%h/.local/bin/"@[i] == ' ');
            }
        }
    }
    if args.len() == 0 {
        lemma_no_split(command, ' ');
    } else {
        lemma_split_at(command, ' ', args);
    }
    assert(command_of(rest) == (command, args)) by {
        assert(args.len() == 0 ==> args == Seq::<char>::empty());
    }
    lemma_fleet_name(name);
    assert(rest.subrange(0, "%h/.local/bin/"@.len() as int) == "%h/.local/bin/"@);
}

/// The parts of a line that is rewritten.
proof fn lemma_rewritten(line: Seq<char>)
    ensures
        rewrite_of(line) == line || exists|name: Seq<char>, args: Seq<char>|
            {
                &&& rewrite_of(line) == #[trigger] fleet_line(name, args)
                &&& name.len() > 0
                &&& !name.contains('/')
                &&& !name.contains(' ')
                &&& !line.contains('\n') ==> !name.contains('\n') && !args.contains('\n')
            },
{
    lemma_after_prefix(line, "ExecStart="@);
    if let Some(rest) = after_prefix(line, "ExecStart="@) {
        let (command, args) = command_of(rest);
        lemma_split_once(rest, ' ');
        lemma_name_is_end(command);
        if let Some(name) = binary_name_of(command) {
            let head = choose|head: Seq<char>| command == #[trigger] (head + name);
            if name.contains(' ') {
                lemma_end_contains(head, name, ' ');
            }
            if name.contains('\n') {
                lemma_end_contains(head, name, '\n');
                let i = command.index_of('\n');
                assert(rest[i] == '\n');
                assert(line["ExecStart="@.len() + i] == '\n');
            }
            if args.contains('\n') {
                lemma_end_contains(command + seq![' '], args, '\n');
                lemma_end_contains("ExecStart="@, rest, '\n');
            }
            assert(rewrite_of(line) == fleet_line(name, args));
        }
    }
}

/// Rewriting a line twice is rewriting it once.
pub proof fn law_line_rewrite_is_idempotent(line: Seq<char>)
    ensures
        rewrite_of(rewrite_of(line)) == rewrite_of(line),
{
    lemma_rewritten(line);
    if rewrite_of(line) != line {
        let (name, args) = choose|name: Seq<char>, args: Seq<char>|
            {
                &&& rewrite_of(line) == #[trigger] fleet_line(name, args)
                &&& name.len() > 0
                &&& !name.contains('/')
                &&& !name.contains(' ')
            };
        lemma_fleet_line(name, args);
    }
}

/// A rewritten line has no line feed if the line had none, and is not empty if
/// the line was not.
proof fn lemma_rewrite_keeps_line(line: Seq<char>)
    requires
        !line.contains('\n'),
    ensures
        !rewrite_of(line).contains('\n'),
        line.len() > 0 ==> rewrite_of(line).len() > 0,
{
    lemma_rewritten(line);
    if rewrite_of(line) != line {
        let (name, args) = choose|name: Seq<char>, args: Seq<char>|
            {
                &&& rewrite_of(line) == #[trigger] fleet_line(name, args)
                &&& name.len() > 0
                &&& !name.contains('/')
                &&& !name.contains(' ')
                &&& !line.contains('\n') ==> !name.contains('\n') && !args.contains('\n')
            };
        reveal_strlit("ExecStart=%h/.local/bin/");
        reveal_strlit(" ");
        let f = fleet_line(name, args);
        if f.contains('\n') {
            let i = f.index_of('\n');
            let n = "ExecStart=%h/.local/bin/"@.len();
            if i < n {
                assert("ExecStart=%h/.local/bin/"@[i] == '\n');
            } else if i < n + name.len() {
                assert(name[i - n] == '\n');
            } else if i == n + name.len() {
                assert(" "@[0] == '\n');
            } else {
                assert(args[i - n - name.len() - 1] == '\n');
            }
        }
    }
}

/// What the lines of a rewritten unit file are.
proof fn lemma_rewritten_lines(body: Seq<char>)
    ensures
        rewrite_unit_of(body) == text_of(rewrite_all(lines_of(body)), ends_line(body)),
        lines_of(rewrite_unit_of(body)) == as_read(rewrite_all(lines_of(body)), ends_line(body)),
        ends_line(rewrite_unit_of(body)) == ends_line(body),
{
    let ls = lines_of(body);
    let rs = rewrite_all(ls);
    let closed = ends_line(body);
    lemma_lines(body);
    assert forall|i: int| 0 <= i < rs.len() implies !(#[trigger] rs[i]).contains('\n') by {
        assert(!ls[i].contains('\n'));
        lemma_rewrite_keeps_line(ls[i]);
    }
    reveal_strlit("\n");
    if ls.len() > 0 && !closed {
        assert(!ls[ls.len() - 1].contains('\n'));
        lemma_rewrite_keeps_line(ls[ls.len() - 1]);
        assert(rs.last() == rewrite_of(ls.last()));
    }
    lemma_lines_of_text(rs, closed);
    let out = rewrite_unit_of(body);
    assert(out == text_of(rs, closed));
    if closed {
        assert(out.subrange(out.len() - 1, out.len() as int) == "\n"@);
    } else if rs.len() == 0 {
        assert(out.len() == 0);
    } else {
        let j = crate::text::join_of(rs, "\n"@);
        assert(out == j);
        assert(rs[rs.len() - 1].len() > 0);
        assert(j.last() == rs.last().last());
        if ends_line(out) {
            assert(out.subrange(out.len() - 1, out.len() as int)[0] == '\n');
            assert(rs.last().contains(rs.last().last()));
        }
    }
}

/// Whether no line that is followed by a line feed ends, once rewritten, in a
/// carriage return.
pub open spec fn plain_ends(body: Seq<char>) -> bool {
    let rs = rewrite_all(lines_of(body));
    forall|i: int|
        0 <= i < rs.len() && (i < rs.len() - 1 || ends_line(body)) ==> drop_return(
            #[trigger] rs[i],
        ) == rs[i]
}

/// Rewriting a unit file twice is rewriting it once, unless a rewritten line
/// ends in a carriage return of its own, which the second reading takes for
/// part of the line end.
pub proof fn law_unit_rewrite_is_idempotent(body: Seq<char>)
    requires
        plain_ends(body),
    ensures
        rewrite_unit_of(rewrite_unit_of(body)) == rewrite_unit_of(body),
{
    let rs = rewrite_all(lines_of(body));
    lemma_rewritten_lines(body);
    assert(as_read(rs, ends_line(body)) == rs);
    assert(rewrite_all(rs) == rs) by {
        assert forall|i: int| 0 <= i < rs.len() implies rewrite_all(rs)[i] == rs[i] by {
            law_line_rewrite_is_idempotent(lines_of(body)[i]);
        }
    }
}

/// Whether the line ends in the one space behind its command.
pub open spec fn ends_in_lone_space(line: Seq<char>) -> bool {
    match after_prefix(line, "ExecStart="@) {
        Some(rest) => split_once_of(rest, ' ') matches Some(parts) && parts.1.len() == 0,
        None => false,
    }
}

/// A line that agrees with the convention is not changed.
proof fn lemma_compliant_stays(line: Seq<char>)
    requires
        offence_in(line) is None,
        !ends_in_lone_space(line),
    ensures
        rewrite_of(line) == line,
{
    reveal_strlit("ExecStart=%h/.local/bin/");
    reveal_strlit("ExecStart=");
    reveal_strlit("%h/.local/bin/");
    reveal_strlit(" ");
    reveal_strlit("/bin/");
    reveal_strlit("/usr/bin/");
    reveal_strlit("/usr/local/bin/");
    reveal_strlit("%h/.cargo/bin/");
    reveal_strlit("~/.local/bin/");
    reveal_strlit("~/.cargo/bin/");
    reveal_strlit("/home/");
    lemma_after_prefix(line, "ExecStart="@);
    if let Some(rest) = after_prefix(line, "ExecStart="@) {
        let (command, args) = command_of(rest);
        lemma_split_once(rest, ' ');
        if let Some(name) = binary_name_of(command) {
            assert(rest.subrange(0, command.len() as int) == command);
            lemma_known_prefix(command);
            if "%h/.local/bin/"@.is_prefix_of(rest) {
                assert(rest.subrange(0, 14)[0] == rest[0]);
                assert(rest[0] == '%' && rest[4] == 'l');
                lemma_after_prefix(command, "%h/.local/bin/"@);
                lemma_fleet_start(command);
                assert(command == "%h/.local/bin/"@ + name);
                assert(" "@ == seq![' ']);
                assert("ExecStart=%h/.local/bin/"@ == "ExecStart="@ + "%h/.local/bin/"@);
                if split_once_of(rest, ' ') is None {
                    assert(fleet_line(name, args) == line);
                } else {
                    assert(rest == command + seq![' '] + args);
                    assert(fleet_line(name, args) == line);
                }
            } else if "/bin/"@.is_prefix_of(rest) {
                assert(rest.subrange(0, 5)[1] == rest[1]);
                assert(rest[1] == 'b');
                assert(command[1] == rest[1]);
            } else {
                assert(rest.subrange(0, 9)[5] == rest[5]);
                assert(rest.subrange(0, 9)[1] == rest[1]);
                assert(rest[1] == 'u' && rest[5] == 'b');
                assert(command[1] == rest[1]);
                assert(command[5] == rest[5]);
            }
        }
    }
}

/// How the path of a fleet binary starts.
proof fn lemma_known_prefix(path: Seq<char>)
    requires
        binary_name_of(path) is Some,
    ensures
        path.len() > 6,
        path[0] == '%' || path[0] == '~' || (path[0] == '/' && path[1] == 'h') || (path[0] == '/'
            && path[1] == 'u' && path[5] == 'l'),
        path[0] == '%' && path[4] == 'l' ==> "%h/.local/bin/"@.is_prefix_of(path),
{
    reveal_strlit("/usr/local/bin/");
    reveal_strlit("%h/.local/bin/");
    reveal_strlit("%h/.cargo/bin/");
    reveal_strlit("~/.local/bin/");
    reveal_strlit("~/.cargo/bin/");
    reveal_strlit("/home/");
    reveal_with_fuel(name_known, 6);
    lemma_after_prefix(path, KNOWN_PREFIXES[0]@);
    lemma_after_prefix(path, KNOWN_PREFIXES[1]@);
    lemma_after_prefix(path, KNOWN_PREFIXES[2]@);
    lemma_after_prefix(path, KNOWN_PREFIXES[3]@);
    lemma_after_prefix(path, KNOWN_PREFIXES[4]@);
    lemma_after_prefix(path, "/home/"@);
    if name_known(path, 0) is None {
        let rest = after_prefix(path, "/home/"@)->0;
        lemma_split_once(rest, '/');
        assert(rest.len() > 0);
    }
}

/// The name of a binary in the fleet's directory is what follows the directory.
proof fn lemma_fleet_start(path: Seq<char>)
    requires
        "%h/.local/bin/"@.is_prefix_of(path),
        binary_name_of(path) is Some,
    ensures
        path == "%h/.local/bin/"@ + binary_name_of(path)->0,
{
    reveal_strlit("/usr/local/bin/");
    reveal_strlit("%h/.local/bin/");
    reveal_strlit("%h/.cargo/bin/");
    reveal_strlit("~/.local/bin/");
    reveal_strlit("~/.cargo/bin/");
    reveal_strlit("/home/");
    reveal_with_fuel(name_known, 6);
    assert(path.subrange(0, 14)[0] == path[0]);
    assert(path.subrange(0, 14)[4] == path[4]);
    assert(path[0] == '%' && path[4] == 'l');
    lemma_after_prefix(path, KNOWN_PREFIXES[0]@);
    lemma_after_prefix(path, KNOWN_PREFIXES[1]@);
    lemma_after_prefix(path, KNOWN_PREFIXES[2]@);
    lemma_after_prefix(path, KNOWN_PREFIXES[3]@);
    lemma_after_prefix(path, KNOWN_PREFIXES[4]@);
    lemma_after_prefix(path, "/home/"@);
}

/// A unit file that agrees with the convention already comes out as it went
/// in, provided that it has no carriage return before a line feed and no
/// command is followed by a single space alone.
pub proof fn law_compliant_unit_stays(body: Seq<char>)
    requires
        offence_of(lines_of(body)) is None,
        !has_return(body),
        forall|i: int|
            0 <= i < lines_of(body).len() ==> !ends_in_lone_space(#[trigger] lines_of(body)[i]),
    ensures
        rewrite_unit_of(body) == body,
{
    let ls = lines_of(body);
    lemma_no_offence(ls);
    assert forall|i: int| 0 <= i < ls.len() implies rewrite_all(ls)[i] == ls[i] by {
        assert(offence_in(ls[i]) is None);
        lemma_compliant_stays(ls[i]);
    }
    assert(rewrite_all(ls) == ls);
    lemma_text_of_lines(body);
}

/// There is no first offence exactly if there is none.
proof fn lemma_no_offence(ls: Seq<Seq<char>>)
    ensures
        offence_of(ls) is None <==> forall|i: int|
            0 <= i < ls.len() ==> offence_in(#[trigger] ls[i]) is None,
    decreases ls.len(),
{
    if ls.len() > 0 {
        let rest = ls.drop_first();
        lemma_no_offence(rest);
        if offence_of(ls) is None {
            assert forall|i: int| 0 <= i < ls.len() implies offence_in(
                #[trigger] ls[i],
            ) is None by {
                if i > 0 {
                    assert(offence_in(rest[i - 1]) is None);
                }
            }
        }
        if forall|i: int| 0 <= i < ls.len() ==> offence_in(#[trigger] ls[i]) is None {
            assert forall|i: int| 0 <= i < rest.len() implies offence_in(
                #[trigger] rest[i],
            ) is None by {
                assert(rest[i] == ls[i + 1]);
            }
            assert(offence_in(ls[0]) is None);
        }
    }
}

/// Whether a line is one that rewriting brings in line with the convention:
/// it starts a fleet binary from a known place, or has nothing to bring.
pub open spec fn can_comply(line: Seq<char>) -> bool {
    offence_in(line) is None || binary_name_of(
        command_of(after_prefix(line, "ExecStart="@)->0).0,
    ) is Some
}

/// Losing a carriage return makes no offence.
proof fn lemma_drop_return_complies(line: Seq<char>)
    requires
        offence_in(line) is None,
    ensures
        offence_in(drop_return(line)) is None,
{
    reveal_strlit("ExecStart=");
    reveal_strlit("/bin/");
    reveal_strlit("/usr/bin/");
    reveal_strlit("%h/.local/bin/");
    let d = drop_return(line);
    lemma_after_prefix(line, "ExecStart="@);
    lemma_after_prefix(d, "ExecStart="@);
    if d != line {
        if let Some(rd) = after_prefix(d, "ExecStart="@) {
            assert(line == "ExecStart="@ + (rd + seq!['\r']));
            lemma_after_prefix(rd + seq!['\r'], "ExecStart="@);
            let rl = rd + seq!['\r'];
            assert(after_prefix(line, "ExecStart="@) == Some(rl));
            if "/bin/"@.is_prefix_of(rl) {
                lemma_prefix_before_return(rd, "/bin/"@);
            } else if "/usr/bin/"@.is_prefix_of(rl) {
                lemma_prefix_before_return(rd, "/usr/bin/"@);
            } else {
                lemma_prefix_before_return(rd, "%h/.local/bin/"@);
            }
        }
    }
}

/// A prefix that does not end in a carriage return lies before one.
proof fn lemma_prefix_before_return(s: Seq<char>, p: Seq<char>)
    requires
        p.len() > 0,
        p.last() != '\r',
        p.is_prefix_of(s + seq!['\r']),
    ensures
        p.is_prefix_of(s),
{
    let t = s + seq!['\r'];
    assert(t.subrange(0, p.len() as int) == p);
    if p.len() == t.len() {
        assert(p.last() == t.last());
    }
    assert(s.subrange(0, p.len() as int) == p);
}

/// Rewriting brings a unit file in line with the convention where every line
/// can be.
pub proof fn law_rewrite_makes_compliant(body: Seq<char>)
    requires
        forall|i: int| 0 <= i < lines_of(body).len() ==> can_comply(#[trigger] lines_of(body)[i]),
    ensures
        offence_of(lines_of(rewrite_unit_of(body))) is None,
{
    let ls = lines_of(body);
    let rs = rewrite_all(ls);
    lemma_rewritten_lines(body);
    let out = as_read(rs, ends_line(body));
    assert forall|i: int| 0 <= i < out.len() implies offence_in(#[trigger] out[i]) is None by {
        assert(can_comply(ls[i]));
        lemma_rewrite_complies(ls[i]);
        lemma_drop_return_complies(rs[i]);
    }
    lemma_no_offence(out);
}

/// Rewriting a line brings it in line with the convention, if it can be.
proof fn lemma_rewrite_complies(line: Seq<char>)
    requires
        can_comply(line),
    ensures
        offence_in(rewrite_of(line)) is None,
{
    lemma_after_prefix(line, "ExecStart="@);
    if let Some(rest) = after_prefix(line, "ExecStart="@) {
        let (command, args) = command_of(rest);
        lemma_split_once(rest, ' ');
        lemma_name_is_end(command);
        if let Some(name) = binary_name_of(command) {
            let head = choose|head: Seq<char>| command == #[trigger] (head + name);
            if name.contains(' ') {
                lemma_end_contains(head, name, ' ');
            }
            lemma_fleet_line(name, args);
        }
    }
}

/// Whether the answers of `exists_at` depend on the path alone.
pub open spec fn steady<F: Fn(&str) -> bool>(exists_at: F) -> bool {
    forall|path: Seq<char>, a: bool, b: bool| #[trigger]
        says_exists(exists_at, path, a) && #[trigger] says_exists(exists_at, path, b) ==> a == b
}

/// Planning twice on the same host gives the same plan.
pub proof fn law_plan_is_repeatable<F: Fn(&str) -> bool>(
    exists_at: F,
    release_dir: Seq<char>,
    install_dir: Seq<char>,
    binary: Seq<char>,
    first: InstallOp,
    second: InstallOp,
)
    requires
        steady(exists_at),
        installs(exists_at, release_dir, install_dir, binary, first),
        installs(exists_at, release_dir, install_dir, binary, second),
    ensures
        first.src@ == second.src@,
        first.dst@ == second.dst@,
        first.already_correct == second.already_correct,
{
    assert(says_exists(exists_at, first.dst@, first.already_correct));
    assert(says_exists(exists_at, first.dst@, second.already_correct));
}

} // verus!
