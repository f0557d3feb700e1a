//! What rewriting to the install convention changes in a line, and what it keeps.

use crate::format_laws::law_paths_are_joined_with_one_slash;
use crate::files::join_of;
use crate::install_convention::{
    FLEET_BINARIES, FLEET_INSTALL_SUBDIR, PLATFORM_BINARIES, installs, offence_of, rewrite_all,
    rewrite_unit_of, InstallOp, binary_name_of, command_of, name_below, name_in_home, name_known,
    offence_in, rewrite_of, KNOWN_PREFIXES,
};
use crate::text;
use crate::text::{lines_of, after_prefix, exactly, first_char, lemma_first_where, split_once_of};
use crate::text_laws::{
    law_join_of_two_runs, law_lines_are_those_of_the_text, law_prefix_is_stripped,
    law_split_at_the_first,
};
use vstd::prelude::*;

verus! {

/// Whether `d` is a directory that the convention replaces: `bin` of
/// `/usr/local`, or `.local/bin` or `.cargo/bin` of a home directory, which is
/// written `%h`, `~` or `/home/` and a user.
pub open spec fn is_replaced(d: Seq<char>, user: Seq<char>) -> bool {
    ||| d == "/usr/local/bin/"@
    ||| d == "%h/.local/bin/"@
    ||| d == "%h/.cargo/bin/"@
    ||| d == "~/.local/bin/"@
    ||| d == "~/.cargo/bin/"@
    ||| d == "/home/"@ + user + "/.local/bin/"@
    ||| d == "/home/"@ + user + "/.cargo/bin/"@
}

/// Whether a text is one part of a path and one word: not empty, without a slash
/// and without a space.
pub open spec fn is_part(name: Seq<char>) -> bool {
    name.len() > 0 && !name.contains('/') && !name.contains(' ')
}

/// A prefix of a text begins as the text does.
proof fn lemma_begins(p: Seq<char>, s: Seq<char>, i: int)
    requires
        p.is_prefix_of(s),
        0 <= i < p.len(),
    ensures
        s.len() >= p.len(),
        p[i] == s[i],
{
    assert(s.subrange(0, p.len() as int)[i] == s[i]);
}

/// The binary in a known directory is found.
proof fn lemma_known(k: int, name: Seq<char>)
    requires
        0 <= k < 5,
        name.len() > 0,
        !name.contains('/'),
    ensures
        binary_name_of(KNOWN_PREFIXES[k]@ + name) == Some(name),
{
    reveal_strlit("/usr/local/bin/");
    reveal_strlit("%h/.local/bin/");
    reveal_strlit("%h/.cargo/bin/");
    reveal_strlit("~/.local/bin/");
    reveal_strlit("~/.cargo/bin/");
    let p = KNOWN_PREFIXES[k]@;
    let path = p + name;
    law_prefix_is_stripped(p, name, path);
    assert(path[0] == p[0] && path[3] == p[3]);
    assert forall|j: int| 0 <= j < k implies !(#[trigger] KNOWN_PREFIXES[j]@).is_prefix_of(path) by {
        if KNOWN_PREFIXES[j]@.is_prefix_of(path) {
            lemma_begins(KNOWN_PREFIXES[j]@, path, 0);
            lemma_begins(KNOWN_PREFIXES[j]@, path, 3);
            lemma_begins(KNOWN_PREFIXES[j]@, path, 4);
            assert(p[4] == path[4]);
        }
    }
    reveal_with_fuel(name_known, 6);
}

/// The binary in a directory of some user's home is found.
proof fn lemma_in_home(user: Seq<char>, sub: Seq<char>, name: Seq<char>)
    requires
        !user.contains('/'),
        sub == ".local/bin/"@ || sub == ".cargo/bin/"@,
        name.len() > 0,
        !name.contains('/'),
    ensures
        binary_name_of("/home/"@ + user + "/"@ + sub + name) == Some(name),
{
    let path = "/home/"@ + user + "/"@ + sub + name;
    reveal_strlit("/home/");
    reveal_strlit("/");
    reveal_strlit("/usr/local/bin/");
    reveal_strlit("%h/.local/bin/");
    reveal_strlit("%h/.cargo/bin/");
    reveal_strlit("~/.local/bin/");
    reveal_strlit("~/.cargo/bin/");
    reveal_strlit(".local/bin/");
    reveal_strlit(".cargo/bin/");
    assert(path[0] == '/' && path[1] == 'h');
    assert forall|j: int| 0 <= j < 5 implies !(#[trigger] KNOWN_PREFIXES[j]@).is_prefix_of(path) by {
        if KNOWN_PREFIXES[j]@.is_prefix_of(path) {
            lemma_begins(KNOWN_PREFIXES[j]@, path, 0);
            lemma_begins(KNOWN_PREFIXES[j]@, path, 1);
        }
    }
    reveal_with_fuel(name_known, 6);
    assert(name_known(path, 0) is None);
    let after = user.push('/') + (sub + name);
    assert(path == "/home/"@ + after);
    law_prefix_is_stripped("/home/"@, after, path);
    law_split_at_the_first(user, sub + name, '/');
    law_prefix_is_stripped(sub, name, sub + name);
    if sub == ".cargo/bin/"@ {
        assert(!".local/bin/"@.is_prefix_of(sub + name)) by {
            if ".local/bin/"@.is_prefix_of(sub + name) {
                lemma_begins(".local/bin/"@, sub + name, 1);
            }
        }
    }
}

/// A binary in a replaced directory is found, and its path is one word.
proof fn lemma_replaced(d: Seq<char>, user: Seq<char>, name: Seq<char>)
    requires
        is_replaced(d, user),
        !user.contains('/'),
        !user.contains(' '),
        is_part(name),
    ensures
        binary_name_of(d + name) == Some(name),
        !(d + name).contains(' '),
{
    reveal_strlit("/");
    reveal_strlit("/.local/bin/");
    reveal_strlit("/.cargo/bin/");
    reveal_strlit(".local/bin/");
    reveal_strlit(".cargo/bin/");
    if d == KNOWN_PREFIXES[0]@ {
        lemma_known(0, name);
    } else if d == KNOWN_PREFIXES[1]@ {
        lemma_known(1, name);
    } else if d == KNOWN_PREFIXES[2]@ {
        lemma_known(2, name);
    } else if d == KNOWN_PREFIXES[3]@ {
        lemma_known(3, name);
    } else if d == KNOWN_PREFIXES[4]@ {
        lemma_known(4, name);
    } else if d == "/home/"@ + user + "/.local/bin/"@ {
        lemma_in_home(user, ".local/bin/"@, name);
        assert(d + name == "/home/"@ + user + "/"@ + ".local/bin/"@ + name);
    } else {
        lemma_in_home(user, ".cargo/bin/"@, name);
        assert(d + name == "/home/"@ + user + "/"@ + ".cargo/bin/"@ + name);
    }
    lemma_no_space(d, user);
    if (d + name).contains(' ') {
        let i = (d + name).index_of(' ');
        if i >= d.len() {
            assert(name.contains(name[i - d.len()]));
        } else {
            assert(d[i] == ' ');
        }
    }
}

/// A replaced directory has no space where the user has none.
#[verifier::spinoff_prover]
proof fn lemma_no_space(d: Seq<char>, user: Seq<char>)
    requires
        is_replaced(d, user),
        !user.contains(' '),
    ensures
        forall|i: int| 0 <= i < d.len() ==> d[i] != ' ',
{
    reveal_strlit("/usr/local/bin/");
    reveal_strlit("%h/.local/bin/");
    reveal_strlit("%h/.cargo/bin/");
    reveal_strlit("~/.local/bin/");
    reveal_strlit("~/.cargo/bin/");
    reveal_strlit("/home/");
    reveal_strlit("/.local/bin/");
    reveal_strlit("/.cargo/bin/");
    assert forall|i: int| 0 <= i < d.len() implies d[i] != ' ' by {
        if 6 <= i < 6 + user.len() && d[i] == ' ' && d[i] == user[i - 6] {
            assert(user.contains(user[i - 6]));
        }
    }
}

/// A command in a replaced directory is moved to the fleet's directory, and
/// nothing else of its line changes: whatever the arguments are, they stay as they
/// were, behind one space. Only a space with no arguments behind it goes.
pub proof fn law_rewrite_moves_the_command(
    d: Seq<char>,
    user: Seq<char>,
    name: Seq<char>,
    args: Seq<char>,
)
    requires
        is_replaced(d, user),
        !user.contains('/'),
        !user.contains(' '),
        is_part(name),
    ensures
        rewrite_of("ExecStart="@ + d + name) == "ExecStart=%h/.local/bin/"@ + name,
        rewrite_of("ExecStart="@ + d + name + " "@) == "ExecStart=%h/.local/bin/"@ + name,
        args.len() > 0 ==> rewrite_of("ExecStart="@ + d + name + " "@ + args)
            == "ExecStart=%h/.local/bin/"@ + name + " "@ + args,
{
    lemma_replaced(d, user, name);
    reveal_strlit(" ");
    let command = d + name;
    let e = Seq::<char>::empty();
    assert("ExecStart="@ + d + name == "ExecStart="@ + command);
    law_prefix_is_stripped("ExecStart="@, command, e);
    law_split_at_the_first(command, e, ' ');
    assert("ExecStart="@ + d + name + " "@ == "ExecStart="@ + (command.push(' ') + e));
    law_prefix_is_stripped("ExecStart="@, command.push(' ') + e, e);
    law_split_at_the_first(command, args, ' ');
    assert("ExecStart="@ + d + name + " "@ + args == "ExecStart="@ + (command.push(' ') + args));
    law_prefix_is_stripped("ExecStart="@, command.push(' ') + args, e);
}

/// A line and its rewriting agree in everything behind the first space, whatever
/// stands before it.
pub proof fn law_rewrite_keeps_what_follows_the_command(head: Seq<char>, args: Seq<char>) -> (moved:
    Seq<char>)
    requires
        !head.contains(' '),
        args.len() > 0,
    ensures
        !moved.contains(' '),
        rewrite_of(head + " "@ + args) == moved + " "@ + args,
        rewrite_of(head) == moved,
{
    reveal_strlit(" ");
    reveal_strlit("ExecStart=");
    reveal_strlit("ExecStart=%h/.local/bin/");
    let line = head + " "@ + args;
    let e = Seq::<char>::empty();
    law_prefix_is_stripped("ExecStart="@, e, head);
    law_prefix_is_stripped("ExecStart="@, e, line);
    if "ExecStart="@.is_prefix_of(head) {
        let command = head.skip("ExecStart="@.len() as int);
        assert(head == "ExecStart="@ + command);
        assert(!command.contains(' ')) by {
            if command.contains(' ') {
                let i = command.index_of(' ');
                assert(head["ExecStart="@.len() + i] == ' ');
            }
        }
        assert(line == "ExecStart="@ + (command.push(' ') + args));
        law_prefix_is_stripped("ExecStart="@, command.push(' ') + args, e);
        law_split_at_the_first(command, args, ' ');
        lemma_found(command);
        if let Some(name) = binary_name_of(command) {
            let moved = "ExecStart=%h/.local/bin/"@ + name;
            if moved.contains(' ') {
                let i = moved.index_of(' ');
                let n = "ExecStart=%h/.local/bin/"@.len();
                if i >= n {
                    assert(name[i - n] == ' ');
                    assert(command[command.len() - name.len() + (i - n)] == ' ');
                } else {
                    assert("ExecStart=%h/.local/bin/"@[i] == ' ');
                }
            }
            moved
        } else {
            head
        }
    } else {
        if "ExecStart="@.is_prefix_of(line) {
            if head.len() < 10 {
                lemma_begins("ExecStart="@, line, head.len() as int);
                assert(line[head.len() as int] == ' ');
            } else {
                assert(head.subrange(0, 10) == line.subrange(0, 10));
            }
        }
        head
    }
}

/// Where a name was found, the path is a replaced directory and the name.
proof fn lemma_found(path: Seq<char>)
    ensures
        binary_name_of(path) matches Some(name) ==> {
            &&& name.len() > 0
            &&& !name.contains('/')
            &&& exists|d: Seq<char>, user: Seq<char>|
                #[trigger] is_replaced(d, user) && !user.contains('/') && path == d + name
            &&& path.len() >= name.len()
            &&& path.skip(path.len() - name.len()) == name
        },
{
    reveal_with_fuel(name_known, 6);
    let e = Seq::<char>::empty();
    if let Some(name) = name_known(path, 0) {
        assert forall|k: int| 0 <= k < 5 && name_below(path, (#[trigger] KNOWN_PREFIXES[k])@)
            == Some(name) implies path == KNOWN_PREFIXES[k]@ + name by {
            law_prefix_is_stripped(KNOWN_PREFIXES[k]@, e, path);
        }
        let k = if name_below(path, KNOWN_PREFIXES[0]@) is Some {
            0int
        } else if name_below(path, KNOWN_PREFIXES[1]@) is Some {
            1
        } else if name_below(path, KNOWN_PREFIXES[2]@) is Some {
            2
        } else if name_below(path, KNOWN_PREFIXES[3]@) is Some {
            3
        } else {
            4
        };
        assert(name_below(path, KNOWN_PREFIXES[k]@) == Some(name));
        assert(is_replaced(KNOWN_PREFIXES[k]@, e));
    } else if let Some(name) = name_in_home(path) {
        law_prefix_is_stripped("/home/"@, e, path);
        let after = after_prefix(path, "/home/"@)->0;
        let parts = split_once_of(after, '/')->0;
        lemma_parts(after, '/');
        law_prefix_is_stripped(".local/bin/"@, e, parts.1);
        law_prefix_is_stripped(".cargo/bin/"@, e, parts.1);
        reveal_strlit("/.local/bin/");
        reveal_strlit("/.cargo/bin/");
        reveal_strlit(".local/bin/");
        reveal_strlit(".cargo/bin/");
        if after_prefix(parts.1, ".local/bin/"@) is Some {
            let d = "/home/"@ + parts.0 + "/.local/bin/"@;
            assert(path == d + name);
            assert(is_replaced(d, parts.0));
        } else {
            let d = "/home/"@ + parts.0 + "/.cargo/bin/"@;
            assert(path == d + name);
            assert(is_replaced(d, parts.0));
        }
    }
}

/// The parts around the first of a character.
proof fn lemma_parts(s: Seq<char>, c: char)
    ensures
        split_once_of(s, c) matches Some(parts) ==> s == parts.0.push(c) + parts.1
            && !parts.0.contains(c),
        split_once_of(s, c) is None ==> !s.contains(c),
{
    lemma_first_where(s, exactly(c));
    let k = first_char(s, c);
    if k < s.len() {
        assert(s == s.take(k as int).push(c) + s.skip(k as int + 1));
        if s.take(k as int).contains(c) {
            let i = s.take(k as int).index_of(c);
            assert(!exactly(c)(s[i]));
        }
    } else if s.contains(c) {
        let i = s.index_of(c);
        assert(!exactly(c)(s[i]));
    }
}

/// A line is changed only where it starts a binary in a replaced directory: every
/// other line stays as it is.
pub proof fn law_rewrite_touches_nothing_else(line: Seq<char>)
    requires
        rewrite_of(line) != line,
    ensures
        exists|d: Seq<char>, user: Seq<char>, name: Seq<char>, args: Seq<char>|
            #![trigger is_replaced(d, user), is_part(name), seq![' '] + args]
            {
                &&& is_replaced(d, user)
                &&& !user.contains('/')
                &&& is_part(name)
                &&& line == "ExecStart="@ + d + name || line == "ExecStart="@ + d + name + (seq![' ']
                    + args)
            },
{
    let e = Seq::<char>::empty();
    law_prefix_is_stripped("ExecStart="@, e, line);
    let rest = after_prefix(line, "ExecStart="@)->0;
    let (command, args) = command_of(rest);
    lemma_parts(rest, ' ');
    assert(!command.contains(' '));
    lemma_found(command);
    let name = binary_name_of(command)->0;
    let (d, user) = choose|d: Seq<char>, user: Seq<char>|
        #[trigger] is_replaced(d, user) && !user.contains('/') && command == d + name;
    if name.contains(' ') {
        let i = name.index_of(' ');
        assert(command[d.len() + i] == ' ');
    }
    assert(is_part(name));
    let tail = seq![' '] + args;
    assert(line == "ExecStart="@ + d + name || line == "ExecStart="@ + d + name + tail);
}

/// A line is an offence exactly if it starts something from another place than
/// `/bin`, `/usr/bin` or the fleet's directory; what it starts is named in full.
pub proof fn law_offence_is_what_is_started_elsewhere(rest: Seq<char>, line: Seq<char>)
    ensures
        match offence_in("ExecStart="@ + rest) {
            Some(what) => what == rest && !"/bin/"@.is_prefix_of(rest)
                && !"/usr/bin/"@.is_prefix_of(rest) && !"%h/.local/bin/"@.is_prefix_of(rest),
            None => "/bin/"@.is_prefix_of(rest) || "/usr/bin/"@.is_prefix_of(rest)
                || "%h/.local/bin/"@.is_prefix_of(rest),
        },
        !"ExecStart="@.is_prefix_of(line) ==> offence_in(line) is None,
{
    law_prefix_is_stripped("ExecStart="@, rest, line);
}

/// A unit file is rewritten line by line, each line on its own and in its place,
/// and keeps or lacks the line end behind its last line as before.
pub proof fn law_unit_is_rewritten_line_by_line(line: Seq<char>, rest: Seq<char>)
    requires
        !line.contains('\n'),
        line.len() > 0 ==> line.last() != '\r',
    ensures
        rewrite_unit_of(line.push('\n') + rest) == rewrite_of(line).push('\n') + rewrite_unit_of(
            rest,
        ),
        line.len() > 0 ==> rewrite_unit_of(line) == rewrite_of(line),
        rewrite_unit_of(Seq::empty()) == Seq::<char>::empty(),
{
    reveal_strlit("\n");
    let nl = "\n"@;
    assert(nl == seq!['\n']);
    let e = Seq::<char>::empty();
    law_lines_are_those_of_the_text(line, rest);
    let body = line.push('\n') + rest;
    let rs = rewrite_all(lines_of(rest));
    let first = seq![rewrite_of(line)];
    assert(rewrite_all(seq![line] + lines_of(rest)) == first + rs);
    assert(rewrite_all(seq![line]) == first);
    law_join_of_two_runs(first, first, nl, rewrite_of(line));
    if rest.len() > 0 {
        lemma_some_line(rest);
        law_join_of_two_runs(first, rs, nl, rewrite_of(line));
        assert(nl.is_suffix_of(body) == nl.is_suffix_of(rest)) by {
            assert(body.subrange(body.len() - 1, body.len() as int) == rest.subrange(
                rest.len() - 1,
                rest.len() as int,
            ));
        }
        let tail = if nl.is_suffix_of(rest) {
            nl
        } else {
            e
        };
        assert(rewrite_of(line) + nl + text::join_of(rs, nl) + tail == rewrite_of(line).push('\n') + (
        text::join_of(rs, nl) + tail));
    } else {
        assert(rest == e);
        assert(first + rs == first);
        assert(body.subrange(body.len() - 1, body.len() as int) == nl);
        assert(rewrite_unit_of(rest) == e) by {
            assert(rs == Seq::<Seq<char>>::empty());
        }
        assert(rewrite_of(line) + nl == rewrite_of(line).push('\n') + e);
    }
    if line.len() > 0 {
        assert(!nl.is_suffix_of(line)) by {
            if nl.is_suffix_of(line) {
                assert(line.subrange(line.len() - 1, line.len() as int)[0] == line.last());
                assert(line[line.len() - 1] == '\n');
            }
        }
        assert(rewrite_of(line) + e == rewrite_of(line));
    }
    assert(rewrite_all(lines_of(e)) == Seq::<Seq<char>>::empty());
    assert(rewrite_unit_of(e) == e);
}

/// A text that is not empty has a line.
proof fn lemma_some_line(s: Seq<char>)
    requires
        s.len() > 0,
    ensures
        lines_of(s).len() > 0,
{
}

/// A unit file offends exactly if one of its lines does, and the first of them is
/// named.
pub proof fn law_first_offence_is_named(line: Seq<char>, rest: Seq<char>)
    requires
        !line.contains('\n'),
        line.len() > 0 ==> line.last() != '\r',
    ensures
        offence_of(lines_of(line.push('\n') + rest)) == match offence_in(line) {
            Some(what) => Some(what),
            None => offence_of(lines_of(rest)),
        },
        line.len() > 0 ==> offence_of(lines_of(line)) == offence_in(line),
        offence_of(lines_of(Seq::empty())) is None,
{
    law_lines_are_those_of_the_text(line, rest);
    let all = seq![line] + lines_of(rest);
    assert(all[0] == line);
    assert(all.drop_first() == lines_of(rest));
    assert(seq![line].drop_first() == Seq::<Seq<char>>::empty());
    assert(offence_of(seq![line].drop_first()) is None);
}

/// The platform's binaries and the fleet's, and where they are installed below a
/// home directory.
pub proof fn law_binaries_are_installed_below_home(home: Seq<char>, binary: Seq<char>)
    requires
        home.len() > 0 && home.last() != '/',
        binary.len() > 0 && binary[0] != '/',
    ensures
        join_of(home, FLEET_INSTALL_SUBDIR@) == home + "/.local/bin"@,
        join_of(join_of(home, FLEET_INSTALL_SUBDIR@), binary) == home + "/.local/bin/"@ + binary,
        PLATFORM_BINARIES[0]@ == "wmd-init"@ && PLATFORM_BINARIES[1]@ == "wm"@,
        FLEET_BINARIES[0]@ == "wmd-init"@ && FLEET_BINARIES[1]@ == "wm"@,
        FLEET_BINARIES[2]@ == "wm-audio"@ && FLEET_BINARIES[3]@ == "wm-tts"@,
        FLEET_BINARIES[4]@ == "wm-stt"@ && FLEET_BINARIES[5]@ == "wm-dialog"@,
        FLEET_BINARIES[6]@ == "wmd"@ && FLEET_BINARIES[7]@ == "wm-bootstrap"@,
{
    reveal_strlit(".local/bin");
    reveal_strlit("/.local/bin");
    reveal_strlit("/.local/bin/");
    law_paths_are_joined_with_one_slash(home, ".local/bin"@);
    let dir = home + "/.local/bin"@;
    assert(home + seq!['/'] + ".local/bin"@ == dir);
    assert(dir.last() == 'n');
    law_paths_are_joined_with_one_slash(dir, binary);
    assert(dir + seq!['/'] + binary == home + "/.local/bin/"@ + binary);
}

/// A binary is taken from the release directory to the install directory under its
/// own name; it is there already exactly if its place says so.
pub proof fn law_binary_keeps_its_name<F: Fn(&str) -> bool>(
    exists_at: F,
    release_dir: Seq<char>,
    install_dir: Seq<char>,
    binary: Seq<char>,
    op: InstallOp,
)
    requires
        installs(exists_at, release_dir, install_dir, binary, op),
        release_dir.len() > 0 && release_dir.last() != '/',
        install_dir.len() > 0 && install_dir.last() != '/',
        binary.len() > 0 && binary[0] != '/',
    ensures
        op.src@ == release_dir + seq!['/'] + binary,
        op.dst@ == install_dir + seq!['/'] + binary,
        exists|p: &str|
            p@ == op.dst@ && #[trigger] exists_at.ensures((p,), op.already_correct),
{
    law_paths_are_joined_with_one_slash(release_dir, binary);
    law_paths_are_joined_with_one_slash(install_dir, binary);
}

} // verus!
