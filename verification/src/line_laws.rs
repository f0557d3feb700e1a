//! Lines taken apart and put together again.

use crate::text::{
    drop_return, exactly, first_char, join_of, lemma_first_where, lemma_first_where_unique,
    lines_of,
};
use vstd::prelude::*;

verus! {

/// The text of the lines, with a line feed between neighbours and, where
/// `closed`, one behind the last.
pub open spec fn text_of(ls: Seq<Seq<char>>, closed: bool) -> Seq<char> {
    join_of(ls, "\n"@) + if closed {
        "\n"@
    } else {
        Seq::empty()
    }
}

/// Whether a text ends in a line feed.
pub open spec fn ends_line(s: Seq<char>) -> bool {
    "\n"@.is_suffix_of(s)
}

/// The parts but the first come behind the first.
pub proof fn lemma_join_front(parts: Seq<Seq<char>>, sep: Seq<char>)
    requires
        parts.len() >= 2,
    ensures
        join_of(parts, sep) == parts[0] + sep + join_of(parts.drop_first(), sep),
    decreases parts.len(),
{
    let front = parts.drop_last();
    let rest = parts.drop_first();
    if parts.len() == 2 {
        assert(front.len() == 1);
        assert(join_of(front, sep) == parts[0]);
        assert(rest.len() == 1);
        assert(join_of(rest, sep) == parts[1]);
    } else {
        lemma_join_front(front, sep);
        assert(front.drop_first() == rest.drop_last());
        assert(join_of(rest, sep) == join_of(rest.drop_last(), sep) + sep + parts.last());
        assert(join_of(parts, sep) == parts[0] + sep + join_of(rest, sep));
    }
}

/// The lines of a text whose first line is `line`.
proof fn lemma_lines_front(line: Seq<char>, rest: Seq<char>)
    requires
        !line.contains('\n'),
    ensures
        lines_of(line + "\n"@ + rest) == seq![drop_return(line)] + lines_of(rest),
{
    reveal_strlit("\n");
    let s = line + "\n"@ + rest;
    let k = line.len();
    assert forall|i: int| 0 <= i < k implies !exactly('\n')(#[trigger] s[i]) by {
        assert(line.contains(line[i]));
    }
    assert(s[k as int] == '\n');
    lemma_first_where_unique(s, exactly('\n'), k);
    assert(s.take(k as int) == line);
    assert(s.skip(k as int + 1) == rest);
}

/// The lines that reading the text of `ls` gives: a carriage return before a
/// line feed is lost.
pub open spec fn as_read(ls: Seq<Seq<char>>, closed: bool) -> Seq<Seq<char>> {
    Seq::new(
        ls.len(),
        |i: int|
            if i < ls.len() - 1 || closed {
                drop_return(ls[i])
            } else {
                ls[i]
            },
    )
}

/// What reading the text of lines gives.
pub proof fn lemma_lines_of_text(ls: Seq<Seq<char>>, closed: bool)
    requires
        forall|i: int| 0 <= i < ls.len() ==> !(#[trigger] ls[i]).contains('\n'),
        ls.len() == 0 ==> !closed,
        ls.len() > 0 && !closed ==> ls.last().len() > 0,
    ensures
        lines_of(text_of(ls, closed)) == as_read(ls, closed),
    decreases ls.len(),
{
    let t = text_of(ls, closed);
    let e = Seq::<char>::empty();
    if ls.len() == 0 {
        assert(t == e);
        assert(as_read(ls, closed) == Seq::<Seq<char>>::empty());
    } else if ls.len() == 1 {
        assert(!ls[0].contains('\n'));
        if closed {
            assert(t == ls[0] + "\n"@ + e);
            lemma_lines_front(ls[0], e);
            assert(lines_of(e) == Seq::<Seq<char>>::empty());
            assert(lines_of(t) == as_read(ls, closed));
        } else {
            assert(t == ls[0]);
            assert forall|i: int| 0 <= i < t.len() implies !exactly('\n')(#[trigger] t[i]) by {
                assert(t.contains(t[i]));
            }
            lemma_first_where_unique(t, exactly('\n'), t.len());
            assert(lines_of(t) == as_read(ls, closed));
        }
    } else {
        let rest = ls.drop_first();
        assert forall|i: int| 0 <= i < rest.len() implies !(#[trigger] rest[i]).contains('\n') by {
            assert(rest[i] == ls[i + 1]);
        }
        lemma_lines_of_text(rest, closed);
        lemma_join_front(ls, "\n"@);
        assert(!ls[0].contains('\n'));
        assert(t == ls[0] + "\n"@ + text_of(rest, closed));
        lemma_lines_front(ls[0], text_of(rest, closed));
        assert(seq![drop_return(ls[0])] + as_read(rest, closed) == as_read(ls, closed));
    }
}

/// What the lines of a text are.
pub proof fn lemma_lines(s: Seq<char>)
    ensures
        forall|i: int| 0 <= i < lines_of(s).len() ==> !(#[trigger] lines_of(s)[i]).contains('\n'),
        lines_of(s).len() == 0 <==> s.len() == 0,
        ends_line(s) ==> lines_of(s).len() > 0,
        s.len() > 0 && !ends_line(s) ==> lines_of(s).last().len() > 0,
    decreases s.len(),
{
    reveal_strlit("\n");
    if s.len() > 0 {
        lemma_first_where(s, exactly('\n'));
        let k = first_char(s, '\n');
        let ls = lines_of(s);
        if k >= s.len() {
            assert(!s.contains('\n')) by {
                if s.contains('\n') {
                    let i = s.index_of('\n');
                    assert(!exactly('\n')(s[i]));
                }
            }
            assert(ls == seq![s]);
        } else {
            let line = drop_return(s.take(k as int));
            let rest = s.skip(k as int + 1);
            lemma_lines(rest);
            assert(!line.contains('\n')) by {
                if line.contains('\n') {
                    let i = line.index_of('\n');
                    assert(!exactly('\n')(s[i]));
                }
            }
            let lr = lines_of(rest);
            assert(ls == seq![line] + lr);
            assert forall|i: int| 0 <= i < ls.len() implies !(#[trigger] ls[i]).contains('\n') by {
                if i > 0 {
                    assert(ls[i] == lr[i - 1]);
                }
            }
            if rest.len() == 0 {
                assert(s.subrange(s.len() - 1, s.len() as int) == "\n"@);
                assert(ends_line(s));
            } else {
                assert(s.last() == rest.last());
                if ends_line(rest) {
                    assert(rest.subrange(rest.len() - 1, rest.len() as int)[0] == '\n');
                    assert(s.subrange(s.len() - 1, s.len() as int) == "\n"@);
                } else {
                    assert(ls.last() == lr.last());
                }
            }
        }
    }
}

/// Whether a text has a carriage return before a line feed.
pub open spec fn has_return(s: Seq<char>) -> bool {
    exists|i: int| 0 <= i < s.len() - 1 && #[trigger] s[i] == '\r' && s[i + 1] == '\n'
}

/// A text without a carriage return before a line feed is the text of its lines.
pub proof fn lemma_text_of_lines(s: Seq<char>)
    requires
        !has_return(s),
    ensures
        text_of(lines_of(s), ends_line(s)) == s,
    decreases s.len(),
{
    reveal_strlit("\n");
    let e = Seq::<char>::empty();
    if s.len() == 0 {
        assert(text_of(lines_of(s), ends_line(s)) == s);
    } else {
        lemma_first_where(s, exactly('\n'));
        let k = first_char(s, '\n');
        if k >= s.len() {
            if ends_line(s) {
                assert(s.subrange(s.len() - 1, s.len() as int)[0] == s[s.len() - 1]);
                assert(!exactly('\n')(s[s.len() - 1]));
            }
            assert(join_of(seq![s], "\n"@) == s);
            assert(text_of(lines_of(s), ends_line(s)) == s);
        } else {
            let line = s.take(k as int);
            let rest = s.skip(k as int + 1);
            assert(drop_return(line) == line) by {
                if k > 0 {
                    assert(s[k - 1] == line.last());
                }
            }
            assert(!has_return(rest)) by {
                if has_return(rest) {
                    let i = choose|i: int|
                        0 <= i < rest.len() - 1 && #[trigger] rest[i] == '\r' && rest[i + 1]
                            == '\n';
                    assert(s[k + 1 + i] == '\r' && s[k + 1 + i + 1] == '\n');
                }
            }
            lemma_text_of_lines(rest);
            let ls = lines_of(s);
            let lr = lines_of(rest);
            assert(ls == seq![line] + lr);
            assert(s == line + "\n"@ + rest);
            if rest.len() == 0 {
                assert(ls == seq![line]);
                assert(s.subrange(s.len() - 1, s.len() as int) == "\n"@);
                assert(ends_line(s));
                assert(join_of(ls, "\n"@) == line);
                assert(text_of(ls, true) == s);
            } else {
                lemma_lines(rest);
                assert(ls.drop_first() == lr);
                lemma_join_front(ls, "\n"@);
                assert(s.last() == rest.last());
                assert(ends_line(s) == ends_line(rest)) by {
                    assert(s.subrange(s.len() - 1, s.len() as int) == seq![s.last()]);
                    assert(rest.subrange(rest.len() - 1, rest.len() as int) == seq![rest.last()]);
                }
                assert(text_of(ls, ends_line(s)) == line + "\n"@ + text_of(lr, ends_line(rest)));
            }
        }
    }
}

} // verus!
