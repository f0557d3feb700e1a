//! What holds of text that is taken apart, cut down and put together.

use crate::text::{
    after_prefix, drop_back, drop_front, exactly, find_of, is_space, join_of,
    lemma_first_where_unique, lines_of, one_of, pad_left_of, pad_right_of, replace_of, space,
    split_of, split_once_of, trim_end_of, trim_of, trim_start_of, words_of,
};
use vstd::prelude::*;

verus! {

/// Whether a text is made of white space alone.
pub open spec fn blank(s: Seq<char>) -> bool {
    forall|i: int| 0 <= i < s.len() ==> is_space(#[trigger] s[i])
}

/// Whether a text has no white space.
pub open spec fn solid(s: Seq<char>) -> bool {
    forall|i: int| 0 <= i < s.len() ==> !is_space(#[trigger] s[i])
}

/// Whether a text is made of the characters of `set` alone.
pub open spec fn only(s: Seq<char>, set: Seq<char>) -> bool {
    forall|i: int| 0 <= i < s.len() ==> set.contains(#[trigger] s[i])
}

/// White space is the space, the tab, the line ends and feeds, and the other
/// characters that Unicode names so; no character that prints is.
pub proof fn law_white_space(c: char)
    ensures
        is_space(' ') && is_space('\t') && is_space('\n') && is_space('\r'),
        is_space('\u{b}') && is_space('\u{c}') && is_space('\u{85}') && is_space('\u{a0}'),
        is_space('\u{1680}') && is_space('\u{2028}') && is_space('\u{2029}'),
        is_space('\u{202f}') && is_space('\u{205f}') && is_space('\u{3000}'),
        '\u{2000}' <= c <= '\u{200a}' ==> is_space(c),
        '!' <= c <= '~' ==> !is_space(c),
        c < '\t' ==> !is_space(c),
        '\u{d}' < c < ' ' ==> !is_space(c),
        ' ' < c < '\u{85}' ==> !is_space(c),
        '\u{85}' < c < '\u{a0}' ==> !is_space(c),
        '\u{a0}' < c < '\u{1680}' ==> !is_space(c),
        '\u{1680}' < c < '\u{2000}' ==> !is_space(c),
        '\u{200a}' < c < '\u{2028}' ==> !is_space(c),
        '\u{2029}' < c < '\u{202f}' ==> !is_space(c),
        '\u{202f}' < c < '\u{205f}' ==> !is_space(c),
        '\u{205f}' < c < '\u{3000}' ==> !is_space(c),
        '\u{3000}' < c ==> !is_space(c),
{
}

// ---------------------------------------------------------------------------
// Cutting at the ends
// ---------------------------------------------------------------------------

/// What goes from the front is all that goes.
proof fn lemma_drop_front(pre: Seq<char>, rest: Seq<char>, p: spec_fn(char) -> bool)
    requires
        forall|i: int| 0 <= i < pre.len() ==> p(#[trigger] pre[i]),
        rest.len() > 0 ==> !p(rest[0]),
    ensures
        drop_front(pre + rest, p) == rest,
    decreases pre.len(),
{
    let s = pre + rest;
    if pre.len() > 0 {
        assert(p(pre[0]));
        assert(s.drop_first() == pre.drop_first() + rest);
        lemma_drop_front(pre.drop_first(), rest, p);
    } else {
        assert(s == rest);
    }
}

/// What goes from the back is all that goes.
proof fn lemma_drop_back(rest: Seq<char>, post: Seq<char>, p: spec_fn(char) -> bool)
    requires
        forall|i: int| 0 <= i < post.len() ==> p(#[trigger] post[i]),
        rest.len() > 0 ==> !p(rest.last()),
    ensures
        drop_back(rest + post, p) == rest,
    decreases post.len(),
{
    let s = rest + post;
    if post.len() > 0 {
        assert(p(post[post.len() - 1]));
        assert(s.drop_last() == rest + post.drop_last());
        lemma_drop_back(rest, post.drop_last(), p);
    } else {
        assert(s == rest);
    }
}

/// Trimming takes the white space at both ends and nothing else.
pub proof fn law_trim_takes_the_ends(pre: Seq<char>, mid: Seq<char>, post: Seq<char>)
    requires
        blank(pre),
        blank(post),
        mid.len() > 0 ==> !is_space(mid[0]) && !is_space(mid.last()),
    ensures
        trim_of(pre + mid + post) == mid,
{
    if mid.len() > 0 {
        assert((mid + post)[0] == mid[0]);
        assert(pre + mid + post == pre + (mid + post));
        lemma_drop_front(pre, mid + post, space());
        lemma_drop_back(mid, post, space());
    } else {
        let e = Seq::<char>::empty();
        let all = pre + post;
        assert(pre + mid + post == all + e);
        assert forall|i: int| 0 <= i < all.len() implies space()(#[trigger] all[i]) by {
            if i < pre.len() {
                assert(is_space(pre[i]));
            } else {
                assert(is_space(post[i - pre.len()]));
            }
        }
        lemma_drop_front(all, e, space());
        assert(mid == e);
    }
}

/// Every text is white space, what trimming leaves, and white space.
pub proof fn law_trim_is_a_part(s: Seq<char>) -> (cut: (Seq<char>, Seq<char>))
    ensures
        blank(cut.0),
        blank(cut.1),
        s == cut.0 + trim_of(s) + cut.1,
        trim_of(s).len() > 0 ==> !is_space(trim_of(s)[0]) && !is_space(trim_of(s).last()),
{
    let a = lemma_front_cut(s, space());
    let b = lemma_back_cut(drop_front(s, space()), space());
    let t = trim_of(s);
    assert forall|i: int| 0 <= i < a.len() implies is_space(#[trigger] a[i]) by {
        assert(space()(a[i]));
    }
    assert forall|i: int| 0 <= i < b.len() implies is_space(#[trigger] b[i]) by {
        assert(space()(b[i]));
    }
    assert(s == a + t + b);
    if t.len() > 0 {
        assert(drop_front(s, space())[0] == t[0]);
    }
    (a, b)
}

/// What goes from the front.
proof fn lemma_front_cut(s: Seq<char>, p: spec_fn(char) -> bool) -> (cut: Seq<char>)
    ensures
        forall|i: int| 0 <= i < cut.len() ==> p(#[trigger] cut[i]),
        s == cut + drop_front(s, p),
        drop_front(s, p).len() > 0 ==> !p(drop_front(s, p)[0]),
    decreases s.len(),
{
    if s.len() > 0 && p(s[0]) {
        let c = lemma_front_cut(s.drop_first(), p);
        let cut = seq![s[0]] + c;
        assert forall|i: int| 0 <= i < cut.len() implies p(#[trigger] cut[i]) by {
            if i > 0 {
                assert(cut[i] == c[i - 1]);
            }
        }
        assert(s == seq![s[0]] + s.drop_first());
        assert(s == cut + drop_front(s, p));
        cut
    } else {
        assert(s == Seq::<char>::empty() + s);
        Seq::empty()
    }
}

/// What goes from the back.
proof fn lemma_back_cut(s: Seq<char>, p: spec_fn(char) -> bool) -> (cut: Seq<char>)
    ensures
        forall|i: int| 0 <= i < cut.len() ==> p(#[trigger] cut[i]),
        s == drop_back(s, p) + cut,
        drop_back(s, p).len() > 0 ==> !p(drop_back(s, p).last()),
    decreases s.len(),
{
    if s.len() > 0 && p(s.last()) {
        let c = lemma_back_cut(s.drop_last(), p);
        let cut = c.push(s.last());
        assert(s == s.drop_last().push(s.last()));
        assert(s == drop_back(s, p) + cut);
        cut
    } else {
        assert(s == s + Seq::<char>::empty());
        Seq::empty()
    }
}

/// Trimming the end by a set takes the characters of the set there, and nothing
/// else.
pub proof fn law_trim_end_takes_the_set(rest: Seq<char>, post: Seq<char>, set: Seq<char>)
    requires
        only(post, set),
        rest.len() > 0 ==> !set.contains(rest.last()),
    ensures
        trim_end_of(rest + post, set) == rest,
{
    lemma_drop_back(rest, post, one_of(set));
}

/// Trimming the start by a set takes the characters of the set there, and
/// nothing else.
pub proof fn law_trim_start_takes_the_set(pre: Seq<char>, rest: Seq<char>, set: Seq<char>)
    requires
        only(pre, set),
        rest.len() > 0 ==> !set.contains(rest[0]),
    ensures
        trim_start_of(pre + rest, set) == rest,
{
    lemma_drop_front(pre, rest, one_of(set));
}

/// A prefix is stripped and the rest stays, whatever it is; a text that does
/// not begin with it has none.
pub proof fn law_prefix_is_stripped(p: Seq<char>, rest: Seq<char>, s: Seq<char>)
    ensures
        after_prefix(p + rest, p) == Some(rest),
        after_prefix(s, p) matches Some(r) ==> s == p + r,
{
    assert((p + rest).subrange(0, p.len() as int) == p);
    assert((p + rest).skip(p.len() as int) == rest);
    if p.is_prefix_of(s) {
        assert(s == p + s.skip(p.len() as int));
    }
}

// ---------------------------------------------------------------------------
// Lines and words
// ---------------------------------------------------------------------------

/// A text is read line by line: a line ends before a line feed, or before a
/// carriage return and a line feed; what follows the last line feed is a line,
/// unless it is empty.
pub proof fn law_lines_are_those_of_the_text(line: Seq<char>, rest: Seq<char>)
    requires
        !line.contains('\n'),
    ensures
        (line.len() == 0 || line.last() != '\r') ==> lines_of(line.push('\n') + rest) == seq![line]
            + lines_of(rest),
        lines_of(line.push('\r').push('\n') + rest) == seq![line] + lines_of(rest),
        line.len() > 0 ==> lines_of(line) == seq![line],
        lines_of(Seq::empty()) == Seq::<Seq<char>>::empty(),
{
    lemma_first_line(line, rest);
    let l = line.push('\r');
    assert(!l.contains('\n')) by {
        if l.contains('\n') {
            let i = l.index_of('\n');
            assert(line[i] == '\n');
        }
    }
    lemma_first_line(l, rest);
    assert(l.drop_last() == line);
    assert forall|i: int| 0 <= i < line.len() implies !exactly('\n')(#[trigger] line[i]) by {
        assert(line.contains(line[i]));
    }
    lemma_first_where_unique(line, exactly('\n'), line.len());
}

/// The first line of a text.
proof fn lemma_first_line(line: Seq<char>, rest: Seq<char>)
    requires
        !line.contains('\n'),
    ensures
        lines_of(line.push('\n') + rest) == seq![
            if line.len() > 0 && line.last() == '\r' {
                line.drop_last()
            } else {
                line
            },
        ] + lines_of(rest),
{
    let s = line.push('\n') + rest;
    let k = line.len();
    assert forall|i: int| 0 <= i < k implies !exactly('\n')(#[trigger] s[i]) by {
        assert(line.contains(line[i]));
    }
    assert(s[k as int] == '\n');
    lemma_first_where_unique(s, exactly('\n'), k);
    assert(s.take(k as int) == line);
    assert(s.skip(k as int + 1) == rest);
}

/// The words of a text are what stands between white space: the first is the
/// run of other characters behind the white space in front, and the others are
/// those of the rest; white space alone has none.
pub proof fn law_words_stand_between_space(pre: Seq<char>, word: Seq<char>, rest: Seq<char>)
    requires
        blank(pre),
        solid(word),
        word.len() > 0,
        rest.len() > 0 ==> is_space(rest[0]),
    ensures
        words_of(pre + word + rest) == seq![word] + words_of(rest),
        words_of(pre) == Seq::<Seq<char>>::empty(),
    decreases pre.len(),
{
    let s = pre + word + rest;
    if pre.len() > 0 {
        assert(is_space(pre[0]));
        assert forall|i: int| 0 <= i < pre.drop_first().len() implies is_space(
            #[trigger] pre.drop_first()[i],
        ) by {
            assert(is_space(pre[i + 1]));
        }
        law_words_stand_between_space(pre.drop_first(), word, rest);
        assert(s[0] == pre[0]);
        assert(s.drop_first() == pre.drop_first() + word + rest);
    } else {
        assert(s == word + rest);
        assert(!is_space(word[0]));
        assert(s[0] == word[0]);
        assert forall|i: int| 0 <= i < word.len() implies !space()(#[trigger] s[i]) by {
            assert(!is_space(word[i]));
        }
        if rest.len() > 0 {
            assert(s[word.len() as int] == rest[0]);
        }
        lemma_first_where_unique(s, space(), word.len());
        if rest.len() > 0 {
            assert(s.take(word.len() as int) == word);
            assert(s.skip(word.len() as int) == rest);
        } else {
            assert(s == word);
            assert(words_of(rest) == Seq::<Seq<char>>::empty());
            assert(seq![word] + words_of(rest) == seq![word]);
        }
    }
}

// ---------------------------------------------------------------------------
// Splitting and searching
// ---------------------------------------------------------------------------

/// A text is split at the first of a character: what is before and what is
/// behind it; without the character it is not split.
pub proof fn law_split_at_the_first(head: Seq<char>, rest: Seq<char>, c: char)
    requires
        !head.contains(c),
    ensures
        split_once_of(head.push(c) + rest, c) == Some((head, rest)),
        split_once_of(head, c) is None,
        split_of(head.push(c) + rest, c) == seq![head] + split_of(rest, c),
        split_of(head, c) == seq![head],
{
    let s = head.push(c) + rest;
    let k = head.len();
    assert forall|i: int| 0 <= i < k implies !exactly(c)(#[trigger] s[i]) by {
        assert(head.contains(head[i]));
    }
    assert(s[k as int] == c);
    lemma_first_where_unique(s, exactly(c), k);
    assert(s.take(k as int) == head);
    assert(s.skip(k as int + 1) == rest);
    assert forall|i: int| 0 <= i < head.len() implies !exactly(c)(#[trigger] head[i]) by {
        assert(head.contains(head[i]));
    }
    lemma_first_where_unique(head, exactly(c), head.len());
}

/// Whether `pat` stands at position `i` of `s`.
pub open spec fn stands_at(s: Seq<char>, pat: Seq<char>, i: int) -> bool {
    0 <= i && i + pat.len() <= s.len() && s.subrange(i, i + pat.len()) == pat
}

/// A search gives the first place where the pattern stands, and nothing exactly
/// if it stands nowhere.
pub proof fn law_search_gives_the_first(s: Seq<char>, pat: Seq<char>)
    ensures
        match find_of(s, pat) {
            Some(k) => stands_at(s, pat, k as int) && forall|i: int|
                0 <= i < k ==> !#[trigger] stands_at(s, pat, i),
            None => forall|i: int| !#[trigger] stands_at(s, pat, i),
        },
    decreases s.len(),
{
    if pat.is_prefix_of(s) {
        assert(stands_at(s, pat, 0));
    } else {
        assert(!stands_at(s, pat, 0));
        if s.len() > 0 {
            let t = s.drop_first();
            law_search_gives_the_first(t, pat);
            assert forall|i: int| i > 0 implies #[trigger] stands_at(s, pat, i) == stands_at(
                t,
                pat,
                i - 1,
            ) by {
                if i + pat.len() <= s.len() {
                    assert(s.subrange(i, i + pat.len()) == t.subrange(i - 1, i - 1 + pat.len()));
                }
            }
            if let Some(k) = find_of(t, pat) {
                assert(stands_at(s, pat, k as int + 1));
            }
        }
    }
}

/// Replacing puts the other text in the place of the first occurrence, keeps
/// what is before it, and goes on behind it; a text without an occurrence stays.
pub proof fn law_replace_goes_from_the_front(
    head: Seq<char>,
    pat: Seq<char>,
    rest: Seq<char>,
    with: Seq<char>,
    s: Seq<char>,
)
    requires
        pat.len() > 0,
        forall|i: int| 0 <= i < head.len() ==> !#[trigger] stands_at(head + pat + rest, pat, i),
        forall|i: int| !#[trigger] stands_at(s, pat, i),
    ensures
        replace_of(head + pat + rest, pat, with) == head + with + replace_of(rest, pat, with),
        replace_of(s, pat, with) == s,
{
    lemma_replace_first(head, pat, rest, with);
    lemma_replace_nowhere(s, pat, with);
}

proof fn lemma_replace_first(
    head: Seq<char>,
    pat: Seq<char>,
    rest: Seq<char>,
    with: Seq<char>,
)
    requires
        pat.len() > 0,
        forall|i: int| 0 <= i < head.len() ==> !#[trigger] stands_at(head + pat + rest, pat, i),
    ensures
        replace_of(head + pat + rest, pat, with) == head + with + replace_of(rest, pat, with),
    decreases head.len(),
{
    let s = head + pat + rest;
    if head.len() == 0 {
        assert(s.subrange(0, pat.len() as int) == pat);
        assert(s.skip(pat.len() as int) == rest);
        assert(head + with == with);
    } else {
        assert(!stands_at(s, pat, 0));
        let h = head.drop_first();
        let t = h + pat + rest;
        assert(s.drop_first() == t);
        assert forall|i: int| 0 <= i < h.len() implies !#[trigger] stands_at(t, pat, i) by {
            if stands_at(t, pat, i) {
                assert(s.subrange(i + 1, i + 1 + pat.len()) == t.subrange(i, i + pat.len()));
                assert(stands_at(s, pat, i + 1));
            }
        }
        lemma_replace_first(h, pat, rest, with);
        assert(head == seq![s[0]] + h);
        assert(head + with + replace_of(rest, pat, with) == seq![s[0]] + (h + with + replace_of(
            rest,
            pat,
            with,
        )));
    }
}

proof fn lemma_replace_nowhere(s: Seq<char>, pat: Seq<char>, with: Seq<char>)
    requires
        pat.len() > 0,
        forall|i: int| !#[trigger] stands_at(s, pat, i),
    ensures
        replace_of(s, pat, with) == s,
    decreases s.len(),
{
    if s.len() > 0 {
        assert(!stands_at(s, pat, 0));
        let t = s.drop_first();
        assert forall|i: int| !#[trigger] stands_at(t, pat, i) by {
            if stands_at(t, pat, i) {
                assert(s.subrange(i + 1, i + 1 + pat.len()) == t.subrange(i, i + pat.len()));
                assert(stands_at(s, pat, i + 1));
            }
        }
        lemma_replace_nowhere(t, pat, with);
        assert(s == seq![s[0]] + t);
    }
}

// ---------------------------------------------------------------------------
// Putting together
// ---------------------------------------------------------------------------

/// Parts are joined with the separator between neighbours and nowhere else:
/// joining two runs of parts is joining each and putting the separator between.
pub proof fn law_join_of_two_runs(a: Seq<Seq<char>>, b: Seq<Seq<char>>, sep: Seq<char>, x: Seq<char>)
    requires
        a.len() > 0,
        b.len() > 0,
    ensures
        join_of(a + b, sep) == join_of(a, sep) + sep + join_of(b, sep),
        join_of(seq![x], sep) == x,
        join_of(Seq::empty(), sep) == Seq::<char>::empty(),
    decreases b.len(),
{
    let all = a + b;
    if b.len() == 1 {
        assert(all.drop_last() == a);
        assert(all.last() == b[0]);
        assert(join_of(b, sep) == b[0]);
    } else {
        assert(all.drop_last() == a + b.drop_last());
        assert(all.last() == b.last());
        law_join_of_two_runs(a, b.drop_last(), sep, x);
        assert(join_of(a, sep) + sep + join_of(b, sep) == join_of(a, sep) + sep + join_of(
            b.drop_last(),
            sep,
        ) + sep + b.last());
    }
}

/// Padding keeps the text whole and fills up to the width, with spaces behind it
/// or with the filling before it; a text that is wide enough stays.
pub proof fn law_padding_keeps_the_text(s: Seq<char>, width: nat, fill: char)
    ensures
        s.is_prefix_of(pad_right_of(s, width)),
        pad_right_of(s, width).len() == if s.len() < width {
            width
        } else {
            s.len()
        },
        forall|i: int|
            s.len() <= i < pad_right_of(s, width).len() ==> #[trigger] pad_right_of(s, width)[i]
                == ' ',
        s.is_suffix_of(pad_left_of(s, width, fill)),
        pad_left_of(s, width, fill).len() == if s.len() < width {
            width
        } else {
            s.len()
        },
        forall|i: int|
            0 <= i < pad_left_of(s, width, fill).len() - s.len() ==> #[trigger] pad_left_of(
                s,
                width,
                fill,
            )[i] == fill,
{
    let r = pad_right_of(s, width);
    let l = pad_left_of(s, width, fill);
    assert(r.subrange(0, s.len() as int) == s);
    assert(l.subrange(l.len() - s.len(), l.len() as int) == s);
}

} // verus!
