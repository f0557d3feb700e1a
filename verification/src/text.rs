//! Text as sequences of characters.
//!
//! Every function here works on the characters of a string, and its contract
//! relates the result to the mathematical sequence that the string views as.

use vstd::prelude::*;

verus! {

/// `String::push` of the standard library: appends one character to the end
/// of the string and changes nothing else.
pub assume_specification[ String::push ](s: &mut String, c: char)
    ensures
        final(s)@ == old(s)@.push(c),
;

/// The character sequences of a sequence of owned strings.
pub open spec fn texts(v: Seq<String>) -> Seq<Seq<char>> {
    v.map_values(|s: String| s@)
}

/// The character sequences of a sequence of borrowed strings.
pub open spec fn strs(v: Seq<&str>) -> Seq<Seq<char>> {
    v.map_values(|s: &str| s@)
}

/// The character sequence of an optional string.
pub open spec fn text_opt(s: Option<String>) -> Option<Seq<char>> {
    match s {
        Some(t) => Some(t@),
        None => None,
    }
}

/// The character sequence of an optional borrowed string.
pub open spec fn str_opt(s: Option<&str>) -> Option<Seq<char>> {
    match s {
        Some(t) => Some(t@),
        None => None,
    }
}

// ---------------------------------------------------------------------------
// Conversions
// ---------------------------------------------------------------------------

/// The characters of `s`.
pub fn to_chars(s: &str) -> (r: Vec<char>)
    ensures
        r@ == s@,
{
    let mut out: Vec<char> = Vec::new();
    for c in it: s.chars()
        invariant
            out@ == s@.take(it.index()),
            it.seq() == s@,
    {
        out.push(c);
    }
    assert(s@.take(s@.len() as int) == s@);
    out
}

/// The string of the characters `from..to` of `cs`.
pub fn from_chars(cs: &Vec<char>, from: usize, to: usize) -> (r: String)
    requires
        from <= to <= cs.len(),
    ensures
        r@ == cs@.subrange(from as int, to as int),
{
    let mut out: String = String::new();
    let mut i: usize = from;
    while i < to
        invariant
            from <= i <= to <= cs.len(),
            out@ == cs@.subrange(from as int, i as int),
        decreases to - i,
    {
        out.push(cs[i]);
        i += 1;
    }
    out
}

/// Whether the two strings hold the same characters.
pub fn same(a: &str, b: &str) -> (r: bool)
    ensures
        r == (a@ == b@),
{
    let x = to_chars(a);
    let y = to_chars(b);
    if x.len() != y.len() {
        return false;
    }
    let mut i: usize = 0;
    while i < x.len()
        invariant
            i <= x.len(),
            x.len() == y.len(),
            x@.take(i as int) == y@.take(i as int),
            x@ == a@,
            y@ == b@,
        decreases x.len() - i,
    {
        if x[i] != y[i] {
            assert(a@[i as int] != b@[i as int]);
            return false;
        }
        i += 1;
    }
    assert(x@.take(i as int) == x@);
    assert(y@.take(i as int) == y@);
    true
}

/// Whether one of the strings of `v` holds the characters of `s`.
pub fn contains_text(v: &Vec<String>, s: &str) -> (r: bool)
    ensures
        r == texts(v@).contains(s@),
{
    let mut i: usize = 0;
    while i < v.len()
        invariant
            i <= v.len(),
            forall|j: int| 0 <= j < i ==> #[trigger] v@[j]@ != s@,
        decreases v.len() - i,
    {
        if same(v[i].as_str(), s) {
            assert(texts(v@)[i as int] == s@);
            return true;
        }
        i += 1;
    }
    assert forall|j: int| 0 <= j < texts(v@).len() implies texts(v@)[j] != s@ by {
        assert(v@[j]@ != s@);
    }
    false
}

// ---------------------------------------------------------------------------
// Whitespace
// ---------------------------------------------------------------------------

/// The characters with the Unicode property `White_Space`.
pub open spec fn is_space(c: char) -> bool {
    let n = c as u32;
    ||| 0x9 <= n <= 0xd
    ||| n == 0x20
    ||| n == 0x85
    ||| n == 0xa0
    ||| n == 0x1680
    ||| 0x2000 <= n <= 0x200a
    ||| n == 0x2028
    ||| n == 0x2029
    ||| n == 0x202f
    ||| n == 0x205f
    ||| n == 0x3000
}

/// Whether `c` has the Unicode property `White_Space`.
pub fn is_whitespace(c: char) -> (r: bool)
    ensures
        r == is_space(c),
{
    let n: u32 = c as u32;
    (0x9 <= n && n <= 0xd) || n == 0x20 || n == 0x85 || n == 0xa0 || n == 0x1680 || (0x2000 <= n
        && n <= 0x200a) || n == 0x2028 || n == 0x2029 || n == 0x202f || n == 0x205f || n == 0x3000
}

// ---------------------------------------------------------------------------
// Trimming
// ---------------------------------------------------------------------------

/// `s` without the longest prefix whose characters all satisfy `p`.
pub open spec fn drop_front(s: Seq<char>, p: spec_fn(char) -> bool) -> Seq<char>
    decreases s.len(),
{
    if s.len() > 0 && p(s[0]) {
        drop_front(s.drop_first(), p)
    } else {
        s
    }
}

/// `s` without the longest suffix whose characters all satisfy `p`.
pub open spec fn drop_back(s: Seq<char>, p: spec_fn(char) -> bool) -> Seq<char>
    decreases s.len(),
{
    if s.len() > 0 && p(s.last()) {
        drop_back(s.drop_last(), p)
    } else {
        s
    }
}

/// The predicate of whitespace characters.
pub open spec fn space() -> spec_fn(char) -> bool {
    |c: char| is_space(c)
}

/// The predicate of the characters of `set`.
pub open spec fn one_of(set: Seq<char>) -> spec_fn(char) -> bool {
    |c: char| set.contains(c)
}

/// The predicate of the single character `c`.
pub open spec fn exactly(c: char) -> spec_fn(char) -> bool {
    |x: char| x == c
}

/// `s` without leading and trailing whitespace.
pub open spec fn trim_of(s: Seq<char>) -> Seq<char> {
    drop_back(drop_front(s, space()), space())
}

/// The end of the longest prefix of `cs` whose characters satisfy `f`.
fn front_end<F: Fn(char) -> bool>(cs: &Vec<char>, f: F, Ghost(p): Ghost<
    spec_fn(char) -> bool,
>) -> (n: usize)
    requires
        forall|c: char| f.requires((c,)),
        forall|c: char, b: bool| f.ensures((c,), b) ==> b == p(c),
    ensures
        n <= cs.len(),
        drop_front(cs@, p) == cs@.skip(n as int),
{
    let mut i: usize = 0;
    assert(cs@.skip(0) == cs@);
    while i < cs.len()
        invariant
            i <= cs.len(),
            forall|c: char| f.requires((c,)),
            forall|c: char, b: bool| f.ensures((c,), b) ==> b == p(c),
            drop_front(cs@, p) == drop_front(cs@.skip(i as int), p),
        decreases cs.len() - i,
    {
        if !f(cs[i]) {
            return i;
        }
        assert(cs@.skip(i as int).drop_first() == cs@.skip(i + 1));
        i += 1;
    }
    i
}

/// The start of the longest suffix of `cs[from..]` whose characters satisfy `f`.
fn back_start<F: Fn(char) -> bool>(cs: &Vec<char>, from: usize, f: F, Ghost(p): Ghost<
    spec_fn(char) -> bool,
>) -> (n: usize)
    requires
        from <= cs.len(),
        forall|c: char| f.requires((c,)),
        forall|c: char, b: bool| f.ensures((c,), b) ==> b == p(c),
    ensures
        from <= n <= cs.len(),
        drop_back(cs@.skip(from as int), p) == cs@.subrange(from as int, n as int),
{
    let mut j: usize = cs.len();
    assert(cs@.skip(from as int) == cs@.subrange(from as int, j as int));
    while j > from
        invariant
            from <= j <= cs.len(),
            forall|c: char| f.requires((c,)),
            forall|c: char, b: bool| f.ensures((c,), b) ==> b == p(c),
            drop_back(cs@.skip(from as int), p) == drop_back(
                cs@.subrange(from as int, j as int),
                p,
            ),
        decreases j,
    {
        if !f(cs[j - 1]) {
            return j;
        }
        assert(cs@.subrange(from as int, j as int).drop_last() == cs@.subrange(
            from as int,
            j - 1,
        ));
        j -= 1;
    }
    j
}

/// `s` without leading and trailing whitespace.
pub fn trim(s: &str) -> (r: String)
    ensures
        r@ == trim_of(s@),
{
    let cs = to_chars(s);
    let ghost p = space();
    let f = |c: char| -> (b: bool)
        ensures
            b == is_space(c),
        { is_whitespace(c) };
    let i: usize = front_end(&cs, f, Ghost(p));
    let j: usize = back_start(&cs, i, f, Ghost(p));
    from_chars(&cs, i, j)
}

/// `s` without its leading characters that occur in `set`.
pub open spec fn trim_start_of(s: Seq<char>, set: Seq<char>) -> Seq<char> {
    drop_front(s, one_of(set))
}

/// `s` without its trailing characters that occur in `set`.
pub open spec fn trim_end_of(s: Seq<char>, set: Seq<char>) -> Seq<char> {
    drop_back(s, one_of(set))
}

fn in_set(set: &[char], c: char) -> (r: bool)
    ensures
        r == set@.contains(c),
{
    let mut i: usize = 0;
    while i < set.len()
        invariant
            i <= set.len(),
            forall|j: int| 0 <= j < i ==> set@[j] != c,
        decreases set.len() - i,
    {
        if set[i] == c {
            return true;
        }
        i += 1;
    }
    false
}

/// `s` without its leading characters that occur in `set`.
pub fn trim_start_matches(s: &str, set: &[char]) -> (r: String)
    ensures
        r@ == trim_start_of(s@, set@),
{
    let cs = to_chars(s);
    let ghost p = one_of(set@);
    let f = |c: char| -> (b: bool)
        ensures
            b == set@.contains(c),
        { in_set(set, c) };
    let i: usize = front_end(&cs, f, Ghost(p));
    let n: usize = cs.len();
    from_chars(&cs, i, n)
}

/// `s` without its trailing characters that occur in `set`.
pub fn trim_end_matches(s: &str, set: &[char]) -> (r: String)
    ensures
        r@ == trim_end_of(s@, set@),
{
    let cs = to_chars(s);
    let ghost p = one_of(set@);
    let f = |c: char| -> (b: bool)
        ensures
            b == set@.contains(c),
        { in_set(set, c) };
    assert(cs@.skip(0) == cs@);
    let j: usize = back_start(&cs, 0, f, Ghost(p));
    from_chars(&cs, 0, j)
}

// ---------------------------------------------------------------------------
// Prefixes and suffixes
// ---------------------------------------------------------------------------

/// The rest of `s` behind the prefix `p`, or nothing if `s` does not start with `p`.
pub open spec fn after_prefix(s: Seq<char>, p: Seq<char>) -> Option<Seq<char>> {
    if p.is_prefix_of(s) {
        Some(s.skip(p.len() as int))
    } else {
        None
    }
}

/// Whether the characters of `p` stand in `cs` at position `at`.
fn matches_at(cs: &Vec<char>, at: usize, p: &Vec<char>) -> (r: bool)
    requires
        at <= cs.len(),
    ensures
        r == p@.is_prefix_of(cs@.skip(at as int)),
{
    if p.len() > cs.len() - at {
        return false;
    }
    let mut i: usize = 0;
    while i < p.len()
        invariant
            at <= cs.len(),
            i <= p.len() <= cs.len() - at,
            forall|j: int| 0 <= j < i ==> p@[j] == cs@[at + j],
        decreases p.len() - i,
    {
        if cs[at + i] != p[i] {
            assert(cs@.skip(at as int)[i as int] != p@[i as int]);
            return false;
        }
        i += 1;
    }
    assert(p@ == cs@.skip(at as int).subrange(0, p.len() as int));
    true
}

/// Whether `s` starts with `p`.
pub fn starts_with(s: &str, p: &str) -> (r: bool)
    ensures
        r == p@.is_prefix_of(s@),
{
    let cs = to_chars(s);
    let ps = to_chars(p);
    assert(cs@.skip(0) == cs@);
    matches_at(&cs, 0, &ps)
}

/// Whether `s` ends with `p`.
pub fn ends_with(s: &str, p: &str) -> (r: bool)
    ensures
        r == p@.is_suffix_of(s@),
{
    let cs = to_chars(s);
    let ps = to_chars(p);
    if ps.len() > cs.len() {
        return false;
    }
    let at: usize = cs.len() - ps.len();
    assert(cs@.skip(at as int) == cs@.subrange(cs@.len() - ps@.len(), cs@.len() as int));
    let r = matches_at(&cs, at, &ps);
    assert(r ==> ps@ == cs@.skip(at as int)) by {
        if r {
            assert(ps@ == cs@.skip(at as int).subrange(0, ps@.len() as int));
        }
    }
    r
}

/// The rest of `s` behind the prefix `p`.
pub fn strip_prefix(s: &str, p: &str) -> (r: Option<String>)
    ensures
        text_opt(r) == after_prefix(s@, p@),
{
    let cs = to_chars(s);
    let ps = to_chars(p);
    assert(cs@.skip(0) == cs@);
    if matches_at(&cs, 0, &ps) {
        let n: usize = cs.len();
        Some(from_chars(&cs, ps.len(), n))
    } else {
        None
    }
}

// ---------------------------------------------------------------------------
// Searching
// ---------------------------------------------------------------------------

/// The position of the first character of `s` that satisfies `p`, or the
/// length of `s` if there is none.
pub open spec fn first_where(s: Seq<char>, p: spec_fn(char) -> bool) -> nat
    decreases s.len(),
{
    if s.len() == 0 || p(s[0]) {
        0
    } else {
        1 + first_where(s.drop_first(), p)
    }
}

/// The position of the first `c` in `s`, or the length of `s` if there is none.
pub open spec fn first_char(s: Seq<char>, c: char) -> nat {
    first_where(s, exactly(c))
}

/// What `first_where` finds: nothing before it satisfies `p`, and it does.
pub proof fn lemma_first_where(s: Seq<char>, p: spec_fn(char) -> bool)
    ensures
        first_where(s, p) <= s.len(),
        forall|i: int| 0 <= i < first_where(s, p) ==> !p(#[trigger] s[i]),
        first_where(s, p) < s.len() ==> p(s[first_where(s, p) as int]),
    decreases s.len(),
{
    if s.len() > 0 && !p(s[0]) {
        lemma_first_where(s.drop_first(), p);
        assert forall|i: int| 0 <= i < first_where(s, p) implies !p(#[trigger] s[i]) by {
            if i > 0 {
                assert(s[i] == s.drop_first()[i - 1]);
            }
        }
    }
}

/// A position before which nothing satisfies `p`, and which does (or is the
/// end), is the one that `first_where` finds.
pub proof fn lemma_first_where_unique(s: Seq<char>, p: spec_fn(char) -> bool, k: nat)
    requires
        k <= s.len(),
        forall|i: int| 0 <= i < k ==> !p(#[trigger] s[i]),
        k < s.len() ==> p(s[k as int]),
    ensures
        first_where(s, p) == k,
{
    lemma_first_where(s, p);
    let f = first_where(s, p);
    if f < k {
        assert(!p(s[f as int]));
    } else if k < f {
        assert(!p(s[k as int]));
    }
}

/// The position of the first `c` in `cs` at or behind `from`.
fn find_from(cs: &Vec<char>, from: usize, c: char) -> (r: usize)
    requires
        from <= cs.len(),
    ensures
        from <= r <= cs.len(),
        r - from == first_char(cs@.skip(from as int), c),
{
    let mut i: usize = from;
    while i < cs.len()
        invariant
            from <= i <= cs.len(),
            forall|j: int| from <= j < i ==> cs@[j] != c,
        decreases cs.len() - i,
    {
        if cs[i] == c {
            proof {
                lemma_first_where_unique(
                    cs@.skip(from as int),
                    exactly(c),
                    (i - from) as nat,
                );
            }
            return i;
        }
        i += 1;
    }
    proof {
        lemma_first_where_unique(cs@.skip(from as int), exactly(c), (i - from) as nat);
    }
    i
}

/// Whether `c` occurs in `s`.
pub fn contains_char(s: &str, c: char) -> (r: bool)
    ensures
        r == s@.contains(c),
{
    let cs = to_chars(s);
    let mut i: usize = 0;
    while i < cs.len()
        invariant
            i <= cs.len(),
            cs@ == s@,
            forall|j: int| 0 <= j < i ==> cs@[j] != c,
        decreases cs.len() - i,
    {
        if cs[i] == c {
            assert(s@[i as int] == c);
            return true;
        }
        i += 1;
    }
    false
}

/// The parts of `s` before and behind the first `c`, or nothing if `s` has no `c`.
pub open spec fn split_once_of(s: Seq<char>, c: char) -> Option<(Seq<char>, Seq<char>)> {
    let k = first_char(s, c);
    if k < s.len() {
        Some((s.take(k as int), s.skip(k as int + 1)))
    } else {
        None
    }
}

/// The parts of `s` before and behind the first `c`.
pub fn split_once(s: &str, c: char) -> (r: Option<(String, String)>)
    ensures
        match r {
            Some(parts) => split_once_of(s@, c) == Some((parts.0@, parts.1@)),
            None => split_once_of(s@, c) is None,
        },
{
    let cs = to_chars(s);
    assert(cs@.skip(0) == cs@);
    let k: usize = find_from(&cs, 0, c);
    let n: usize = cs.len();
    if k < n {
        let head = from_chars(&cs, 0, k);
        let tail = from_chars(&cs, k + 1, n);
        assert(head@ == s@.take(k as int));
        assert(tail@ == s@.skip(k + 1));
        Some((head, tail))
    } else {
        None
    }
}

/// The position of the first occurrence of `pat` in `s`.
pub open spec fn find_of(s: Seq<char>, pat: Seq<char>) -> Option<nat>
    decreases s.len(),
{
    if pat.is_prefix_of(s) {
        Some(0)
    } else if s.len() == 0 {
        None
    } else {
        match find_of(s.drop_first(), pat) {
            Some(k) => Some(k + 1),
            None => None,
        }
    }
}

/// The position of the first occurrence of `pat` in `cs` at or behind `from`.
pub fn find_at(cs: &Vec<char>, from: usize, pat: &Vec<char>) -> (r: Option<usize>)
    requires
        from <= cs.len(),
    ensures
        match r {
            Some(k) => from <= k && find_of(cs@.skip(from as int), pat@) == Some((k - from) as nat)
                && k + pat.len() <= cs.len(),
            None => find_of(cs@.skip(from as int), pat@) is None,
        },
{
    let mut k: usize = from;
    loop
        invariant
            from <= k <= cs.len(),
            find_of(cs@.skip(from as int), pat@) == match find_of(cs@.skip(k as int), pat@) {
                Some(j) => Some((j + (k - from)) as nat),
                None => None,
            },
        decreases cs.len() - k,
    {
        if matches_at(cs, k, pat) {
            return Some(k);
        }
        if k == cs.len() {
            return None;
        }
        assert(cs@.skip(k as int).drop_first() == cs@.skip(k + 1));
        k += 1;
    }
}

// ---------------------------------------------------------------------------
// Lines and words
// ---------------------------------------------------------------------------

/// `s` without one carriage return at its end.
pub open spec fn drop_return(s: Seq<char>) -> Seq<char> {
    if s.len() > 0 && s.last() == '\r' {
        s.drop_last()
    } else {
        s
    }
}

/// The lines of `s`. A line ends at a line feed, which belongs to no line, nor
/// does a carriage return right before it. What follows the last line feed is
/// a line of its own unless it is empty.
pub open spec fn lines_of(s: Seq<char>) -> Seq<Seq<char>>
    decreases s.len(),
{
    if s.len() == 0 {
        Seq::empty()
    } else {
        let k = first_char(s, '\n');
        if k >= s.len() {
            seq![s]
        } else {
            seq![drop_return(s.take(k as int))] + lines_of(s.skip(k as int + 1))
        }
    }
}

/// The lines of `s`.
pub fn lines(s: &str) -> (r: Vec<String>)
    ensures
        texts(r@) == lines_of(s@),
{
    let cs = to_chars(s);
    let n: usize = cs.len();
    let mut out: Vec<String> = Vec::new();
    let mut i: usize = 0;
    assert(cs@.skip(0) == cs@);
    assert(texts(out@) + lines_of(s@) == lines_of(s@));
    while i < n
        invariant
            i <= n == cs.len(),
            cs@ == s@,
            lines_of(s@) == texts(out@) + lines_of(cs@.skip(i as int)),
        decreases n - i,
    {
        let ghost before = out@;
        let ghost rest = cs@.skip(i as int);
        let k: usize = find_from(&cs, i, '\n');
        if k == n {
            let line = from_chars(&cs, i, n);
            assert(line@ == rest);
            out.push(line);
            assert(texts(out@) == texts(before).push(rest));
            assert(cs@.skip(n as int).len() == 0);
            i = n;
            assert(lines_of(s@) == texts(out@) + lines_of(cs@.skip(i as int)));
        } else {
            let end: usize = if k > i && cs[k - 1] == '\r' {
                k - 1
            } else {
                k
            };
            let line = from_chars(&cs, i, end);
            assert(rest.take(k - i) == cs@.subrange(i as int, k as int));
            assert(line@ == drop_return(rest.take(k - i)));
            out.push(line);
            assert(texts(out@) == texts(before).push(line@));
            assert(rest.skip(k - i + 1) == cs@.skip(k + 1));
            i = k + 1;
            assert(lines_of(s@) == texts(out@) + lines_of(cs@.skip(i as int)));
        }
    }
    assert(cs@.skip(n as int).len() == 0);
    out
}

/// The words of `s`: its longest pieces without whitespace.
pub open spec fn words_of(s: Seq<char>) -> Seq<Seq<char>>
    decreases s.len(),
{
    if s.len() == 0 {
        Seq::empty()
    } else if is_space(s[0]) {
        words_of(s.drop_first())
    } else {
        let k = first_where(s, space());
        if k >= s.len() {
            seq![s]
        } else {
            seq![s.take(k as int)] + words_of(s.skip(k as int))
        }
    }
}

/// The words of `s`.
pub fn words(s: &str) -> (r: Vec<String>)
    ensures
        texts(r@) == words_of(s@),
{
    let cs = to_chars(s);
    let n: usize = cs.len();
    let mut out: Vec<String> = Vec::new();
    let mut i: usize = 0;
    assert(cs@.skip(0) == cs@);
    assert(texts(out@) + words_of(s@) == words_of(s@));
    while i < n
        invariant
            i <= n == cs.len(),
            cs@ == s@,
            words_of(s@) == texts(out@) + words_of(cs@.skip(i as int)),
        decreases n - i,
    {
        let ghost before = out@;
        let ghost rest = cs@.skip(i as int);
        if is_whitespace(cs[i]) {
            assert(rest.drop_first() == cs@.skip(i + 1));
            i += 1;
        } else {
            let mut k: usize = i;
            while k < n && !is_whitespace(cs[k])
                invariant
                    i <= k <= n == cs.len(),
                    forall|j: int| i <= j < k ==> !is_space(#[trigger] cs@[j]),
                decreases n - k,
            {
                k += 1;
            }
            proof {
                lemma_first_where_unique(rest, space(), (k - i) as nat);
                assert(k > i);
            }
            let word = from_chars(&cs, i, k);
            assert(word@ == rest.take(k - i));
            out.push(word);
            assert(texts(out@) == texts(before).push(word@));
            assert(rest.skip(k - i) == cs@.skip(k as int));
            assert(k == n ==> rest.take(k - i) == rest);
            assert(cs@.skip(n as int).len() == 0);
            i = k;
            assert(words_of(s@) == texts(out@) + words_of(cs@.skip(i as int)));
        }
    }
    assert(cs@.skip(n as int).len() == 0);
    out
}

// ---------------------------------------------------------------------------
// Building text
// ---------------------------------------------------------------------------

/// `s` with every occurrence of `pat` replaced by `with`, from left to right
/// and without overlaps.
pub open spec fn replace_of(s: Seq<char>, pat: Seq<char>, with: Seq<char>) -> Seq<char>
    decreases s.len(),
{
    if s.len() == 0 {
        Seq::empty()
    } else if pat.len() > 0 && pat.is_prefix_of(s) {
        with + replace_of(s.skip(pat.len() as int), pat, with)
    } else {
        seq![s[0]] + replace_of(s.drop_first(), pat, with)
    }
}

/// `s` with every occurrence of `pat` replaced by `with`.
pub fn replace(s: &str, pat: &str, with: &str) -> (r: String)
    requires
        pat@.len() > 0,
    ensures
        r@ == replace_of(s@, pat@, with@),
{
    let cs = to_chars(s);
    let ps = to_chars(pat);
    let n: usize = cs.len();
    let mut out: String = String::new();
    let mut i: usize = 0;
    assert(cs@.skip(0) == cs@);
    assert(out@ + replace_of(s@, pat@, with@) == replace_of(s@, pat@, with@));
    while i < n
        invariant
            i <= n == cs.len(),
            cs@ == s@,
            ps@ == pat@,
            pat@.len() > 0,
            replace_of(s@, pat@, with@) == out@ + replace_of(cs@.skip(i as int), pat@, with@),
        decreases n - i,
    {
        let ghost before = out@;
        let ghost rest = cs@.skip(i as int);
        if matches_at(&cs, i, &ps) {
            out.append(with);
            assert(rest.skip(pat@.len() as int) == cs@.skip(i + pat@.len()));
            i += ps.len();
            assert(out@ + replace_of(cs@.skip(i as int), pat@, with@) == before + (with@
                + replace_of(cs@.skip(i as int), pat@, with@)));
        } else {
            out.push(cs[i]);
            assert(rest.drop_first() == cs@.skip(i + 1));
            i += 1;
            assert(out@ + replace_of(cs@.skip(i as int), pat@, with@) == before + (seq![rest[0]]
                + replace_of(cs@.skip(i as int), pat@, with@)));
        }
    }
    assert(cs@.skip(n as int).len() == 0);
    out
}

/// The parts one after another, with `sep` between neighbours.
pub open spec fn join_of(parts: Seq<Seq<char>>, sep: Seq<char>) -> Seq<char>
    decreases parts.len(),
{
    if parts.len() == 0 {
        Seq::empty()
    } else if parts.len() == 1 {
        parts[0]
    } else {
        join_of(parts.drop_last(), sep) + sep + parts.last()
    }
}

/// The parts one after another, with `sep` between neighbours.
pub fn join(parts: &Vec<String>, sep: &str) -> (r: String)
    ensures
        r@ == join_of(texts(parts@), sep@),
{
    let mut out: String = String::new();
    let mut i: usize = 0;
    while i < parts.len()
        invariant
            i <= parts.len(),
            out@ == join_of(texts(parts@).take(i as int), sep@),
        decreases parts.len() - i,
    {
        if i > 0 {
            out.append(sep);
        }
        out.append(parts[i].as_str());
        assert(texts(parts@).take(i + 1).drop_last() == texts(parts@).take(i as int));
        assert(texts(parts@).take(i + 1).last() == parts@[i as int]@);
        i += 1;
    }
    assert(texts(parts@).take(i as int) == texts(parts@));
    out
}

/// `n` copies of the character `c`.
pub open spec fn repeat_of(c: char, n: nat) -> Seq<char> {
    Seq::new(n, |i: int| c)
}

/// `s` followed by as many spaces as it takes to reach `width` characters.
pub open spec fn pad_right_of(s: Seq<char>, width: nat) -> Seq<char> {
    s + repeat_of(' ', if s.len() < width { (width - s.len()) as nat } else { 0 })
}

/// As many copies of `fill` as it takes for `s` to reach `width` characters,
/// and then `s`.
pub open spec fn pad_left_of(s: Seq<char>, width: nat, fill: char) -> Seq<char> {
    repeat_of(fill, if s.len() < width { (width - s.len()) as nat } else { 0 }) + s
}

/// `n` copies of the character `c`.
pub fn repeat(c: char, n: usize) -> (r: String)
    ensures
        r@ == repeat_of(c, n as nat),
{
    let mut out: String = String::new();
    let mut i: usize = 0;
    while i < n
        invariant
            i <= n,
            out@ == repeat_of(c, i as nat),
        decreases n - i,
    {
        out.push(c);
        i += 1;
    }
    out
}

/// `s`, filled up with spaces behind it to at least `width` characters.
pub fn pad_right(s: &str, width: usize) -> (r: String)
    ensures
        r@ == pad_right_of(s@, width as nat),
{
    let n: usize = s.unicode_len();
    let fill = repeat(' ', if n < width { width - n } else { 0 });
    s.to_owned().concat(fill.as_str())
}

/// `s`, filled up with `fill` before it to at least `width` characters.
pub fn pad_left(s: &str, width: usize, fill: char) -> (r: String)
    ensures
        r@ == pad_left_of(s@, width as nat, fill),
{
    let n: usize = s.unicode_len();
    let head = repeat(fill, if n < width { width - n } else { 0 });
    head.concat(s)
}

/// The parts one after another, with `sep` between neighbours.
pub fn join_strs(parts: &[&str], sep: &str) -> (r: String)
    ensures
        r@ == join_of(strs(parts@), sep@),
{
    let mut out: String = String::new();
    let mut i: usize = 0;
    while i < parts.len()
        invariant
            i <= parts.len(),
            out@ == join_of(strs(parts@).take(i as int), sep@),
        decreases parts.len() - i,
    {
        if i > 0 {
            out.append(sep);
        }
        out.append(parts[i]);
        assert(strs(parts@).take(i + 1).drop_last() == strs(parts@).take(i as int));
        assert(strs(parts@).take(i + 1).last() == parts@[i as int]@);
        i += 1;
    }
    assert(strs(parts@).take(i as int) == strs(parts@));
    out
}

/// The pieces of `s` between the characters `c`, the empty ones too.
pub open spec fn split_of(s: Seq<char>, c: char) -> Seq<Seq<char>>
    decreases s.len(),
{
    let k = first_char(s, c);
    if k >= s.len() {
        seq![s]
    } else {
        seq![s.take(k as int)] + split_of(s.skip(k as int + 1), c)
    }
}

/// The pieces of `s` between the characters `c`.
pub fn split(s: &str, c: char) -> (r: Vec<String>)
    ensures
        texts(r@) == split_of(s@, c),
{
    let cs = to_chars(s);
    let n: usize = cs.len();
    let mut out: Vec<String> = Vec::new();
    let mut i: usize = 0;
    let mut k: usize = find_from(&cs, 0, c);
    assert(cs@.skip(0) == cs@);
    assert(texts(out@) + split_of(s@, c) == split_of(s@, c));
    while k < n
        invariant
            i <= k <= n == cs.len(),
            cs@ == s@,
            k - i == first_char(cs@.skip(i as int), c),
            split_of(s@, c) == texts(out@) + split_of(cs@.skip(i as int), c),
        decreases n - i,
    {
        let ghost before = out@;
        let ghost rest = cs@.skip(i as int);
        let piece = from_chars(&cs, i, k);
        assert(piece@ == rest.take(k - i));
        out.push(piece);
        assert(texts(out@) == texts(before).push(piece@));
        assert(rest.skip(k - i + 1) == cs@.skip(k + 1));
        i = k + 1;
        assert(split_of(s@, c) == texts(out@) + split_of(cs@.skip(i as int), c));
        k = find_from(&cs, i, c);
    }
    let ghost before = out@;
    let piece = from_chars(&cs, i, n);
    assert(piece@ == cs@.skip(i as int));
    out.push(piece);
    assert(texts(out@) == texts(before).push(piece@));
    out
}

} // verus!
