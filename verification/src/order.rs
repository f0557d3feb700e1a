//! The order of text: character by character, a prefix before what it starts.

use crate::text::to_chars;
use vstd::prelude::*;

verus! {

/// Whether `a` stands before `b` in lexicographic order of code points.
pub open spec fn before(a: Seq<char>, b: Seq<char>) -> bool
    decreases b.len(),
{
    if b.len() == 0 {
        false
    } else if a.len() == 0 {
        true
    } else if a[0] != b[0] {
        a[0] < b[0]
    } else {
        before(a.drop_first(), b.drop_first())
    }
}

/// Nothing stands before itself.
pub proof fn lemma_before_irreflexive(a: Seq<char>)
    ensures
        !before(a, a),
    decreases a.len(),
{
    if a.len() > 0 {
        lemma_before_irreflexive(a.drop_first());
    }
}

/// The order is transitive.
pub proof fn lemma_before_transitive(a: Seq<char>, b: Seq<char>, c: Seq<char>)
    requires
        before(a, b),
        before(b, c),
    ensures
        before(a, c),
    decreases c.len(),
{
    if a.len() > 0 && a[0] == b[0] && b[0] == c[0] {
        lemma_before_transitive(a.drop_first(), b.drop_first(), c.drop_first());
    }
}

/// Of two different texts one stands before the other.
pub proof fn lemma_before_total(a: Seq<char>, b: Seq<char>)
    ensures
        before(a, b) || before(b, a) || a == b,
    decreases a.len(),
{
    if a.len() > 0 && b.len() > 0 && a[0] == b[0] {
        lemma_before_total(a.drop_first(), b.drop_first());
        if a.drop_first() == b.drop_first() {
            assert(a == seq![a[0]] + a.drop_first());
            assert(b == seq![b[0]] + b.drop_first());
        }
    } else if a.len() == 0 && b.len() == 0 {
        assert(a == b);
    }
}

/// Whether each text stands before all that follow it.
pub open spec fn ascending(v: Seq<Seq<char>>) -> bool {
    forall|i: int, j: int| 0 <= i < j < v.len() ==> before(#[trigger] v[i], #[trigger] v[j])
}

/// Ascending texts are all different.
pub proof fn lemma_ascending_distinct(v: Seq<Seq<char>>)
    requires
        ascending(v),
    ensures
        v.no_duplicates(),
{
    assert forall|i: int, j: int| 0 <= i < v.len() && 0 <= j < v.len() && i != j implies v[i]
        != v[j] by {
        lemma_before_irreflexive(v[i]);
        if i < j {
            assert(before(v[i], v[j]));
        } else {
            assert(before(v[j], v[i]));
        }
    }
}

/// Ascending texts are determined by which texts they are.
pub proof fn lemma_ascending_unique(v: Seq<Seq<char>>, w: Seq<Seq<char>>)
    requires
        ascending(v),
        ascending(w),
        v.to_set() == w.to_set(),
    ensures
        v == w,
    decreases v.len(),
{
    if v.len() == 0 {
        if w.len() > 0 {
            assert(w.to_set().contains(w[0]));
            assert(v.contains(w[0]));
        }
    } else {
        let a = v.last();
        assert(v.to_set().contains(v[v.len() - 1]));
        assert(w.contains(a));
        let k = w.index_of(a);
        let b = w.last();
        assert(w.to_set().contains(w[w.len() - 1]));
        assert(v.contains(b));
        let j = v.index_of(b);
        if a != b {
            assert(before(w[k], w[w.len() - 1]));
            assert(before(v[j], v[v.len() - 1]));
            lemma_before_transitive(a, b, a);
            lemma_before_irreflexive(a);
        }
        let p = v.drop_last();
        let q = w.drop_last();
        lemma_ascending_distinct(v);
        lemma_ascending_distinct(w);
        assert forall|x: Seq<char>| p.to_set().contains(x) == q.to_set().contains(x) by {
            if p.contains(x) {
                let i = p.index_of(x);
                assert(v[i] == x);
                assert(v.to_set().contains(x));
                assert(w.contains(x));
                let n = w.index_of(x);
                assert(w[n] == x);
                assert(v[i] != v[v.len() - 1]);
                assert(q[n] == x);
            }
            if q.contains(x) {
                let i = q.index_of(x);
                assert(w[i] == x);
                assert(w.to_set().contains(x));
                assert(v.contains(x));
                let n = v.index_of(x);
                assert(v[n] == x);
                assert(w[i] != w[w.len() - 1]);
                assert(p[n] == x);
            }
        }
        assert(p.to_set() == q.to_set());
        assert(ascending(p)) by {
            assert forall|i: int, m: int| 0 <= i < m < p.len() implies before(
                #[trigger] p[i],
                #[trigger] p[m],
            ) by {
                assert(before(v[i], v[m]));
            }
        }
        assert(ascending(q)) by {
            assert forall|i: int, m: int| 0 <= i < m < q.len() implies before(
                #[trigger] q[i],
                #[trigger] q[m],
            ) by {
                assert(before(w[i], w[m]));
            }
        }
        lemma_ascending_unique(p, q);
        assert(v == p.push(a));
        assert(w == q.push(b));
    }
}

/// Whether `a` stands before `b`.
pub fn precedes(a: &str, b: &str) -> (r: bool)
    ensures
        r == before(a@, b@),
{
    let x = to_chars(a);
    let y = to_chars(b);
    let mut i: usize = 0;
    assert(x@.skip(0) == x@);
    assert(y@.skip(0) == y@);
    while i < x.len() && i < y.len()
        invariant
            i <= x.len(),
            i <= y.len(),
            x@ == a@,
            y@ == b@,
            before(a@, b@) == before(x@.skip(i as int), y@.skip(i as int)),
        decreases x.len() - i,
    {
        if x[i] != y[i] {
            return x[i] < y[i];
        }
        assert(x@.skip(i as int).drop_first() == x@.skip(i + 1));
        assert(y@.skip(i as int).drop_first() == y@.skip(i + 1));
        i += 1;
    }
    i < y.len()
}

/// The position of the first of the ascending texts `v` that does not stand
/// before `s`.
pub fn lower_bound(v: &Vec<String>, s: &str) -> (r: usize)
    requires
        ascending(crate::text::texts(v@)),
    ensures
        r <= v.len(),
        forall|i: int| 0 <= i < r ==> before(#[trigger] v@[i]@, s@),
        forall|i: int| r <= i < v.len() ==> !before(#[trigger] v@[i]@, s@),
{
    let ghost t = crate::text::texts(v@);
    let mut i: usize = 0;
    while i < v.len()
        invariant
            i <= v.len(),
            t == crate::text::texts(v@),
            ascending(t),
            forall|k: int| 0 <= k < i ==> before(#[trigger] v@[k]@, s@),
        decreases v.len() - i,
    {
        if !precedes(v[i].as_str(), s) {
            assert forall|k: int| i <= k < v.len() implies !before(#[trigger] v@[k]@, s@) by {
                if k > i && before(v@[k]@, s@) {
                    assert(before(t[i as int], t[k]));
                    lemma_before_transitive(t[i as int], t[k], s@);
                }
            }
            return i;
        }
        i += 1;
    }
    i
}

/// Adds `s` to the ascending texts `v`, unless it is there already.
pub fn insert_text(v: &mut Vec<String>, s: String)
    requires
        ascending(crate::text::texts(old(v)@)),
    ensures
        ascending(crate::text::texts(final(v)@)),
        crate::text::texts(final(v)@).to_set() == crate::text::texts(old(v)@).to_set().insert(s@),
{
    let ghost t = crate::text::texts(v@);
    let i: usize = lower_bound(v, s.as_str());
    if i < v.len() && crate::text::same(v[i].as_str(), s.as_str()) {
        assert(t[i as int] == s@);
        assert(t.to_set() == t.to_set().insert(s@));
        return;
    }
    let ghost c = s@;
    v.insert(i, s);
    let ghost u = crate::text::texts(v@);
    proof {
        assert(u == t.insert(i as int, c));
        if i < t.len() {
            lemma_before_total(t[i as int], c);
            assert(before(c, t[i as int]));
        }
        assert forall|a: int, b: int| 0 <= a < b < u.len() implies before(
            #[trigger] u[a],
            #[trigger] u[b],
        ) by {
            if a < i && b > i {
                assert(before(t[a], t[b - 1]));
            } else if a < i && b == i {
                assert(before(old(v)@[a]@, c));
            } else if a == i {
                if b > i + 1 {
                    lemma_before_transitive(c, t[i as int], t[b - 1]);
                }
            } else if a > i {
                assert(before(t[a - 1], t[b - 1]));
            }
        }
        assert(u[i as int] == c);
        assert forall|x: Seq<char>| u.to_set().contains(x) == t.to_set().insert(c).contains(x) by {
            if t.contains(x) {
                let k = t.index_of(x);
                if k < i {
                    assert(u[k] == x);
                } else {
                    assert(u[k + 1] == x);
                }
            }
            if u.contains(x) {
                let k = u.index_of(x);
                if k < i {
                    assert(t[k] == x);
                } else if k > i {
                    assert(t[k - 1] == x);
                }
            }
        }
        assert(u.to_set() == t.to_set().insert(c));
    }
}

} // verus!
