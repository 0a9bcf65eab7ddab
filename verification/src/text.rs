//! Text building blocks shared by the renderers: lexicographic order on
//! character sequences, sorted deduplicated lists, joining with separators,
//! and decimal numbering.

use vstd::prelude::*;

verus! {

/// Strict lexicographic order on character sequences by Unicode scalar
/// value: the order in which `String` comparison and B-tree iteration
/// present words.
pub open spec fn lex_lt(a: Seq<char>, b: Seq<char>) -> bool
    decreases a.len(),
{
    if b.len() == 0 {
        false
    } else if a.len() == 0 {
        true
    } else if a[0] == b[0] {
        lex_lt(a.drop_first(), b.drop_first())
    } else {
        (a[0] as u32) < (b[0] as u32)
    }
}

/// Distinct characters have distinct Unicode scalar values.
pub proof fn lemma_char_code_distinct(c: char, d: char)
    requires
        c != d,
    ensures
        c as u32 != d as u32,
{
}

pub proof fn lemma_lex_lt_irreflexive(a: Seq<char>)
    ensures
        !lex_lt(a, a),
    decreases a.len(),
{
    if a.len() > 0 {
        lemma_lex_lt_irreflexive(a.drop_first());
    }
}

/// Any two distinct character sequences are ordered one way or the other.
pub proof fn lemma_lex_lt_total(a: Seq<char>, b: Seq<char>)
    ensures
        a == b || lex_lt(a, b) || lex_lt(b, a),
    decreases a.len(),
{
    if a.len() == 0 && b.len() == 0 {
        assert(a =~= b);
    } else if a.len() > 0 && b.len() > 0 {
        if a[0] == b[0] {
            lemma_lex_lt_total(a.drop_first(), b.drop_first());
            if a.drop_first() == b.drop_first() {
                assert(a =~= seq![a[0]] + a.drop_first());
                assert(b =~= seq![b[0]] + b.drop_first());
            }
        } else {
            lemma_char_code_distinct(a[0], b[0]);
        }
    }
}

/// The order is asymmetric: never both `a < b` and `b < a`.
pub proof fn lemma_lex_lt_asym(a: Seq<char>, b: Seq<char>)
    ensures
        !(lex_lt(a, b) && lex_lt(b, a)),
    decreases a.len(),
{
    if a.len() > 0 && b.len() > 0 && a[0] == b[0] {
        lemma_lex_lt_asym(a.drop_first(), b.drop_first());
    }
}

pub proof fn lemma_lex_lt_trans(a: Seq<char>, b: Seq<char>, c: Seq<char>)
    requires
        lex_lt(a, b),
        lex_lt(b, c),
    ensures
        lex_lt(a, c),
    decreases a.len(),
{
    if a.len() > 0 && b.len() > 0 && c.len() > 0 {
        if a[0] == b[0] && b[0] == c[0] {
            lemma_lex_lt_trans(a.drop_first(), b.drop_first(), c.drop_first());
        }
    }
}

/// Dropping an equal prefix of both sequences does not change their order.
pub proof fn lemma_lex_lt_skip(a: Seq<char>, b: Seq<char>, k: int)
    requires
        0 <= k <= a.len(),
        k <= b.len(),
        forall|j: int| 0 <= j < k ==> a[j] == b[j],
    ensures
        lex_lt(a, b) == lex_lt(a.skip(k), b.skip(k)),
    decreases k,
{
    if k > 0 {
        assert(a.len() > 0 && b.len() > 0 && a[0] == b[0]);
        lemma_lex_lt_skip(a.drop_first(), b.drop_first(), k - 1);
        assert(a.drop_first().skip(k - 1) =~= a.skip(k));
        assert(b.drop_first().skip(k - 1) =~= b.skip(k));
    } else {
        assert(a.skip(0) =~= a);
        assert(b.skip(0) =~= b);
    }
}

/// Whether `a` and `b` hold the same characters, decided by one pass.
pub fn eq_chars(a: &Vec<char>, b: &Vec<char>) -> (r: bool)
    ensures
        r == (a@ == b@),
{
    if a.len() != b.len() {
        return false;
    }
    let n = a.len();
    let mut i: usize = 0;
    while i < n
        invariant
            0 <= i <= n,
            n == a@.len() == b@.len(),
            forall|j: int| 0 <= j < i ==> a@[j] == b@[j],
        decreases n - i,
    {
        if a[i] != b[i] {
            return false;
        }
        i = i + 1;
    }
    proof {
        assert(a@ =~= b@);
    }
    true
}

/// Decides `lex_lt(a@, b@)` by comparing scalar values left to right.
pub fn lt_chars(a: &Vec<char>, b: &Vec<char>) -> (r: bool)
    ensures
        r == lex_lt(a@, b@),
{
    let mut i: usize = 0;
    while i < a.len() && i < b.len()
        invariant
            0 <= i <= a@.len(),
            i <= b@.len(),
            forall|j: int| 0 <= j < i ==> a@[j] == b@[j],
        decreases a@.len() - i,
    {
        let x = a[i];
        let y = b[i];
        if x != y {
            proof {
                lemma_lex_lt_skip(a@, b@, i as int);
            }
            return (x as u32) < (y as u32);
        }
        i = i + 1;
    }
    proof {
        lemma_lex_lt_skip(a@, b@, i as int);
    }
    a.len() < b.len()
}

/// Appends every character of `src` to `dst`.
pub fn push_chars(dst: &mut Vec<char>, src: &Vec<char>)
    ensures
        final(dst)@ == old(dst)@ + src@,
{
    let mut i: usize = 0;
    while i < src.len()
        invariant
            0 <= i <= src@.len(),
            dst@ == old(dst)@ + src@.take(i as int),
        decreases src@.len() - i,
    {
        dst.push(src[i]);
        proof {
            assert(src@.take(i + 1 as int) =~= src@.take(i as int).push(src@[i as int]));
        }
        i = i + 1;
    }
    proof {
        assert(src@.take(src@.len() as int) =~= src@);
    }
}

/// The character sequences held by a vector of character vectors.
pub open spec fn views_of(s: Seq<Vec<char>>) -> Seq<Seq<char>> {
    s.map_values(|v: Vec<char>| v@)
}

/// Appending one vector appends its characters to the views.
pub proof fn lemma_views_push(s: Seq<Vec<char>>, x: Vec<char>)
    ensures
        views_of(s.push(x)) == views_of(s).push(x@),
{
    assert(views_of(s.push(x)) =~= views_of(s).push(x@));
}

/// A strictly ascending word list: sorted with no duplicates.
pub open spec fn strict_sorted(s: Seq<Seq<char>>) -> bool {
    forall|i: int, j: int| 0 <= i < j < s.len() ==> lex_lt(s[i], s[j])
}

/// `x` inserted at its place in the strictly sorted list `s`; a value
/// already present is not duplicated.
pub open spec fn insert_uniq(x: Seq<char>, s: Seq<Seq<char>>) -> Seq<Seq<char>>
    decreases s.len(),
{
    if s.len() == 0 {
        seq![x]
    } else if x == s[0] {
        s
    } else if lex_lt(x, s[0]) {
        seq![x] + s
    } else {
        seq![s[0]] + insert_uniq(x, s.drop_first())
    }
}

/// The strictly sorted, deduplicated list holding exactly the values of `s`.
pub open spec fn sort_uniq(s: Seq<Seq<char>>) -> Seq<Seq<char>>
    decreases s.len(),
{
    if s.len() == 0 {
        Seq::<Seq<char>>::empty()
    } else {
        insert_uniq(s.last(), sort_uniq(s.drop_last()))
    }
}

/// `s` with every occurrence of `w` removed, order kept.
pub open spec fn remove_all(s: Seq<Seq<char>>, w: Seq<char>) -> Seq<Seq<char>>
    decreases s.len(),
{
    if s.len() == 0 {
        Seq::<Seq<char>>::empty()
    } else if s.last() == w {
        remove_all(s.drop_last(), w)
    } else {
        remove_all(s.drop_last(), w).push(s.last())
    }
}

proof fn lemma_strict_sorted_drop_first(s: Seq<Seq<char>>)
    requires
        strict_sorted(s),
        s.len() > 0,
    ensures
        strict_sorted(s.drop_first()),
{
    assert forall|i: int, j: int| 0 <= i < j < s.drop_first().len() implies lex_lt(
        s.drop_first()[i],
        s.drop_first()[j],
    ) by {
        assert(s.drop_first()[i] == s[i + 1]);
        assert(s.drop_first()[j] == s[j + 1]);
    }
}

/// Inserting keeps the list strictly sorted and its values are exactly the
/// old values plus `x`.
#[verifier::rlimit(50)]
pub proof fn lemma_insert_uniq_props(x: Seq<char>, s: Seq<Seq<char>>)
    requires
        strict_sorted(s),
    ensures
        strict_sorted(insert_uniq(x, s)),
        insert_uniq(x, s).contains(x),
        forall|y: Seq<char>| insert_uniq(x, s).contains(y) <==> (y == x || s.contains(y)),
    decreases s.len(),
{
    let r = insert_uniq(x, s);
    if s.len() == 0 {
        assert forall|y: Seq<char>| r.contains(y) implies (y == x || s.contains(y)) by {
            let i = choose|i: int| 0 <= i < r.len() && r[i] == y;
            assert(r[0] == x);
        }
        assert(r[0] == x);
    } else if x == s[0] {
        assert(s.contains(x)) by {
            assert(s[0] == x);
        }
    } else if lex_lt(x, s[0]) {
        assert(r[0] == x);
        assert(r.contains(x));
        assert forall|i: int, j: int| 0 <= i < j < r.len() implies lex_lt(r[i], r[j]) by {
            assert(r[j] == s[j - 1]);
            if i == 0 {
                assert(r[0] == x);
                if j > 1 {
                    lemma_lex_lt_trans(x, s[0], s[j - 1]);
                }
            } else {
                assert(r[i] == s[i - 1]);
            }
        }
        assert forall|y: Seq<char>| r.contains(y) implies (y == x || s.contains(y)) by {
            let i = choose|i: int| 0 <= i < r.len() && r[i] == y;
            if i == 0 {
                assert(r[0] == x);
            } else {
                assert(r[i] == s[i - 1]);
            }
        }
        assert forall|y: Seq<char>| (y == x || s.contains(y)) implies r.contains(y) by {
            if y == x {
                assert(r[0] == x);
            } else {
                let i = choose|i: int| 0 <= i < s.len() && s[i] == y;
                assert(r[i + 1] == s[i]);
            }
        }
    } else {
        let t = s.drop_first();
        lemma_strict_sorted_drop_first(s);
        lemma_insert_uniq_props(x, t);
        let rt = insert_uniq(x, t);
        assert(r == seq![s[0]] + rt);
        lemma_lex_lt_total(x, s[0]);
        assert(lex_lt(s[0], x));
        assert(rt.contains(x));
        assert(r.contains(x)) by {
            let k = choose|k: int| 0 <= k < rt.len() && rt[k] == x;
            assert(r[k + 1] == rt[k]);
        }
        assert forall|i: int, j: int| 0 <= i < j < r.len() implies lex_lt(r[i], r[j]) by {
            assert(r[j] == rt[j - 1]);
            assert(rt.contains(rt[j - 1]));
            if i == 0 {
                assert(r[0] == s[0]);
                let y = rt[j - 1];
                if y == x {
                } else {
                    assert(t.contains(y));
                    let k = choose|k: int| 0 <= k < t.len() && t[k] == y;
                    assert(t[k] == s[k + 1]);
                }
            } else {
                assert(r[i] == rt[i - 1]);
            }
        }
        assert forall|y: Seq<char>| r.contains(y) implies (y == x || s.contains(y)) by {
            let i = choose|i: int| 0 <= i < r.len() && r[i] == y;
            if i == 0 {
                assert(s[0] == y);
            } else {
                assert(rt[i - 1] == y);
                assert(rt.contains(y));
                if y != x {
                    assert(t.contains(y));
                    let k = choose|k: int| 0 <= k < t.len() && t[k] == y;
                    assert(s[k + 1] == t[k]);
                    assert(s.contains(y));
                }
            }
        }
        assert forall|y: Seq<char>| (y == x || s.contains(y)) implies r.contains(y) by {
            if y == x {
                assert(r.contains(x));
            } else {
                let i = choose|i: int| 0 <= i < s.len() && s[i] == y;
                if i == 0 {
                    assert(r[0] == s[0]);
                } else {
                    assert(t[i - 1] == s[i]);
                    assert(t.contains(y));
                    assert(rt.contains(y));
                    let k = choose|k: int| 0 <= k < rt.len() && rt[k] == y;
                    assert(r[k + 1] == rt[k]);
                }
            }
        }
    }
}

/// Sorting yields a strictly sorted list over exactly the input's values.
#[verifier::rlimit(50)]
pub proof fn lemma_sort_uniq_props(s: Seq<Seq<char>>)
    ensures
        strict_sorted(sort_uniq(s)),
        forall|y: Seq<char>| sort_uniq(s).contains(y) <==> s.contains(y),
    decreases s.len(),
{
    if s.len() > 0 {
        let d = s.drop_last();
        lemma_sort_uniq_props(d);
        lemma_insert_uniq_props(s.last(), sort_uniq(d));
        let su = insert_uniq(s.last(), sort_uniq(d));
        assert(sort_uniq(s) == su);
        assert forall|y: Seq<char>| sort_uniq(s).contains(y) implies s.contains(y) by {
            assert(su.contains(y));
            assert(y == s.last() || sort_uniq(d).contains(y));
            if y == s.last() {
                assert(s[s.len() - 1] == y);
            } else {
                assert(d.contains(y));
                let i = choose|i: int| 0 <= i < d.len() && d[i] == y;
                assert(s[i] == d[i]);
            }
            assert(s.contains(y));
        }
        assert forall|y: Seq<char>| s.contains(y) implies sort_uniq(s).contains(y) by {
            let i = choose|i: int| 0 <= i < s.len() && s[i] == y;
            if i < s.len() - 1 {
                assert(d[i] == s[i]);
                assert(d.contains(y));
                assert(sort_uniq(d).contains(y));
            } else {
                assert(y == s.last());
                assert(su.contains(s.last()));
            }
            assert(su.contains(y));
        }
    }
}

/// Removing a value keeps a strictly sorted list strictly sorted, and the
/// values kept are exactly the others.
#[verifier::rlimit(50)]
pub proof fn lemma_remove_all_props(s: Seq<Seq<char>>, w: Seq<char>)
    requires
        strict_sorted(s),
    ensures
        strict_sorted(remove_all(s, w)),
        forall|y: Seq<char>| remove_all(s, w).contains(y) <==> (s.contains(y) && y != w),
    decreases s.len(),
{
    let r = remove_all(s, w);
    if s.len() > 0 {
        let d = s.drop_last();
        assert(strict_sorted(d)) by {
            assert forall|i: int, j: int| 0 <= i < j < d.len() implies lex_lt(d[i], d[j]) by {
                assert(d[i] == s[i] && d[j] == s[j]);
            }
        }
        lemma_remove_all_props(d, w);
        let rd = remove_all(d, w);
        assert forall|y: Seq<char>| d.contains(y) implies s.contains(y) by {
            let i = choose|i: int| 0 <= i < d.len() && d[i] == y;
            assert(s[i] == d[i]);
        }
        if s.last() == w {
            assert(r == rd);
            assert forall|y: Seq<char>| (s.contains(y) && y != w) implies r.contains(y) by {
                let i = choose|i: int| 0 <= i < s.len() && s[i] == y;
                assert(i < s.len() - 1);
                assert(d[i] == s[i]);
                assert(d.contains(y));
                assert(rd.contains(y));
            }
        } else {
            assert(r == rd.push(s.last()));
            assert forall|i: int, j: int| 0 <= i < j < r.len() implies lex_lt(r[i], r[j]) by {
                if j < r.len() - 1 {
                    assert(r[i] == rd[i] && r[j] == rd[j]);
                } else {
                    assert(r[j] == s.last());
                    if i < r.len() - 1 {
                        assert(r[i] == rd[i]);
                        assert(rd.contains(rd[i]));
                        assert(d.contains(r[i]));
                        let k = choose|k: int| 0 <= k < d.len() && d[k] == r[i];
                        assert(s[k] == d[k]);
                        assert(lex_lt(s[k], s[s.len() - 1]));
                    }
                }
            }
            assert forall|y: Seq<char>| r.contains(y) implies (s.contains(y) && y != w) by {
                let i = choose|i: int| 0 <= i < r.len() && r[i] == y;
                if i < r.len() - 1 {
                    assert(rd[i] == y);
                    assert(rd.contains(y));
                } else {
                    assert(y == s.last());
                    assert(s[s.len() - 1] == y);
                    assert(lex_lt(s[s.len() - 1], s[s.len() - 1]) == false) by {
                        lemma_lex_lt_irreflexive(s[s.len() - 1]);
                    }
                }
            }
            assert forall|y: Seq<char>| (s.contains(y) && y != w) implies r.contains(y) by {
                let i = choose|i: int| 0 <= i < s.len() && s[i] == y;
                if i < s.len() - 1 {
                    assert(d[i] == s[i]);
                    assert(d.contains(y));
                    assert(rd.contains(y));
                    let k = choose|k: int| 0 <= k < rd.len() && rd[k] == y;
                    assert(r[k] == rd[k]);
                } else {
                    assert(r[r.len() - 1] == y);
                }
            }
        }
    }
}

/// In a sorted list whose first `i` members are below `x`, inserting `x`
/// happens entirely in the part from `i` on.
pub proof fn lemma_insert_uniq_split(x: Seq<char>, s: Seq<Seq<char>>, i: int)
    requires
        strict_sorted(s),
        0 <= i <= s.len(),
        forall|j: int| 0 <= j < i ==> lex_lt(s[j], x),
    ensures
        insert_uniq(x, s) == s.take(i) + insert_uniq(x, s.skip(i)),
    decreases i,
{
    if i == 0 {
        assert(s.skip(0) =~= s);
        assert(s.take(0) + insert_uniq(x, s) =~= insert_uniq(x, s));
    } else {
        assert(lex_lt(s[0], x));
        assert(x != s[0]) by {
            lemma_lex_lt_irreflexive(x);
        }
        assert(!lex_lt(x, s[0])) by {
            lemma_lex_lt_asym(x, s[0]);
        }
        let t = s.drop_first();
        lemma_strict_sorted_drop_first(s);
        assert forall|j: int| 0 <= j < i - 1 implies lex_lt(t[j], x) by {
            assert(t[j] == s[j + 1]);
        }
        lemma_insert_uniq_split(x, t, i - 1);
        assert(t.skip(i - 1) =~= s.skip(i));
        assert(insert_uniq(x, s) == seq![s[0]] + insert_uniq(x, t));
        assert(seq![s[0]] + (t.take(i - 1) + insert_uniq(x, s.skip(i))) =~= s.take(i)
            + insert_uniq(x, s.skip(i)));
    }
}

/// Inserts a copy of `x` at its place in the strictly sorted vector `r`;
/// a value already present is not added again.
pub fn insert_uniq_vec(r: &mut Vec<Vec<char>>, x: Vec<char>)
    requires
        strict_sorted(views_of(old(r)@)),
    ensures
        views_of(final(r)@) == insert_uniq(x@, views_of(old(r)@)),
{
    let ghost s0 = views_of(old(r)@);
    let mut i: usize = 0;
    while i < r.len() && lt_chars(&r[i], &x)
        invariant
            r@ == old(r)@,
            0 <= i <= r@.len(),
            s0 == views_of(r@),
            s0.len() == r@.len(),
            forall|j: int| 0 <= j < i ==> lex_lt(s0[j], x@),
        decreases r@.len() - i,
    {
        proof {
            assert(s0[i as int] == r@[i as int]@);
        }
        i = i + 1;
    }
    proof {
        lemma_insert_uniq_split(x@, s0, i as int);
        if i < r.len() {
            assert(s0[i as int] == r@[i as int]@);
            assert(s0.skip(i as int)[0] == s0[i as int]);
        }
    }
    if i < r.len() {
        if eq_chars(&r[i], &x) {
            proof {
                assert(insert_uniq(x@, s0.skip(i as int)) == s0.skip(i as int));
                assert(s0.take(i as int) + s0.skip(i as int) =~= s0);
                assert(views_of(r@) == insert_uniq(x@, s0));
            }
        } else {
            proof {
                assert(x@ != s0[i as int]);
                assert(!lex_lt(s0[i as int], x@));
                lemma_lex_lt_total(x@, s0[i as int]);
                assert(lex_lt(x@, s0[i as int]));
                assert(insert_uniq(x@, s0.skip(i as int)) == seq![x@] + s0.skip(i as int));
            }
            let ghost xv = x@;
            r.insert(i, x);
            proof {
                assert(views_of(r@) =~= s0.take(i as int) + (seq![xv] + s0.skip(i as int))) by {
                    assert(r@ == old(r)@.insert(i as int, x));
                    assert forall|k: int| 0 <= k < r@.len() implies views_of(r@)[k] == (s0.take(
                        i as int,
                    ) + (seq![xv] + s0.skip(i as int)))[k] by {
                        assert(views_of(r@)[k] == r@[k]@);
                        if k < i {
                            assert(r@[k] == old(r)@[k]);
                            assert(s0[k] == old(r)@[k]@);
                        } else if k == i {
                            assert(r@[k] == x);
                        } else {
                            assert(r@[k] == old(r)@[k - 1]);
                            assert(s0[k - 1] == old(r)@[k - 1]@);
                        }
                    }
                }
            }
        }
    } else {
        let ghost xv = x@;
        r.push(x);
        proof {
            assert(s0.skip(i as int).len() == 0);
            assert(insert_uniq(x@, s0.skip(i as int)) == seq![xv]);
            assert(views_of(r@) =~= s0.take(i as int) + seq![xv]) by {
                assert(r@ == old(r)@.push(x));
                assert forall|k: int| 0 <= k < r@.len() implies views_of(r@)[k] == (s0.take(
                    i as int,
                ) + seq![xv])[k] by {
                    assert(views_of(r@)[k] == r@[k]@);
                    if k < i {
                        assert(r@[k] == old(r)@[k]);
                        assert(s0[k] == old(r)@[k]@);
                    } else {
                        assert(r@[k] == x);
                    }
                }
            }
        }
    }
}

/// A copy of the characters of `v`.
pub fn clone_chars(v: &Vec<char>) -> (r: Vec<char>)
    ensures
        r@ == v@,
{
    let mut r: Vec<char> = Vec::new();
    push_chars(&mut r, v);
    proof {
        assert(r@ =~= v@);
    }
    r
}

/// Sorts the words ascending and removes duplicates.
pub fn sort_uniq_vec(v: &Vec<Vec<char>>) -> (r: Vec<Vec<char>>)
    ensures
        views_of(r@) == sort_uniq(views_of(v@)),
        strict_sorted(views_of(r@)),
{
    let ghost sv = views_of(v@);
    let mut r: Vec<Vec<char>> = Vec::new();
    proof {
        assert(views_of(r@) =~= sort_uniq(sv.take(0)));
    }
    let mut i: usize = 0;
    while i < v.len()
        invariant
            0 <= i <= v@.len(),
            sv == views_of(v@),
            sv.len() == v@.len(),
            views_of(r@) == sort_uniq(sv.take(i as int)),
            strict_sorted(views_of(r@)),
        decreases v@.len() - i,
    {
        let x = clone_chars(&v[i]);
        proof {
            assert(x@ == sv[i as int]);
        }
        insert_uniq_vec(&mut r, x);
        proof {
            lemma_insert_uniq_props(x@, sort_uniq(sv.take(i as int)));
            assert(sv.take(i + 1 as int).drop_last() =~= sv.take(i as int));
            assert(sv.take(i + 1 as int).last() == sv[i as int]);
            assert(sort_uniq(sv.take(i + 1 as int)) == insert_uniq(
                sv[i as int],
                sort_uniq(sv.take(i as int)),
            ));
        }
        i = i + 1;
    }
    proof {
        assert(sv.take(sv.len() as int) =~= sv);
    }
    r
}

/// Removes every copy of `w` from the word list.
pub fn remove_all_vec(v: &Vec<Vec<char>>, w: &Vec<char>) -> (r: Vec<Vec<char>>)
    ensures
        views_of(r@) == remove_all(views_of(v@), w@),
{
    let ghost sv = views_of(v@);
    let mut r: Vec<Vec<char>> = Vec::new();
    proof {
        assert(views_of(r@) =~= remove_all(sv.take(0), w@));
    }
    let mut i: usize = 0;
    while i < v.len()
        invariant
            0 <= i <= v@.len(),
            sv == views_of(v@),
            sv.len() == v@.len(),
            views_of(r@) == remove_all(sv.take(i as int), w@),
        decreases v@.len() - i,
    {
        proof {
            assert(sv.take(i + 1 as int).drop_last() =~= sv.take(i as int));
            assert(sv.take(i + 1 as int).last() == sv[i as int]);
            assert(sv[i as int] == v@[i as int]@);
        }
        if !eq_chars(&v[i], w) {
            let x = clone_chars(&v[i]);
            let ghost rpre = views_of(r@);
            let ghost rv = r@;
            r.push(x);
            proof {
                assert(views_of(r@) =~= rpre.push(v@[i as int]@)) by {
                    assert forall|k: int| 0 <= k < r@.len() implies views_of(r@)[k] == rpre.push(
                        v@[i as int]@,
                    )[k] by {
                        assert(views_of(r@)[k] == r@[k]@);
                        if k < r@.len() - 1 {
                            assert(r@[k] == rv[k]);
                            assert(rpre[k] == rv[k]@);
                        }
                    }
                }
            }
        }
        i = i + 1;
    }
    proof {
        assert(sv.take(sv.len() as int) =~= sv);
    }
    r
}

/// The members of `parts` joined with `sep` between neighbours.
pub open spec fn joined(parts: Seq<Seq<char>>, sep: Seq<char>) -> Seq<char>
    decreases parts.len(),
{
    if parts.len() == 0 {
        Seq::<char>::empty()
    } else if parts.len() == 1 {
        parts[0]
    } else {
        joined(parts.drop_last(), sep) + sep + parts.last()
    }
}

/// Joins the parts with the separator between neighbours.
pub fn join_with(parts: &Vec<Vec<char>>, sep: &Vec<char>) -> (r: Vec<char>)
    ensures
        r@ == joined(views_of(parts@), sep@),
{
    let ghost pv = views_of(parts@);
    let mut r: Vec<char> = Vec::new();
    let mut i: usize = 0;
    while i < parts.len()
        invariant
            0 <= i <= parts@.len(),
            pv == views_of(parts@),
            pv.len() == parts@.len(),
            r@ == joined(pv.take(i as int), sep@),
        decreases parts@.len() - i,
    {
        proof {
            assert(pv.take(i + 1 as int).drop_last() =~= pv.take(i as int));
            assert(pv.take(i + 1 as int).last() == pv[i as int]);
            assert(pv[i as int] == parts@[i as int]@);
            if i == 0 {
                assert(joined(pv.take(1), sep@) == pv.take(1)[0]);
            }
        }
        if i > 0 {
            push_chars(&mut r, sep);
        }
        push_chars(&mut r, &parts[i]);
        proof {
            if i == 0 {
                assert(r@ =~= pv[0]);
            }
        }
        i = i + 1;
    }
    proof {
        assert(pv.take(pv.len() as int) =~= pv);
    }
    r
}

/// Underscores rendered as spaces, every other character kept.
pub open spec fn despaced(s: Seq<char>) -> Seq<char> {
    s.map_values(|c: char| if c == '_' { ' ' } else { c })
}

/// Replaces each underscore with a space.
pub fn despace(v: &Vec<char>) -> (r: Vec<char>)
    ensures
        r@ == despaced(v@),
{
    let mut r: Vec<char> = Vec::new();
    let mut i: usize = 0;
    while i < v.len()
        invariant
            0 <= i <= v@.len(),
            r@.len() == i,
            forall|j: int| 0 <= j < i ==> r@[j] == despaced(v@)[j],
        decreases v@.len() - i,
    {
        let c = v[i];
        if c == '_' {
            r.push(' ');
        } else {
            r.push(c);
        }
        i = i + 1;
    }
    proof {
        assert(r@ =~= despaced(v@));
    }
    r
}

/// The decimal digit character for `d`.
pub open spec fn digit_char(d: int) -> char {
    if d == 0 {
        '0'
    } else if d == 1 {
        '1'
    } else if d == 2 {
        '2'
    } else if d == 3 {
        '3'
    } else if d == 4 {
        '4'
    } else if d == 5 {
        '5'
    } else if d == 6 {
        '6'
    } else if d == 7 {
        '7'
    } else if d == 8 {
        '8'
    } else {
        '9'
    }
}

/// The decimal numeral for `n`, most significant digit first.
pub open spec fn dec_rep(n: int) -> Seq<char>
    decreases n,
{
    if n < 10 {
        seq![digit_char(n)]
    } else {
        dec_rep(n / 10).push(digit_char(n % 10))
    }
}

fn digit_of(d: u64) -> (c: char)
    requires
        d < 10,
    ensures
        c == digit_char(d as int),
{
    if d == 0 {
        '0'
    } else if d == 1 {
        '1'
    } else if d == 2 {
        '2'
    } else if d == 3 {
        '3'
    } else if d == 4 {
        '4'
    } else if d == 5 {
        '5'
    } else if d == 6 {
        '6'
    } else if d == 7 {
        '7'
    } else if d == 8 {
        '8'
    } else {
        '9'
    }
}

/// The decimal numeral of `n`.
pub fn dec_chars(n: u64) -> (r: Vec<char>)
    ensures
        r@ == dec_rep(n as int),
    decreases n,
{
    if n < 10 {
        let mut r: Vec<char> = Vec::new();
        r.push(digit_of(n));
        proof {
            assert(r@ =~= seq![digit_char(n as int)]);
        }
        r
    } else {
        let mut r = dec_chars(n / 10);
        r.push(digit_of(n % 10));
        r
    }
}

} // verus!
