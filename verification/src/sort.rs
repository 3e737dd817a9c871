//! Stable insertion sort of keyed items, and the orders the crate sorts by:
//! character sequences by code point, and path components the way
//! `std::path::Path` orders them.

use vstd::prelude::*;

verus! {

/// An executable sort key whose view carries a total preorder: `ordered(a, b)`
/// means a key with view `a` sorts no later than one with view `b`.
pub trait SortKey: View + Sized {
    spec fn ordered(a: Self::V, b: Self::V) -> bool;

    proof fn ordered_total(a: Self::V, b: Self::V)
        ensures
            Self::ordered(a, b) || Self::ordered(b, a),
    ;

    proof fn ordered_transitive(a: Self::V, b: Self::V, c: Self::V)
        requires
            Self::ordered(a, b),
            Self::ordered(b, c),
        ensures
            Self::ordered(a, c),
    ;

    fn key_ordered(&self, other: &Self) -> (r: bool)
        ensures
            r == Self::ordered(self@, other@),
    ;
}

/// `x` inserted into `s` after every item whose key sorts no later than
/// `x`'s, scanning from the back.
pub open spec fn insert_sorted<V, T>(s: Seq<(V, T)>, x: (V, T), le: spec_fn(V, V) -> bool) -> Seq<(V, T)>
    decreases s.len(),
{
    if s.len() == 0 {
        seq![x]
    } else if le(s.last().0, x.0) {
        s.push(x)
    } else {
        insert_sorted(s.drop_last(), x, le).push(s.last())
    }
}

/// The stable sort of `s` by key: items taken in order and each inserted
/// after all earlier items whose key does not sort after its own.
pub open spec fn stable_sorted<V, T>(s: Seq<(V, T)>, le: spec_fn(V, V) -> bool) -> Seq<(V, T)>
    decreases s.len(),
{
    if s.len() == 0 {
        seq![]
    } else {
        insert_sorted(stable_sorted(s.drop_last(), le), s.last(), le)
    }
}

/// Keys never decrease along `s`.
pub open spec fn keys_sorted<V, T>(s: Seq<(V, T)>, le: spec_fn(V, V) -> bool) -> bool {
    forall|i: int, j: int| 0 <= i < j < s.len() ==> le((#[trigger] s[i]).0, (#[trigger] s[j]).0)
}

/// A keyed item seen through its key's view.
pub open spec fn key_view<K: View, T>(p: (K, T)) -> (K::V, T) {
    (p.0@, p.1)
}

/// Sort keyed items by key, keeping the input order among equal keys.
pub fn stable_sort_by_key<K: SortKey, T>(items: Vec<(K, T)>) -> (r: Vec<(K, T)>)
    ensures
        r@.map_values(|p: (K, T)| key_view(p)) == stable_sorted(
            items@.map_values(|p: (K, T)| key_view(p)),
            |a: K::V, b: K::V| K::ordered(a, b),
        ),
{
    let ghost le = |a: K::V, b: K::V| K::ordered(a, b);
    let ghost src = items@.map_values(|p: (K, T)| key_view(p));
    let mut out: Vec<(K, T)> = Vec::new();
    for x in it: items
        invariant
            it.seq().map_values(|p: (K, T)| key_view(p)) == src,
            le == (|a: K::V, b: K::V| K::ordered(a, b)),
            out@.map_values(|p: (K, T)| key_view(p)) == stable_sorted(src.take(it.index() as int), le),
    {
        let ghost xv = key_view(x);
        let ghost ov = out@.map_values(|p: (K, T)| key_view(p));
        proof {
            assert(src.take(it.index() + 1).drop_last() == src.take(it.index() as int));
            assert(src[it.index() as int] == xv);
            assert(src.take(it.index() + 1).last() == xv);
        }
        let mut j = out.len();
        proof {
            assert(ov.take(j as int) == ov);
            assert(ov.skip(j as int) == Seq::<(K::V, T)>::empty());
        }
        while j > 0 && !out[j - 1].0.key_ordered(&x.0)
            invariant
                j <= out.len(),
                ov == out@.map_values(|p: (K, T)| key_view(p)),
                xv == key_view(x),
                le == (|a: K::V, b: K::V| K::ordered(a, b)),
                insert_sorted(ov, xv, le) == insert_sorted(ov.take(j as int), xv, le) + ov.skip(
                    j as int,
                ),
            decreases j,
        {
            proof {
                let t = ov.take(j as int);
                assert(t.drop_last() == ov.take(j - 1));
                assert(t.last() == ov[j - 1]);
                assert(ov[j - 1].0 == out@[j - 1].0@);
                assert(ov.skip(j - 1) == seq![ov[j - 1]] + ov.skip(j as int));
                assert(insert_sorted(ov.take(j - 1), xv, le).push(ov[j - 1]) + ov.skip(j as int)
                    == insert_sorted(ov.take(j - 1), xv, le) + ov.skip(j - 1));
            }
            j = j - 1;
        }
        proof {
            if j == 0 {
                assert(ov.take(0) == Seq::<(K::V, T)>::empty());
            } else {
                assert(ov.take(j as int).last() == ov[j - 1]);
                assert(ov[j - 1].0 == out@[j - 1].0@);
            }
            assert(ov.take(j as int).push(xv) + ov.skip(j as int) == ov.insert(j as int, xv));
        }
        out.insert(j, x);
        proof {
            assert(out@.map_values(|p: (K, T)| key_view(p)) == ov.insert(j as int, xv));
        }
    }
    proof {
        assert(src.take(src.len() as int) == src);
    }
    out
}

/// `le` is a total preorder.
pub open spec fn total_preorder<V>(le: spec_fn(V, V) -> bool) -> bool {
    &&& forall|a: V, b: V| #[trigger] le(a, b) || le(b, a)
    &&& forall|a: V, b: V, c: V| #[trigger] le(a, b) && #[trigger] le(b, c) ==> le(a, c)
}

proof fn lemma_insert_bounded<V, T>(s: Seq<(V, T)>, x: (V, T), le: spec_fn(V, V) -> bool, bound: V)
    requires
        forall|i: int| 0 <= i < s.len() ==> le(#[trigger] s[i].0, bound),
        le(x.0, bound),
    ensures
        forall|i: int|
            0 <= i < insert_sorted(s, x, le).len() ==> le(#[trigger] insert_sorted(s, x, le)[i].0, bound),
    decreases s.len(),
{
    if s.len() > 0 && !le(s.last().0, x.0) {
        lemma_insert_bounded(s.drop_last(), x, le, bound);
        let r = insert_sorted(s.drop_last(), x, le);
        assert forall|i: int| 0 <= i < r.push(s.last()).len() implies le(
            #[trigger] r.push(s.last())[i].0,
            bound,
        ) by {
            if i < r.len() {
                assert(r.push(s.last())[i] == r[i]);
            }
        }
    }
}

proof fn lemma_insert_sorted_keeps_order<V, T>(s: Seq<(V, T)>, x: (V, T), le: spec_fn(V, V) -> bool)
    requires
        total_preorder(le),
        keys_sorted(s, le),
    ensures
        keys_sorted(insert_sorted(s, x, le), le),
        insert_sorted(s, x, le).to_multiset() == s.to_multiset().insert(x),
    decreases s.len(),
{
    broadcast use vstd::seq_lib::group_to_multiset_ensures;

    if s.len() == 0 {
        assert(seq![x] == Seq::<(V, T)>::empty().push(x));
    } else {
        let last = s.last();
        let t = s.drop_last();
        assert(s == t.push(last));
        if le(last.0, x.0) {
            let r = s.push(x);
            assert forall|i: int, j: int| 0 <= i < j < r.len() implies le(
                (#[trigger] r[i]).0,
                (#[trigger] r[j]).0,
            ) by {
                if j == s.len() {
                    if i < s.len() - 1 {
                        assert(le(s[i].0, last.0));
                    }
                } else {
                    assert(r[i] == s[i] && r[j] == s[j]);
                }
            }
        } else {
            assert(le(x.0, last.0));
            assert(keys_sorted(t, le)) by {
                assert forall|i: int, j: int| 0 <= i < j < t.len() implies le(
                    (#[trigger] t[i]).0,
                    (#[trigger] t[j]).0,
                ) by {
                    assert(t[i] == s[i] && t[j] == s[j]);
                }
            }
            lemma_insert_sorted_keeps_order(t, x, le);
            let m = insert_sorted(t, x, le);
            assert forall|i: int| 0 <= i < t.len() implies le(#[trigger] t[i].0, last.0) by {
                assert(t[i] == s[i]);
                assert(s[s.len() - 1] == last);
            }
            lemma_insert_bounded(t, x, le, last.0);
            let r = m.push(last);
            assert forall|i: int, j: int| 0 <= i < j < r.len() implies le(
                (#[trigger] r[i]).0,
                (#[trigger] r[j]).0,
            ) by {
                if j == m.len() {
                    assert(r[i] == m[i]);
                    assert(le(m[i].0, last.0));
                } else {
                    assert(r[i] == m[i] && r[j] == m[j]);
                }
            }
        }
    }
}

/// Law: the stable sort orders keys (given a total preorder) and only
/// rearranges its input.
pub proof fn lemma_stable_sorted_is_sorted_permutation<V, T>(
    s: Seq<(V, T)>,
    le: spec_fn(V, V) -> bool,
)
    requires
        total_preorder(le),
    ensures
        keys_sorted(stable_sorted(s, le), le),
        stable_sorted(s, le).to_multiset() == s.to_multiset(),
    decreases s.len(),
{
    broadcast use vstd::seq_lib::group_to_multiset_ensures;

    if s.len() > 0 {
        lemma_stable_sorted_is_sorted_permutation(s.drop_last(), le);
        lemma_insert_sorted_keeps_order(stable_sorted(s.drop_last(), le), s.last(), le);
        assert(s == s.drop_last().push(s.last()));
    }
}

/// Lexicographic comparison by code point: negative, zero or positive.
pub open spec fn chars_order(a: Seq<char>, b: Seq<char>) -> int
    decreases a.len(),
{
    if a.len() == 0 {
        if b.len() == 0 {
            0
        } else {
            -1
        }
    } else if b.len() == 0 {
        1
    } else if a[0] < b[0] {
        -1
    } else if a[0] > b[0] {
        1
    } else {
        chars_order(a.drop_first(), b.drop_first())
    }
}

/// Compare two character sequences lexicographically by code point.
pub fn compare_chars(a: &Vec<char>, b: &Vec<char>) -> (r: i8)
    ensures
        r == chars_order(a@, b@),
{
    let mut i: usize = 0;
    proof {
        assert(a@.skip(0) == a@);
        assert(b@.skip(0) == b@);
    }
    loop
        invariant
            i <= a.len(),
            i <= b.len(),
            chars_order(a@, b@) == chars_order(a@.skip(i as int), b@.skip(i as int)),
        decreases a.len() - i,
    {
        if i == a.len() {
            if i == b.len() {
                return 0;
            }
            return -1;
        }
        if i == b.len() {
            return 1;
        }
        let x = a[i];
        let y = b[i];
        if x < y {
            return -1;
        }
        if x > y {
            return 1;
        }
        proof {
            assert(a@.skip(i as int).drop_first() == a@.skip(i + 1));
            assert(b@.skip(i as int).drop_first() == b@.skip(i + 1));
        }
        i = i + 1;
    }
}

pub proof fn lemma_chars_order_antisymmetric(a: Seq<char>, b: Seq<char>)
    ensures
        chars_order(a, b) == -chars_order(b, a),
        chars_order(a, b) == 0 <==> a == b,
        -1 <= chars_order(a, b) <= 1,
    decreases a.len(),
{
    if a.len() == 0 || b.len() == 0 {
        if a.len() != b.len() {
            assert(a != b);
        } else {
            assert(a == b);
        }
    } else if a[0] != b[0] {
        assert(a[0] != b[0]);
        assert(a != b);
    } else {
        assert(a[0] == b[0]);
        lemma_chars_order_antisymmetric(a.drop_first(), b.drop_first());
        assert(a == seq![a[0]] + a.drop_first());
        assert(b == seq![b[0]] + b.drop_first());
        if a == b {
            assert(a.drop_first() == b.drop_first());
        }
    }
}

pub proof fn lemma_chars_order_transitive(a: Seq<char>, b: Seq<char>, c: Seq<char>)
    requires
        chars_order(a, b) <= 0,
        chars_order(b, c) <= 0,
    ensures
        chars_order(a, c) <= 0,
        chars_order(a, b) < 0 || chars_order(b, c) < 0 ==> chars_order(a, c) < 0,
    decreases a.len(),
{
    lemma_chars_order_antisymmetric(a, b);
    lemma_chars_order_antisymmetric(b, c);
    lemma_chars_order_antisymmetric(a, c);
    if a.len() == 0 {
    } else if b.len() == 0 {
    } else if c.len() == 0 {
    } else {
        let (x, y, z) = (a[0], b[0], c[0]);
        if x == y && y == z {
            lemma_chars_order_transitive(a.drop_first(), b.drop_first(), c.drop_first());
        }
    }
}


/// `a` sorts strictly before `b` in dictionary order by code point: `a` is a
/// proper prefix of `b`, or at the first position where they differ `a`
/// has the smaller character.
pub open spec fn lex_less(a: Seq<char>, b: Seq<char>) -> bool {
    ||| (a.len() < b.len() && b.take(a.len() as int) == a)
    ||| exists|k: int| 0 <= k < a.len() && k < b.len() && a.take(k) == b.take(k) && #[trigger] a[k] < b[k]
}

proof fn lemma_lex_less_tail(a: Seq<char>, b: Seq<char>)
    requires
        a.len() > 0,
        b.len() > 0,
        a[0] == b[0],
    ensures
        lex_less(a, b) <==> lex_less(a.drop_first(), b.drop_first()),
{
    let (a1, b1) = (a.drop_first(), b.drop_first());
    if a.len() < b.len() && b.take(a.len() as int) == a {
        assert(b1.take(a1.len() as int) =~= a1);
    }
    if a1.len() < b1.len() && b1.take(a1.len() as int) == a1 {
        assert forall|i: int| 0 <= i < a.len() implies #[trigger] b.take(a.len() as int)[i] == a[i] by {
            if i > 0 {
                assert(b1.take(a1.len() as int)[i - 1] == a1[i - 1]);
            }
        }
        assert(b.take(a.len() as int) =~= a);
    }
    if exists|k: int| 0 <= k < a.len() && k < b.len() && a.take(k) == b.take(k) && #[trigger] a[k] < b[k] {
        let k = choose|k: int| 0 <= k < a.len() && k < b.len() && a.take(k) == b.take(k) && #[trigger] a[k] < b[k];
        assert(k > 0);
        assert(a1.take(k - 1) =~= b1.take(k - 1)) by {
            assert forall|i: int| 0 <= i < k - 1 implies #[trigger] a1.take(k - 1)[i] == b1.take(k - 1)[i] by {
                assert(a.take(k)[i + 1] == b.take(k)[i + 1]);
            }
        }
        assert(a1[k - 1] < b1[k - 1]);
    }
    if exists|k: int| 0 <= k < a1.len() && k < b1.len() && a1.take(k) == b1.take(k) && #[trigger] a1[k] < b1[k] {
        let k = choose|k: int| 0 <= k < a1.len() && k < b1.len() && a1.take(k) == b1.take(k) && #[trigger] a1[k] < b1[k];
        assert(a.take(k + 1) =~= b.take(k + 1)) by {
            assert forall|i: int| 0 <= i < k + 1 implies #[trigger] a.take(k + 1)[i] == b.take(k + 1)[i] by {
                if i > 0 {
                    assert(a1.take(k)[i - 1] == b1.take(k)[i - 1]);
                }
            }
        }
        assert(a[k + 1] < b[k + 1]);
    }
}

/// Law: `chars_order` is dictionary order by code point: negative exactly
/// when `a` sorts strictly before `b`, zero exactly when they are equal,
/// positive exactly when `b` sorts strictly before `a`.
pub proof fn lemma_chars_order_is_dictionary_order(a: Seq<char>, b: Seq<char>)
    ensures
        chars_order(a, b) < 0 <==> lex_less(a, b),
        chars_order(a, b) == 0 <==> a == b,
        chars_order(a, b) > 0 <==> lex_less(b, a),
    decreases a.len(),
{
    lemma_chars_order_antisymmetric(a, b);
    if a.len() == 0 || b.len() == 0 {
        if a.len() == 0 && b.len() > 0 {
            assert(b.take(0) =~= a);
        }
        if b.len() == 0 && a.len() > 0 {
            assert(a.take(0) =~= b);
        }
    } else if a[0] != b[0] {
        if a[0] < b[0] {
            assert(a.take(0) =~= b.take(0));
            assert(a[0] < b[0]);
            assert(!lex_less(b, a)) by {
                if b.len() < a.len() && a.take(b.len() as int) == b {
                    assert(a.take(b.len() as int)[0] == b[0]);
                }
                if exists|k: int| 0 <= k < b.len() && k < a.len() && b.take(k) == a.take(k) && #[trigger] b[k] < a[k] {
                    let k = choose|k: int| 0 <= k < b.len() && k < a.len() && b.take(k) == a.take(k) && #[trigger] b[k] < a[k];
                    if k > 0 {
                        assert(b.take(k)[0] == a.take(k)[0]);
                    }
                }
            }
        } else {
            assert(b.take(0) =~= a.take(0));
            assert(b[0] < a[0]);
            assert(!lex_less(a, b)) by {
                if a.len() < b.len() && b.take(a.len() as int) == a {
                    assert(b.take(a.len() as int)[0] == a[0]);
                }
                if exists|k: int| 0 <= k < a.len() && k < b.len() && a.take(k) == b.take(k) && #[trigger] a[k] < b[k] {
                    let k = choose|k: int| 0 <= k < a.len() && k < b.len() && a.take(k) == b.take(k) && #[trigger] a[k] < b[k];
                    if k > 0 {
                        assert(a.take(k)[0] == b.take(k)[0]);
                    }
                }
            }
        }
    } else {
        lemma_chars_order_is_dictionary_order(a.drop_first(), b.drop_first());
        lemma_lex_less_tail(a, b);
        lemma_lex_less_tail(b, a);
        assert(a == seq![a[0]] + a.drop_first());
        assert(b == seq![b[0]] + b.drop_first());
        if a.drop_first() == b.drop_first() {
            assert(a == b);
        }
    }
}

} // verus!
