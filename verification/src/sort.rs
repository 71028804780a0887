//! Stable insertion sort, stated by the order in which it inserts.

use vstd::prelude::*;
use crate::text::{lex_le, str_le};

verus! {

/// `x` inserted into `s` after the last element `e` for which `le(e, x)`
/// holds once all later elements fail it: the step of a stable insertion
/// sort.
pub open spec fn ins<T>(s: Seq<T>, x: T, le: spec_fn(T, T) -> bool) -> Seq<T>
    decreases s.len(),
{
    if s.len() == 0 {
        seq![x]
    } else if le(s.last(), x) {
        s.push(x)
    } else {
        ins(s.drop_last(), x, le).push(s.last())
    }
}

/// The stable insertion sort of `s` by `le`.
pub open spec fn isort<T>(s: Seq<T>, le: spec_fn(T, T) -> bool) -> Seq<T>
    decreases s.len(),
{
    if s.len() == 0 {
        s
    } else {
        ins(isort(s.drop_last(), le), s.last(), le)
    }
}

/// The order of keyed pairs by their key, ascending or descending.
pub open spec fn keyed_le<V>(descending: bool) -> spec_fn((usize, V), (usize, V)) -> bool {
    |a: (usize, V), b: (usize, V)|
        if descending {
            a.0 >= b.0
        } else {
            a.0 <= b.0
        }
}

/// The order of `String`, as a relation.
pub open spec fn string_le() -> spec_fn(Seq<char>, Seq<char>) -> bool {
    |a: Seq<char>, b: Seq<char>| lex_le(a, b)
}

/// The order of elements by an integer key, ascending or descending.
pub open spec fn by_key<T>(key: spec_fn(T) -> int, descending: bool) -> spec_fn(T, T) -> bool {
    |a: T, b: T|
        if descending {
            key(a) >= key(b)
        } else {
            key(a) <= key(b)
        }
}

/// Each element paired with its key.
pub open spec fn key_pairs<T>(s: Seq<T>, key: spec_fn(T) -> int) -> Seq<(usize, T)> {
    s.map_values(|x: T| (key(x) as usize, x))
}

/// Every key of `s` fits in a `usize`.
pub open spec fn keys_fit<T>(s: Seq<T>, key: spec_fn(T) -> int) -> bool {
    forall|i: int| 0 <= i < s.len() ==> 0 <= #[trigger] key(s[i]) <= usize::MAX
}

proof fn lemma_ins_keyed<T>(t: Seq<T>, x: T, key: spec_fn(T) -> int, descending: bool)
    requires
        keys_fit(t, key),
        0 <= key(x) <= usize::MAX,
    ensures
        ins(key_pairs(t, key), (key(x) as usize, x), keyed_le::<T>(descending)) == key_pairs(
            ins(t, x, by_key(key, descending)),
            key,
        ),
        keys_fit(ins(t, x, by_key(key, descending)), key),
        ins(t, x, by_key(key, descending)).to_multiset() == t.to_multiset().insert(x),
    decreases t.len(),
{
    let kt = key_pairs(t, key);
    let le = by_key(key, descending);
    if t.len() == 0 {
        assert(kt.len() == 0);
        assert(key_pairs(seq![x], key) =~= seq![(key(x) as usize, x)]);
        assert(seq![x] =~= t.push(x));
        t.to_multiset_ensures();
    } else {
        assert(kt.last() == (key(t.last()) as usize, t.last()));
        if le(t.last(), x) {
            assert(key_pairs(t.push(x), key) =~= kt.push((key(x) as usize, x)));
            t.to_multiset_ensures();
        } else {
            let d = t.drop_last();
            assert(kt.drop_last() =~= key_pairs(d, key));
            assert(keys_fit(d, key)) by {
                assert forall|i: int| 0 <= i < d.len() implies 0 <= #[trigger] key(d[i])
                    <= usize::MAX by {
                    assert(d[i] == t[i]);
                }
            }
            lemma_ins_keyed(d, x, key, descending);
            let r = ins(d, x, le);
            assert(key_pairs(r.push(t.last()), key) =~= key_pairs(r, key).push(kt.last()));
            assert(keys_fit(r.push(t.last()), key)) by {
                assert forall|i: int| 0 <= i < r.len() + 1 implies 0 <= #[trigger] key(
                    r.push(t.last())[i],
                ) <= usize::MAX by {
                    if i < r.len() {
                        assert(r.push(t.last())[i] == r[i]);
                    } else {
                        assert(key(t[t.len() - 1]) <= usize::MAX);
                    }
                }
            }
            r.to_multiset_ensures();
            d.to_multiset_ensures();
            assert(t =~= d.push(t.last()));
            assert(r.push(t.last()).to_multiset() =~= t.to_multiset().insert(x));
        }
    }
}

/// Sorting keyed pairs by key sorts the elements by key; the sort keeps
/// the elements, counted with repetition.
pub proof fn lemma_isort_keyed<T>(s: Seq<T>, key: spec_fn(T) -> int, descending: bool)
    requires
        keys_fit(s, key),
    ensures
        isort(key_pairs(s, key), keyed_le::<T>(descending)) == key_pairs(
            isort(s, by_key(key, descending)),
            key,
        ),
        keys_fit(isort(s, by_key(key, descending)), key),
        isort(s, by_key(key, descending)).to_multiset() == s.to_multiset(),
    decreases s.len(),
{
    if s.len() > 0 {
        let d = s.drop_last();
        assert(keys_fit(d, key)) by {
            assert forall|i: int| 0 <= i < d.len() implies 0 <= #[trigger] key(d[i])
                <= usize::MAX by {
                assert(d[i] == s[i]);
            }
        }
        lemma_isort_keyed(d, key, descending);
        assert(key_pairs(s, key).drop_last() =~= key_pairs(d, key));
        assert(key_pairs(s, key).last() == (key(s.last()) as usize, s.last()));
        assert(key(s[s.len() - 1]) <= usize::MAX);
        lemma_ins_keyed(isort(d, by_key(key, descending)), s.last(), key, descending);
        d.to_multiset_ensures();
        assert(s =~= d.push(s.last()));
    }
}

/// The element of an option, as a sequence of at most one.
pub open spec fn opt_seq<T>(o: Option<T>) -> Seq<T> {
    match o {
        Some(a) => seq![a],
        None => Seq::empty(),
    }
}

/// Pairing with keys commutes with appending at most one element.
pub proof fn lemma_key_pairs_extend<T>(x: Seq<T>, o: Option<T>, key: spec_fn(T) -> int)
    requires
        keys_fit(x, key),
        o matches Some(a) ==> 0 <= key(a) <= usize::MAX,
    ensures
        key_pairs(x + opt_seq(o), key) == key_pairs(x, key) + opt_seq(
            match o {
                Some(a) => Some((key(a) as usize, a)),
                None => None,
            },
        ),
        keys_fit(x + opt_seq(o), key),
{
    assert(key_pairs(x + opt_seq(o), key) =~= key_pairs(x, key) + opt_seq(
        match o {
            Some(a) => Some((key(a) as usize, a)),
            None => None,
        },
    ));
    assert forall|i: int| 0 <= i < (x + opt_seq(o)).len() implies 0 <= #[trigger] key(
        (x + opt_seq(o))[i],
    ) <= usize::MAX by {
        if i < x.len() {
            assert((x + opt_seq(o))[i] == x[i]);
        }
    }
}

/// `le` is total and transitive.
pub open spec fn total_preorder<T>(le: spec_fn(T, T) -> bool) -> bool {
    &&& forall|a: T, b: T| #[trigger] le(a, b) || le(b, a)
    &&& forall|a: T, b: T, c: T| #[trigger] le(a, b) && #[trigger] le(b, c) ==> le(a, c)
}

/// `s` is ordered by `le`.
pub open spec fn sorted_by<T>(s: Seq<T>, le: spec_fn(T, T) -> bool) -> bool {
    forall|i: int, j: int| 0 <= i < j < s.len() ==> le(#[trigger] s[i], #[trigger] s[j])
}

/// An order by an integer key is total and transitive.
pub proof fn lemma_by_key_preorder<T>(key: spec_fn(T) -> int, descending: bool)
    ensures
        total_preorder(by_key(key, descending)),
{
}

proof fn lemma_ins_upper<T>(s: Seq<T>, x: T, le: spec_fn(T, T) -> bool, b: T)
    requires
        total_preorder(le),
        forall|i: int| 0 <= i < s.len() ==> le(#[trigger] s[i], b),
        le(x, b),
    ensures
        forall|i: int| 0 <= i < ins(s, x, le).len() ==> le(#[trigger] ins(s, x, le)[i], b),
        ins(s, x, le).len() == s.len() + 1,
    decreases s.len(),
{
    if s.len() > 0 && !le(s.last(), x) {
        let d = s.drop_last();
        assert forall|i: int| 0 <= i < d.len() implies le(#[trigger] d[i], b) by {
            assert(d[i] == s[i]);
        }
        lemma_ins_upper(d, x, le, b);
        let r = ins(d, x, le);
        assert forall|i: int| 0 <= i < r.push(s.last()).len() implies le(
            #[trigger] r.push(s.last())[i],
            b,
        ) by {
            if i < r.len() {
                assert(r.push(s.last())[i] == r[i]);
            } else {
                assert(le(s[s.len() - 1], b));
            }
        }
    }
}

/// Inserting into an ordered sequence keeps it ordered.
pub proof fn lemma_ins_sorted<T>(s: Seq<T>, x: T, le: spec_fn(T, T) -> bool)
    requires
        total_preorder(le),
        sorted_by(s, le),
    ensures
        sorted_by(ins(s, x, le), le),
    decreases s.len(),
{
    if s.len() == 0 {
    } else if le(s.last(), x) {
        let r = s.push(x);
        assert forall|i: int, j: int| 0 <= i < j < r.len() implies le(#[trigger] r[i], #[trigger] r[j]) by {
            if j < s.len() {
                assert(r[i] == s[i] && r[j] == s[j]);
            } else if i < s.len() - 1 {
                assert(le(s[i], s[s.len() - 1]));
                assert(r[i] == s[i]);
            }
        }
    } else {
        let d = s.drop_last();
        assert forall|i: int, j: int| 0 <= i < j < d.len() implies le(#[trigger] d[i], #[trigger] d[j]) by {
            assert(d[i] == s[i] && d[j] == s[j]);
        }
        lemma_ins_sorted(d, x, le);
        assert forall|i: int| 0 <= i < d.len() implies le(#[trigger] d[i], s.last()) by {
            assert(d[i] == s[i]);
            assert(le(s[i], s[s.len() - 1]));
        }
        assert(le(x, s.last()));
        lemma_ins_upper(d, x, le, s.last());
        let r = ins(d, x, le);
        let q = r.push(s.last());
        assert forall|i: int, j: int| 0 <= i < j < q.len() implies le(#[trigger] q[i], #[trigger] q[j]) by {
            if j < r.len() {
                assert(q[i] == r[i] && q[j] == r[j]);
            } else {
                assert(q[i] == r[i]);
                assert(le(r[i], s.last()));
            }
        }
    }
}

/// The insertion sort orders its result.
pub proof fn lemma_isort_sorted<T>(s: Seq<T>, le: spec_fn(T, T) -> bool)
    requires
        total_preorder(le),
    ensures
        sorted_by(isort(s, le), le),
        isort(s, le).len() == s.len(),
    decreases s.len(),
{
    if s.len() > 0 {
        lemma_isort_sorted(s.drop_last(), le);
        lemma_ins_sorted(isort(s.drop_last(), le), s.last(), le);
        lemma_ins_len(isort(s.drop_last(), le), s.last(), le);
    }
}

proof fn lemma_ins_len<T>(s: Seq<T>, x: T, le: spec_fn(T, T) -> bool)
    ensures
        ins(s, x, le).len() == s.len() + 1,
    decreases s.len(),
{
    if s.len() > 0 && !le(s.last(), x) {
        lemma_ins_len(s.drop_last(), x, le);
    }
}

/// Inserting adds the element, counted with repetition.
pub proof fn lemma_ins_multiset<T>(s: Seq<T>, x: T, le: spec_fn(T, T) -> bool)
    ensures
        ins(s, x, le).to_multiset() == s.to_multiset().insert(x),
    decreases s.len(),
{
    s.to_multiset_ensures();
    if s.len() == 0 {
        assert(seq![x] =~= s.push(x));
    } else if !le(s.last(), x) {
        let d = s.drop_last();
        lemma_ins_multiset(d, x, le);
        ins(d, x, le).to_multiset_ensures();
        d.to_multiset_ensures();
        assert(s =~= d.push(s.last()));
        assert(ins(d, x, le).push(s.last()).to_multiset() =~= s.to_multiset().insert(x));
    }
}

/// The insertion sort keeps the elements, counted with repetition.
pub proof fn lemma_isort_multiset<T>(s: Seq<T>, le: spec_fn(T, T) -> bool)
    ensures
        isort(s, le).to_multiset() == s.to_multiset(),
    decreases s.len(),
{
    if s.len() > 0 {
        let d = s.drop_last();
        lemma_isort_multiset(d, le);
        lemma_ins_multiset(isort(d, le), s.last(), le);
        d.to_multiset_ensures();
        assert(s =~= d.push(s.last()));
    }
}

/// Inserting at the position that the search finds is `ins`.
pub proof fn lemma_ins_at<T>(s: Seq<T>, x: T, le: spec_fn(T, T) -> bool, j: int)
    requires
        0 <= j <= s.len(),
        forall|k: int| j <= k < s.len() ==> !le(#[trigger] s[k], x),
        j == 0 || le(s[j - 1], x),
    ensures
        ins(s, x, le) == s.take(j).push(x) + s.skip(j),
    decreases s.len(),
{
    if s.len() == 0 {
        assert(s.take(j).push(x) + s.skip(j) =~= seq![x]);
    } else if j == s.len() {
        assert(s.take(j).push(x) + s.skip(j) =~= s.push(x));
    } else {
        let d = s.drop_last();
        assert forall|k: int| j <= k < d.len() implies !le(#[trigger] d[k], x) by {
            assert(d[k] == s[k]);
        }
        if j > 0 {
            assert(d[j - 1] == s[j - 1]);
        }
        lemma_ins_at(d, x, le, j);
        assert(!le(s[s.len() - 1], x));
        assert(s.take(j).push(x) + s.skip(j) =~= (d.take(j).push(x) + d.skip(j)).push(s.last()));
    }
}

fn key_le(a: usize, b: usize, descending: bool) -> (r: bool)
    ensures
        r == if descending {
            a >= b
        } else {
            a <= b
        },
{
    if descending {
        a >= b
    } else {
        a <= b
    }
}

/// Sorts keyed pairs by their key, stably, ascending or descending.
pub fn sort_keyed<T: DeepView>(items: Vec<(usize, T)>, descending: bool) -> (r: Vec<(usize, T)>)
    ensures
        r.deep_view() == isort(items.deep_view(), keyed_le::<T::V>(descending)),
{
    let ghost orig = items.deep_view();
    let mut rest = items;
    let mut out: Vec<(usize, T)> = Vec::new();
    let mut i: usize = 0;
    let n = rest.len();
    while rest.len() > 0
        invariant
            n == orig.len(),
            i + rest@.len() == n,
            rest.deep_view() =~= orig.skip(i as int),
            out.deep_view() == isort(orig.take(i as int), keyed_le::<T::V>(descending)),
        decreases rest@.len(),
    {
        let ghost rest_before = rest.deep_view();
        let ghost rv = rest@;
        let x = rest.remove(0);
        assert(rest_before[0] == rv[0].deep_view());
        assert(rest.deep_view() =~= rest_before.drop_first());
        assert(x.deep_view() == orig[i as int]);
        let mut j: usize = out.len();
        let ghost ov = out.deep_view();
        while j > 0 && !key_le(out[j - 1].0, x.0, descending)
            invariant
                j <= out@.len(),
                ov == out.deep_view(),
                forall|k: int| j <= k < ov.len() ==> !keyed_le::<T::V>(descending)(#[trigger] ov[k], x.deep_view()),
            decreases j,
        {
            assert(ov[j - 1] == out@[j - 1].deep_view());
            j = j - 1;
        }
        proof {
            if j > 0 {
                assert(ov[j - 1] == out@[j - 1].deep_view());
            }
            lemma_ins_at(ov, x.deep_view(), keyed_le::<T::V>(descending), j as int);
            assert(orig.take(i + 1).drop_last() =~= orig.take(i as int));
        }
        out.insert(j, x);
        assert(out.deep_view() =~= ov.take(j as int).push(x.deep_view()) + ov.skip(j as int));
        i = i + 1;
        assert(rest.deep_view() =~= orig.skip(i as int));
    }
    assert(orig.take(n as int) =~= orig);
    out
}

/// Sorts strings in the order of `String`, stably.
pub fn sort_strings(items: Vec<String>) -> (r: Vec<String>)
    ensures
        r.deep_view() == isort(items.deep_view(), string_le()),
{
    let ghost orig = items.deep_view();
    let mut rest = items;
    let mut out: Vec<String> = Vec::new();
    let mut i: usize = 0;
    let n = rest.len();
    while rest.len() > 0
        invariant
            n == orig.len(),
            i + rest@.len() == n,
            rest.deep_view() =~= orig.skip(i as int),
            out.deep_view() == isort(orig.take(i as int), string_le()),
        decreases rest@.len(),
    {
        let ghost rest_before = rest.deep_view();
        let ghost rv = rest@;
        let x = rest.remove(0);
        assert(rest_before[0] == rv[0].deep_view());
        assert(rest.deep_view() =~= rest_before.drop_first());
        assert(x@ == orig[i as int]);
        let mut j: usize = out.len();
        let ghost ov = out.deep_view();
        while j > 0 && !str_le(out[j - 1].as_str(), x.as_str())
            invariant
                j <= out@.len(),
                ov == out.deep_view(),
                forall|k: int| j <= k < ov.len() ==> !string_le()(#[trigger] ov[k], x@),
            decreases j,
        {
            assert(ov[j - 1] == out@[j - 1]@);
            j = j - 1;
        }
        proof {
            if j > 0 {
                assert(ov[j - 1] == out@[j - 1]@);
            }
            lemma_ins_at(ov, x@, string_le(), j as int);
            assert(orig.take(i + 1).drop_last() =~= orig.take(i as int));
        }
        out.insert(j, x);
        assert(out.deep_view() =~= ov.take(j as int).push(x@) + ov.skip(j as int));
        i = i + 1;
        assert(rest.deep_view() =~= orig.skip(i as int));
    }
    assert(orig.take(n as int) =~= orig);
    out
}

/// The order of keyed entries by their string key.
pub open spec fn entry_le<V>() -> spec_fn((Seq<char>, V), (Seq<char>, V)) -> bool {
    |a: (Seq<char>, V), b: (Seq<char>, V)| lex_le(a.0, b.0)
}

/// Sorts entries by their string key in the order of `String`, stably.
pub fn sort_entries<T: DeepView>(items: Vec<(String, T)>) -> (r: Vec<(String, T)>)
    ensures
        r.deep_view() == isort(items.deep_view(), entry_le::<T::V>()),
{
    let ghost orig = items.deep_view();
    let mut rest = items;
    let mut out: Vec<(String, T)> = Vec::new();
    let mut i: usize = 0;
    let n = rest.len();
    while rest.len() > 0
        invariant
            n == orig.len(),
            i + rest@.len() == n,
            rest.deep_view() =~= orig.skip(i as int),
            out.deep_view() == isort(orig.take(i as int), entry_le::<T::V>()),
        decreases rest@.len(),
    {
        let ghost rest_before = rest.deep_view();
        let ghost rv = rest@;
        let x = rest.remove(0);
        assert(rest_before[0] == rv[0].deep_view());
        assert(rest.deep_view() =~= rest_before.drop_first());
        assert(x.deep_view() == orig[i as int]);
        let mut j: usize = out.len();
        let ghost ov = out.deep_view();
        while j > 0 && !str_le(out[j - 1].0.as_str(), x.0.as_str())
            invariant
                j <= out@.len(),
                ov == out.deep_view(),
                forall|k: int| j <= k < ov.len() ==> !entry_le::<T::V>()(#[trigger] ov[k], x.deep_view()),
            decreases j,
        {
            assert(ov[j - 1] == out@[j - 1].deep_view());
            j = j - 1;
        }
        proof {
            if j > 0 {
                assert(ov[j - 1] == out@[j - 1].deep_view());
            }
            lemma_ins_at(ov, x.deep_view(), entry_le::<T::V>(), j as int);
            assert(orig.take(i + 1).drop_last() =~= orig.take(i as int));
        }
        out.insert(j, x);
        assert(out.deep_view() =~= ov.take(j as int).push(x.deep_view()) + ov.skip(j as int));
        i = i + 1;
        assert(rest.deep_view() =~= orig.skip(i as int));
    }
    assert(orig.take(n as int) =~= orig);
    out
}

} // verus!
