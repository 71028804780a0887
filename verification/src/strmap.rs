//! A map from strings to values that keeps its keys in the order in which
//! they were first inserted, each key at most once.

use vstd::prelude::*;
use crate::text::{clone_strings, str_eq};

verus! {

/// No key occurs twice in `s`.
pub open spec fn keys_unique<W>(s: Seq<(Seq<char>, W)>) -> bool {
    forall|i: int, j: int|
        0 <= i < s.len() && 0 <= j < s.len() && i != j ==> #[trigger] s[i].0 != #[trigger] s[j].0
}

/// The position of the first entry of `s` whose key is `k`.
pub open spec fn key_pos<W>(s: Seq<(Seq<char>, W)>, k: Seq<char>) -> Option<int>
    decreases s.len(),
{
    if s.len() == 0 {
        None
    } else if s[0].0 == k {
        Some(0)
    } else {
        match key_pos(s.drop_first(), k) {
            Some(p) => Some(p + 1),
            None => None,
        }
    }
}

/// Whether some entry of `s` has the key `k`.
pub open spec fn has_key<W>(s: Seq<(Seq<char>, W)>, k: Seq<char>) -> bool {
    key_pos(s, k) is Some
}

/// The value of the first entry of `s` whose key is `k`.
pub open spec fn lookup<W>(s: Seq<(Seq<char>, W)>, k: Seq<char>) -> Option<W> {
    match key_pos(s, k) {
        Some(p) => Some(s[p].1),
        None => None,
    }
}

/// `s` with the value of key `k` set to `v`: in place where `k` occurs,
/// at the end otherwise.
pub open spec fn map_insert<W>(s: Seq<(Seq<char>, W)>, k: Seq<char>, v: W) -> Seq<(Seq<char>, W)> {
    match key_pos(s, k) {
        Some(p) => s.update(p, (k, v)),
        None => s.push((k, v)),
    }
}

/// What `key_pos` is, stated without recursion.
pub proof fn lemma_key_pos<W>(s: Seq<(Seq<char>, W)>, k: Seq<char>)
    ensures
        match key_pos(s, k) {
            Some(p) => 0 <= p < s.len() && s[p].0 == k && forall|j: int|
                0 <= j < p ==> s[j].0 != k,
            None => forall|j: int| 0 <= j < s.len() ==> s[j].0 != k,
        },
    decreases s.len(),
{
    if s.len() > 0 && s[0].0 != k {
        lemma_key_pos(s.drop_first(), k);
        match key_pos(s.drop_first(), k) {
            Some(p) => {
                assert forall|j: int| 0 <= j < p + 1 implies s[j].0 != k by {
                    if j > 0 {
                        assert(s[j] == s.drop_first()[j - 1]);
                    }
                }
            },
            None => {
                assert forall|j: int| 0 <= j < s.len() implies s[j].0 != k by {
                    if j > 0 {
                        assert(s[j] == s.drop_first()[j - 1]);
                    }
                }
            },
        }
    }
}

/// `key_pos` is the first position that holds the key.
pub proof fn lemma_key_pos_is<W>(s: Seq<(Seq<char>, W)>, k: Seq<char>, p: int)
    requires
        0 <= p < s.len(),
        s[p].0 == k,
        forall|j: int| 0 <= j < p ==> s[j].0 != k,
    ensures
        key_pos(s, k) == Some(p),
{
    lemma_key_pos(s, k);
}

/// A key that no entry holds has no position.
pub proof fn lemma_key_pos_none<W>(s: Seq<(Seq<char>, W)>, k: Seq<char>)
    requires
        forall|j: int| 0 <= j < s.len() ==> s[j].0 != k,
    ensures
        key_pos(s, k) is None,
{
    lemma_key_pos(s, k);
}

/// The position of a key after appending an entry.
pub proof fn lemma_key_pos_push<W>(s: Seq<(Seq<char>, W)>, e: (Seq<char>, W), k: Seq<char>)
    ensures
        key_pos(s.push(e), k) == match key_pos(s, k) {
            Some(p) => Some(p),
            None => if e.0 == k {
                Some(s.len() as int)
            } else {
                None::<int>
            },
        },
{
    lemma_key_pos(s, k);
    let t = s.push(e);
    match key_pos(s, k) {
        Some(p) => {
            assert(t[p] == s[p]);
            assert forall|j: int| 0 <= j < p implies t[j].0 != k by {
                assert(t[j] == s[j]);
            }
            lemma_key_pos_is(t, k, p);
        },
        None => {
            if e.0 == k {
                assert forall|j: int| 0 <= j < s.len() implies t[j].0 != k by {
                    assert(t[j] == s[j]);
                }
                lemma_key_pos_is(t, k, s.len() as int);
            } else {
                assert forall|j: int| 0 <= j < t.len() implies t[j].0 != k by {
                    if j < s.len() {
                        assert(t[j] == s[j]);
                    }
                }
                lemma_key_pos_none(t, k);
            }
        },
    }
}

/// Setting a key keeps the keys unique.
pub proof fn lemma_map_insert_unique<W>(s: Seq<(Seq<char>, W)>, k: Seq<char>, v: W)
    requires
        keys_unique(s),
    ensures
        keys_unique(map_insert(s, k, v)),
{
    lemma_key_pos(s, k);
    let t = map_insert(s, k, v);
    match key_pos(s, k) {
        Some(p) => {
            assert forall|i: int, j: int|
                0 <= i < t.len() && 0 <= j < t.len() && i != j implies #[trigger] t[i].0
                != #[trigger] t[j].0 by {
                assert(s[i].0 != s[j].0);
            }
        },
        None => {
            assert forall|i: int, j: int|
                0 <= i < t.len() && 0 <= j < t.len() && i != j implies #[trigger] t[i].0
                != #[trigger] t[j].0 by {
                if i < s.len() && j < s.len() {
                    assert(s[i].0 != s[j].0);
                }
            }
        },
    }
}

/// In a map with unique keys, each entry is what its key looks up.
pub proof fn lemma_lookup_entry<W>(s: Seq<(Seq<char>, W)>, i: int)
    requires
        keys_unique(s),
        0 <= i < s.len(),
    ensures
        lookup(s, s[i].0) == Some(s[i].1),
        has_key(s, s[i].0),
{
    assert forall|j: int| 0 <= j < i implies s[j].0 != s[i].0 by {
        assert(s[j].0 != s[i].0);
    }
    lemma_key_pos_is(s, s[i].0, i);
}

/// Setting a key leaves the other keys as they were.
pub proof fn lemma_lookup_insert_other<W>(s: Seq<(Seq<char>, W)>, k: Seq<char>, v: W, k2: Seq<char>)
    requires
        k != k2,
    ensures
        lookup(map_insert(s, k, v), k2) == lookup(s, k2),
        has_key(map_insert(s, k, v), k2) == has_key(s, k2),
{
    lemma_key_pos(s, k);
    lemma_key_pos(s, k2);
    match key_pos(s, k) {
        Some(p) => {
            let t = s.update(p, (k, v));
            match key_pos(s, k2) {
                Some(q) => {
                    assert forall|j: int| 0 <= j < q implies t[j].0 != k2 by {
                        if j != p {
                            assert(t[j] == s[j]);
                        }
                    }
                    lemma_key_pos_is(t, k2, q);
                },
                None => {
                    assert forall|j: int| 0 <= j < t.len() implies t[j].0 != k2 by {
                        if j != p {
                            assert(t[j] == s[j]);
                        }
                    }
                    lemma_key_pos_none(t, k2);
                },
            }
        },
        None => {
            lemma_key_pos_push(s, (k, v), k2);
        },
    }
}

/// Setting a key makes it look up the new value.
pub proof fn lemma_lookup_insert_same<W>(s: Seq<(Seq<char>, W)>, k: Seq<char>, v: W)
    ensures
        lookup(map_insert(s, k, v), k) == Some(v),
{
    lemma_key_pos(s, k);
    match key_pos(s, k) {
        Some(p) => {
            let t = s.update(p, (k, v));
            assert forall|j: int| 0 <= j < p implies t[j].0 != k by {
                assert(t[j] == s[j]);
            }
            lemma_key_pos_is(t, k, p);
        },
        None => {
            lemma_key_pos_push(s, (k, v), k);
        },
    }
}

/// A map from strings to values whose keys are unique and ordered by
/// first insertion.
pub struct StrMap<V> {
    entries: Vec<(String, V)>,
}

impl<V: DeepView> View for StrMap<V> {
    type V = Seq<(Seq<char>, V::V)>;

    closed spec fn view(&self) -> Seq<(Seq<char>, V::V)> {
        self.entries@.map_values(|e: (String, V)| (e.0@, e.1.deep_view()))
    }
}

impl<V: DeepView> DeepView for StrMap<V> {
    type V = Seq<(Seq<char>, V::V)>;

    open spec fn deep_view(&self) -> Seq<(Seq<char>, V::V)> {
        self@
    }
}

impl<V> StrMap<V> {
    #[verifier::type_invariant]
    closed spec fn inv(&self) -> bool {
        forall|i: int, j: int|
            0 <= i < self.entries@.len() && 0 <= j < self.entries@.len() && i != j
                ==> #[trigger] self.entries@[i].0@ != #[trigger] self.entries@[j].0@
    }
}

impl<V: DeepView> StrMap<V> {

    /// An empty map.
    pub fn new() -> (r: Self)
        ensures
            r@ == Seq::<(Seq<char>, V::V)>::empty(),
    {
        let r = StrMap { entries: Vec::new() };
        assert(r@ =~= Seq::<(Seq<char>, V::V)>::empty());
        r
    }

    /// The number of entries.
    pub fn len(&self) -> (r: usize)
        ensures
            r == self@.len(),
    {
        self.entries.len()
    }

    /// The key of the entry at position `i`.
    pub fn key_at(&self, i: usize) -> (r: &String)
        requires
            i < self@.len(),
        ensures
            r@ == self@[i as int].0,
    {
        &self.entries[i].0
    }

    /// The value of the entry at position `i`.
    pub fn value_at(&self, i: usize) -> (r: &V)
        requires
            i < self@.len(),
        ensures
            r.deep_view() == self@[i as int].1,
    {
        &self.entries[i].1
    }

    /// The keys are unique.
    pub fn keys_are_unique(&self)
        ensures
            keys_unique(self@),
    {
        proof {
            use_type_invariant(self);
        }
    }

    /// The position of key `k`, if the map holds it.
    pub fn find(&self, k: &str) -> (r: Option<usize>)
        ensures
            r is None <==> key_pos(self@, k@) is None,
            r matches Some(i) ==> key_pos(self@, k@) == Some(i as int),
    {
        let n = self.entries.len();
        let mut i: usize = 0;
        while i < n
            invariant
                n == self@.len(),
                i <= n,
                forall|j: int| 0 <= j < i ==> self@[j].0 != k@,
            decreases n - i,
        {
            if str_eq(self.entries[i].0.as_str(), k) {
                proof {
                    lemma_key_pos_is(self@, k@, i as int);
                }
                return Some(i);
            }
            i = i + 1;
        }
        proof {
            lemma_key_pos_none(self@, k@);
        }
        None
    }

    /// Whether the map holds key `k`.
    pub fn contains_key(&self, k: &str) -> (r: bool)
        ensures
            r == has_key(self@, k@),
    {
        self.find(k).is_some()
    }

    /// The value of key `k`, if the map holds it.
    pub fn get(&self, k: &str) -> (r: Option<&V>)
        ensures
            match lookup(self@, k@) {
                Some(v) => r is Some && r->0.deep_view() == v,
                None => r is None,
            },
    {
        match self.find(k) {
            Some(i) => {
                proof {
                    lemma_key_pos(self@, k@);
                    assert(self@[i as int].1 == self.entries@[i as int].1.deep_view());
                    let p = key_pos(self@, k@)->0;
                    assert(i as int == p);
                    assert(lookup(self@, k@) == Some(self@[p].1));
                }
                Some(&self.entries[i].1)
            },
            None => None,
        }
    }

    /// Sets the value of key `k` to `v`, in place if the map holds `k`, as a
    /// new last entry otherwise.
    pub fn insert(&mut self, k: String, v: V)
        ensures
            final(self)@ == map_insert(old(self)@, k@, v.deep_view()),
    {
        proof {
            use_type_invariant(&*self);
            lemma_key_pos(self@, k@);
        }
        let pos = self.find(k.as_str());
        let ghost old_view = self@;
        let ghost old_entries = self.entries@;
        let mut es: Vec<(String, V)> = Vec::new();
        std::mem::swap(&mut es, &mut self.entries);
        assert(es@ == old_entries);
        match pos {
            Some(i) => {
                es.set(i, (k, v));
            },
            None => {
                es.push((k, v));
            },
        }
        proof {
            lemma_key_pos(old_view, k@);
            assert forall|x: int| 0 <= x < old_entries.len() implies #[trigger] old_entries[x].0@
                == old_view[x].0 by {}
            match pos {
                Some(i) => {
                    assert forall|x: int| 0 <= x < es@.len() implies #[trigger] es@[x].0@
                        == old_entries[x].0@ by {}
                },
                None => {
                    assert forall|x: int| 0 <= x < old_entries.len() implies #[trigger] es@[x].0@
                        == old_entries[x].0@ && es@[x].0@ != k@ by {}
                    assert(es@[old_entries.len() as int].0@ == k@);
                },
            }
        }
        self.entries = es;
        assert(self@ =~= map_insert(old_view, k@, v.deep_view()));
    }
}

impl StrMap<String> {
    /// A copy of this map.
    pub fn copy(&self) -> (r: Self)
        ensures
            r@ == self@,
    {
        proof {
            use_type_invariant(self);
        }
        let mut es: Vec<(String, String)> = Vec::new();
        let mut i: usize = 0;
        while i < self.entries.len()
            invariant
                i <= self.entries@.len(),
                es@.len() == i,
                forall|j: int|
                    0 <= j < i ==> (#[trigger] es@[j]).0@ == self.entries@[j].0@ && es@[j].1@
                        == self.entries@[j].1@,
            decreases self.entries@.len() - i,
        {
            es.push((self.entries[i].0.clone(), self.entries[i].1.clone()));
            i = i + 1;
        }
        let r = StrMap { entries: es };
        assert(r@ =~= self@);
        r
    }
}

impl StrMap<Vec<String>> {
    /// A copy of this map.
    pub fn copy(&self) -> (r: Self)
        ensures
            r@ == self@,
    {
        proof {
            use_type_invariant(self);
        }
        let mut es: Vec<(String, Vec<String>)> = Vec::new();
        let mut i: usize = 0;
        while i < self.entries.len()
            invariant
                i <= self.entries@.len(),
                es@.len() == i,
                forall|j: int|
                    0 <= j < i ==> (#[trigger] es@[j]).0@ == self.entries@[j].0@
                        && es@[j].1.deep_view() == self.entries@[j].1.deep_view(),
            decreases self.entries@.len() - i,
        {
            es.push((self.entries[i].0.clone(), clone_strings(&self.entries[i].1)));
            i = i + 1;
        }
        let r = StrMap { entries: es };
        assert(r@ =~= self@);
        r
    }
}

} // verus!
