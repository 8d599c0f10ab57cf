//! A string-to-string map kept in ascending key order.
//!
//! Scenario headers and cookies are small maps whose iteration order is
//! observable (it decides which invalid cookie is reported first and the order
//! of the `Cookie` header), so the map is an association list sorted strictly
//! by key, in the same byte-wise order as `String`'s `Ord`.
use vstd::prelude::*;

use crate::text::{chars_eq, chars_lt, chars_of, lemma_seq_lt_irreflexive, lemma_seq_lt_total, lemma_seq_lt_transitive, lemma_seq_lt_asymmetric, seq_lt};

verus! {

/// Keys strictly ascending: no key occurs twice and the order is `String`'s.
pub open spec fn keys_sorted(p: Seq<(Seq<char>, Seq<char>)>) -> bool {
    forall|i: int, j: int| 0 <= i < j < p.len() ==> seq_lt(#[trigger] p[i].0, #[trigger] p[j].0)
}

/// `k` is a key of the association list `p`.
pub open spec fn has_key(p: Seq<(Seq<char>, Seq<char>)>, k: Seq<char>) -> bool {
    exists|i: int| 0 <= i < p.len() && #[trigger] p[i].0 == k
}

/// The value stored under `k` (meaningful when `has_key(p, k)`).
pub open spec fn value_of(p: Seq<(Seq<char>, Seq<char>)>, k: Seq<char>) -> Seq<char>
    decreases p.len(),
{
    if p.len() == 0 {
        Seq::empty()
    } else if p.last().0 == k {
        p.last().1
    } else {
        value_of(p.drop_last(), k)
    }
}

/// `value_of` reads the entry at the position of the key.
pub proof fn lemma_value_at(p: Seq<(Seq<char>, Seq<char>)>, i: int)
    requires
        keys_sorted(p),
        0 <= i < p.len(),
    ensures
        has_key(p, p[i].0),
        value_of(p, p[i].0) == p[i].1,
    decreases p.len(),
{
    let k = p[i].0;
    assert(0 <= i < p.len() && p[i].0 == k);
    if i < p.len() - 1 {
        assert(seq_lt(p[i].0, p[p.len() - 1].0));
        if p.last().0 == k {
            lemma_seq_lt_irreflexive(k);
        }
        let q = p.drop_last();
        assert(keys_sorted(q)) by {
            assert forall|a: int, b: int| 0 <= a < b < q.len() implies seq_lt(
                #[trigger] q[a].0,
                #[trigger] q[b].0,
            ) by {
                assert(seq_lt(p[a].0, p[b].0));
            }
        }
        lemma_value_at(q, i);
    }
}

/// The character view of one stored entry.
pub open spec fn pair_view(e: (String, String)) -> (Seq<char>, Seq<char>) {
    (e.0@, e.1@)
}

/// A string map with keys in ascending order.
#[derive(Debug, PartialEq, Eq)]
pub struct StrMap {
    entries: Vec<(String, String)>,
}

impl View for StrMap {
    type V = Seq<(Seq<char>, Seq<char>)>;

    closed spec fn view(&self) -> Seq<(Seq<char>, Seq<char>)> {
        self.entries@.map_values(|e: (String, String)| pair_view(e))
    }
}

impl StrMap {
    #[verifier::type_invariant]
    closed spec fn sorted(self) -> bool {
        keys_sorted(self@)
    }

    /// An empty map.
    pub fn new() -> (m: Self)
        ensures
            m@ == Seq::<(Seq<char>, Seq<char>)>::empty(),
    {
        let m = StrMap { entries: Vec::new() };
        assert(m@ =~= Seq::<(Seq<char>, Seq<char>)>::empty());
        m
    }

    /// Number of entries.
    pub fn len(&self) -> (n: usize)
        ensures
            n == self@.len(),
    {
        self.entries.len()
    }

    /// Whether the map has no entries.
    pub fn is_empty(&self) -> (b: bool)
        ensures
            b == (self@.len() == 0),
    {
        self.entries.len() == 0
    }

    /// The `i`-th entry in key order.
    pub fn entry(&self, i: usize) -> (kv: (&String, &String))
        requires
            i < self@.len(),
        ensures
            kv.0@ == self@[i as int].0,
            kv.1@ == self@[i as int].1,
            has_key(self@, kv.0@),
            value_of(self@, kv.0@) == kv.1@,
    {
        proof {
            use_type_invariant(self);
            lemma_value_at(self@, i as int);
        }
        let e = &self.entries[i];
        (&e.0, &e.1)
    }

    /// The value stored under `key`.
    pub fn get(&self, key: &str) -> (r: Option<&String>)
        ensures
            r matches Some(v) ==> has_key(self@, key@) && v@ == value_of(self@, key@),
            r is None ==> !has_key(self@, key@),
    {
        proof {
            use_type_invariant(self);
        }
        let k = chars_of(key);
        let mut i: usize = 0;
        while i < self.entries.len()
            invariant
                i <= self.entries.len(),
                k@ == key@,
                keys_sorted(self@),
                forall|j: int| 0 <= j < i ==> self@[j].0 != key@,
            decreases self.entries.len() - i,
        {
            let ek = chars_of(self.entries[i].0.as_str());
            if chars_eq(ek.as_slice(), k.as_slice()) {
                proof {
                    lemma_value_at(self@, i as int);
                }
                return Some(&self.entries[i].1);
            }
            i = i + 1;
        }
        None
    }

    /// Whether `key` is present.
    pub fn contains_key(&self, key: &str) -> (b: bool)
        ensures
            b == has_key(self@, key@),
    {
        self.get(key).is_some()
    }

    /// Position of the first entry whose key is not below `k`.
    fn lower_bound(&self, k: &Vec<char>) -> (i: usize)
        ensures
            i <= self@.len(),
            forall|j: int| 0 <= j < i ==> seq_lt(#[trigger] self@[j].0, k@),
            i < self@.len() ==> !seq_lt(self@[i as int].0, k@),
    {
        let mut i: usize = 0;
        while i < self.entries.len()
            invariant
                i <= self.entries.len(),
                forall|j: int| 0 <= j < i ==> seq_lt(#[trigger] self@[j].0, k@),
            decreases self.entries.len() - i,
        {
            let ek = chars_of(self.entries[i].0.as_str());
            if !chars_lt(ek.as_slice(), k.as_slice()) {
                return i;
            }
            i = i + 1;
        }
        i
    }

    /// Stores `value` under `key`, replacing any previous value
    /// (`BTreeMap::insert`).
    pub fn insert(&mut self, key: String, value: String)
        ensures
            has_key(final(self)@, key@),
            value_of(final(self)@, key@) == value@,
            forall|k: Seq<char>|
                k != key@ ==> (has_key(final(self)@, k) == has_key(old(self)@, k)),
            forall|k: Seq<char>|
                k != key@ && has_key(old(self)@, k) ==> value_of(final(self)@, k) == value_of(
                    old(self)@,
                    k,
                ),
            final(self)@.len() == old(self)@.len() + (if has_key(old(self)@, key@) {
                0int
            } else {
                1int
            }),
    {
        proof {
            use_type_invariant(&*self);
        }
        let k = chars_of(key.as_str());
        let i = self.lower_bound(&k);
        let ghost old_p = self@;
        let ghost kk = key@;
        let ghost vv = value@;
        let found = if i < self.entries.len() {
            let ek = chars_of(self.entries[i].0.as_str());
            chars_eq(ek.as_slice(), k.as_slice())
        } else {
            false
        };
        if found {
            let mut entries = Vec::new();
            std::mem::swap(&mut entries, &mut self.entries);
            entries.set(i, (key, value));
            let ghost new_p = old_p.update(i as int, (kk, vv));
            assert(entries@.map_values(|e: (String, String)| pair_view(e)) =~= new_p);
            proof {
                assert(keys_sorted(new_p)) by {
                    assert forall|a: int, b: int| 0 <= a < b < new_p.len() implies seq_lt(
                        #[trigger] new_p[a].0,
                        #[trigger] new_p[b].0,
                    ) by {
                        assert(seq_lt(old_p[a].0, old_p[b].0));
                    }
                }
                self.lemma_insert_replace(old_p, new_p, i as int, kk, vv);
            }
            self.entries = entries;
        } else {
            let mut entries = Vec::new();
            std::mem::swap(&mut entries, &mut self.entries);
            entries.insert(i, (key, value));
            let ghost new_p = old_p.insert(i as int, (kk, vv));
            assert(entries@.map_values(|e: (String, String)| pair_view(e)) =~= new_p);
            proof {
                if i < old_p.len() {
                    assert(old_p[i as int].0 != kk);
                    lemma_seq_lt_total(old_p[i as int].0, kk);
                    assert(seq_lt(kk, old_p[i as int].0));
                }
                assert(keys_sorted(new_p)) by {
                    assert forall|a: int, b: int| 0 <= a < b < new_p.len() implies seq_lt(
                        #[trigger] new_p[a].0,
                        #[trigger] new_p[b].0,
                    ) by {
                        if b < i {
                            assert(seq_lt(old_p[a].0, old_p[b].0));
                        } else if b == i {
                            assert(new_p[a].0 == old_p[a].0);
                        } else if a < i {
                            assert(new_p[b].0 == old_p[b - 1].0);
                            assert(seq_lt(old_p[a].0, kk));
                            if b - 1 > i {
                                assert(seq_lt(old_p[i as int].0, old_p[b - 1].0));
                                lemma_seq_lt_transitive(kk, old_p[i as int].0, old_p[b - 1].0);
                            }
                            lemma_seq_lt_transitive(old_p[a].0, kk, old_p[b - 1].0);
                        } else if a == i {
                            assert(new_p[b].0 == old_p[b - 1].0);
                            if b - 1 > i {
                                assert(seq_lt(old_p[i as int].0, old_p[b - 1].0));
                                lemma_seq_lt_transitive(kk, old_p[i as int].0, old_p[b - 1].0);
                            }
                        } else {
                            assert(seq_lt(old_p[a - 1].0, old_p[b - 1].0));
                        }
                    }
                }
                assert(!has_key(old_p, kk)) by {
                    if has_key(old_p, kk) {
                        let j = choose|j: int| 0 <= j < old_p.len() && #[trigger] old_p[j].0 == kk;
                        if j < i {
                            lemma_seq_lt_irreflexive(kk);
                        } else if j > i {
                            assert(seq_lt(old_p[i as int].0, old_p[j].0));
                            lemma_seq_lt_asymmetric(kk, old_p[i as int].0);
                        }
                    }
                }
                self.lemma_insert_new(old_p, new_p, i as int, kk, vv);
            }
            self.entries = entries;
        }
    }

    proof fn lemma_insert_replace(
        &self,
        old_p: Seq<(Seq<char>, Seq<char>)>,
        new_p: Seq<(Seq<char>, Seq<char>)>,
        i: int,
        k: Seq<char>,
        v: Seq<char>,
    )
        requires
            keys_sorted(old_p),
            keys_sorted(new_p),
            0 <= i < old_p.len(),
            old_p[i].0 == k,
            new_p == old_p.update(i, (k, v)),
        ensures
            has_key(new_p, k),
            value_of(new_p, k) == v,
            forall|k2: Seq<char>| k2 != k ==> (has_key(new_p, k2) == has_key(old_p, k2)),
            forall|k2: Seq<char>|
                k2 != k && has_key(old_p, k2) ==> value_of(new_p, k2) == value_of(old_p, k2),
            has_key(old_p, k),
            new_p.len() == old_p.len(),
    {
        lemma_value_at(new_p, i);
        lemma_value_at(old_p, i);
        assert forall|k2: Seq<char>| k2 != k implies (has_key(new_p, k2) == has_key(old_p, k2)) by {
            if has_key(new_p, k2) {
                let j = choose|j: int| 0 <= j < new_p.len() && #[trigger] new_p[j].0 == k2;
                assert(old_p[j].0 == k2);
            }
            if has_key(old_p, k2) {
                let j = choose|j: int| 0 <= j < old_p.len() && #[trigger] old_p[j].0 == k2;
                assert(new_p[j].0 == k2);
            }
        }
        assert forall|k2: Seq<char>| k2 != k && has_key(old_p, k2) implies value_of(new_p, k2)
            == value_of(old_p, k2) by {
            let j = choose|j: int| 0 <= j < old_p.len() && #[trigger] old_p[j].0 == k2;
            lemma_value_at(old_p, j);
            lemma_value_at(new_p, j);
        }
    }

    proof fn lemma_insert_new(
        &self,
        old_p: Seq<(Seq<char>, Seq<char>)>,
        new_p: Seq<(Seq<char>, Seq<char>)>,
        i: int,
        k: Seq<char>,
        v: Seq<char>,
    )
        requires
            keys_sorted(old_p),
            keys_sorted(new_p),
            0 <= i <= old_p.len(),
            !has_key(old_p, k),
            new_p == old_p.insert(i, (k, v)),
        ensures
            has_key(new_p, k),
            value_of(new_p, k) == v,
            forall|k2: Seq<char>| k2 != k ==> (has_key(new_p, k2) == has_key(old_p, k2)),
            forall|k2: Seq<char>|
                k2 != k && has_key(old_p, k2) ==> value_of(new_p, k2) == value_of(old_p, k2),
            new_p.len() == old_p.len() + 1,
    {
        lemma_value_at(new_p, i);
        assert forall|k2: Seq<char>| k2 != k implies (has_key(new_p, k2) == has_key(old_p, k2)) by {
            if has_key(new_p, k2) {
                let j = choose|j: int| 0 <= j < new_p.len() && #[trigger] new_p[j].0 == k2;
                if j < i {
                    assert(old_p[j].0 == k2);
                } else {
                    assert(j != i);
                    assert(old_p[j - 1].0 == k2);
                }
            }
            if has_key(old_p, k2) {
                let j = choose|j: int| 0 <= j < old_p.len() && #[trigger] old_p[j].0 == k2;
                if j < i {
                    assert(new_p[j].0 == k2);
                } else {
                    assert(new_p[j + 1].0 == k2);
                }
            }
        }
        assert forall|k2: Seq<char>| k2 != k && has_key(old_p, k2) implies value_of(new_p, k2)
            == value_of(old_p, k2) by {
            let j = choose|j: int| 0 <= j < old_p.len() && #[trigger] old_p[j].0 == k2;
            lemma_value_at(old_p, j);
            if j < i {
                lemma_value_at(new_p, j);
            } else {
                lemma_value_at(new_p, j + 1);
            }
        }
    }

    /// Stores `value` under `key` only when `key` is absent
    /// (`entry(key).or_insert(value)`).
    pub fn insert_if_absent(&mut self, key: String, value: String)
        ensures
            has_key(final(self)@, key@),
            has_key(old(self)@, key@) ==> final(self)@ == old(self)@,
            !has_key(old(self)@, key@) ==> value_of(final(self)@, key@) == value@,
            forall|k: Seq<char>|
                k != key@ ==> (has_key(final(self)@, k) == has_key(old(self)@, k)),
            forall|k: Seq<char>|
                k != key@ && has_key(old(self)@, k) ==> value_of(final(self)@, k) == value_of(
                    old(self)@,
                    k,
                ),
    {
        if !self.contains_key(key.as_str()) {
            self.insert(key, value);
        }
    }

    /// An entry-by-entry copy of this map.
    pub fn duplicate(&self) -> (m: Self)
        ensures
            m@ == self@,
    {
        proof {
            use_type_invariant(self);
        }
        let mut entries: Vec<(String, String)> = Vec::new();
        let mut i: usize = 0;
        while i < self.entries.len()
            invariant
                i <= self.entries.len(),
                keys_sorted(self@),
                entries@.len() == i,
                forall|j: int| 0 <= j < i ==> pair_view(#[trigger] entries@[j]) == self@[j],
            decreases self.entries.len() - i,
        {
            let e = &self.entries[i];
            let pair = (e.0.clone(), e.1.clone());
            assert(pair_view(pair) == self@[i as int]);
            entries.push(pair);
            i = i + 1;
        }
        let m = StrMap { entries };
        assert(m@ =~= self@);
        m
    }
}

impl Clone for StrMap {
    fn clone(&self) -> (m: Self)
        ensures
            m@ == self@,
    {
        self.duplicate()
    }
}

impl Default for StrMap {
    fn default() -> (m: Self)
        ensures
            m@ == Seq::<(Seq<char>, Seq<char>)>::empty(),
    {
        StrMap::new()
    }
}

} // verus!
