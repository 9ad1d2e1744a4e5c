//! An insertion-ordered string-keyed map, one per record category. Keys are
//! unique; inserting an existing key replaces its record in place
//! (last-write-wins within one extraction run), while `merge` in the merge
//! engine keeps the first write.
use crate::text::str_eq;
use vstd::prelude::*;

verus! {

/// `s` holds an entry with key `k`.
pub open spec fn has_key<T>(s: Seq<(Seq<char>, T)>, k: Seq<char>) -> bool {
    exists|i: int| 0 <= i < s.len() && s[i].0 == k
}

/// No two entries of `s` share a key.
pub open spec fn unique_keys<T>(s: Seq<(Seq<char>, T)>) -> bool {
    forall|i: int, j: int| 0 <= i < j < s.len() ==> s[i].0 != s[j].0
}

/// The value of the first entry of `s` with key `k`, if any.
pub open spec fn key_lookup<T>(s: Seq<(Seq<char>, T)>, k: Seq<char>) -> Option<T>
    decreases s.len(),
{
    if s.len() == 0 {
        None
    } else if s[0].0 == k {
        Some(s[0].1)
    } else {
        key_lookup(s.drop_first(), k)
    }
}

/// A position of the entry with key `k`.
pub open spec fn index_of_key<T>(s: Seq<(Seq<char>, T)>, k: Seq<char>) -> int {
    choose|i: int| 0 <= i < s.len() && s[i].0 == k
}

/// The sequence after an insertion of `(k, v)`: the entry is replaced in
/// place when the key is present, appended otherwise.
pub open spec fn key_update<T>(s: Seq<(Seq<char>, T)>, k: Seq<char>, v: T) -> Seq<(Seq<char>, T)> {
    if has_key(s, k) {
        s.update(index_of_key(s, k), (k, v))
    } else {
        s.push((k, v))
    }
}

/// The sequence after inserting each entry of `es` in order.
pub open spec fn insert_all<T>(
    acc: Seq<(Seq<char>, T)>,
    es: Seq<(Seq<char>, T)>,
) -> Seq<(Seq<char>, T)>
    decreases es.len(),
{
    if es.len() == 0 {
        acc
    } else {
        insert_all(key_update(acc, es[0].0, es[0].1), es.drop_first())
    }
}

/// Every value of a sequence after an insertion is the inserted value or
/// one the sequence already held.
pub proof fn lemma_key_update_values<T>(s: Seq<(Seq<char>, T)>, k: Seq<char>, v: T, t: int)
    requires
        0 <= t < key_update(s, k, v).len(),
    ensures
        key_update(s, k, v)[t].1 == v || exists|u: int|
            0 <= u < s.len() && key_update(s, k, v)[t].1 == s[u].1,
{
    let r = key_update(s, k, v);
    if has_key(s, k) {
        let i = index_of_key(s, k);
        if t != i {
            assert(r[t] == s[t]);
            assert(0 <= t < s.len() && r[t].1 == s[t].1);
        }
    } else {
        if t < s.len() {
            assert(r[t] == s[t]);
            assert(0 <= t < s.len() && r[t].1 == s[t].1);
        } else {
            assert(r[t].1 == v);
        }
    }
}

pub proof fn lemma_lookup_skip<T>(s: Seq<(Seq<char>, T)>, k: Seq<char>, i: int)
    requires
        0 <= i <= s.len(),
        forall|j: int| 0 <= j < i ==> s[j].0 != k,
    ensures
        key_lookup(s, k) == key_lookup(s.skip(i), k),
    decreases i,
{
    if i == 0 {
        assert(s.skip(0) =~= s);
    } else {
        assert(s.len() > 0);
        assert(s[0].0 != k);
        assert(s.drop_first() =~= s.skip(1));
        assert(forall|j: int| 0 <= j < i - 1 ==> s.skip(1)[j].0 != k);
        lemma_lookup_skip(s.skip(1), k, i - 1);
        assert(s.skip(1).skip(i - 1) =~= s.skip(i));
    }
}

pub proof fn lemma_lookup_at<T>(s: Seq<(Seq<char>, T)>, k: Seq<char>, i: int)
    requires
        0 <= i < s.len(),
        s[i].0 == k,
        forall|j: int| 0 <= j < i ==> s[j].0 != k,
    ensures
        key_lookup(s, k) == Some(s[i].1),
{
    lemma_lookup_skip(s, k, i);
    assert(s.skip(i)[0] == s[i]);
}

pub proof fn lemma_lookup_none<T>(s: Seq<(Seq<char>, T)>, k: Seq<char>)
    requires
        !has_key(s, k),
    ensures
        key_lookup(s, k) is None,
{
    lemma_lookup_skip(s, k, s.len() as int);
    assert(s.skip(s.len() as int) =~= Seq::<(Seq<char>, T)>::empty());
}

pub proof fn lemma_lookup_update<T>(s: Seq<(Seq<char>, T)>, i: int, k: Seq<char>, v: T)
    requires
        unique_keys(s),
        0 <= i < s.len(),
        s[i].0 == k,
    ensures
        unique_keys(s.update(i, (k, v))),
        key_lookup(s.update(i, (k, v)), k) == Some(v),
        forall|k2: Seq<char>| k2 != k ==> key_lookup(s.update(i, (k, v)), k2) == key_lookup(s, k2),
{
    let t = s.update(i, (k, v));
    assert(unique_keys(t)) by {
        assert(forall|a: int, b: int| 0 <= a < b < t.len() ==> t[a].0 != t[b].0) by {
            assert(forall|a: int| 0 <= a < s.len() && a != i ==> t[a].0 == s[a].0);
        }
    }
    assert(key_lookup(t, k) == Some(v)) by {
        assert(forall|j: int| 0 <= j < i ==> t[j].0 != k);
        lemma_lookup_at(t, k, i);
    }
    assert forall|k2: Seq<char>| k2 != k implies key_lookup(t, k2) == key_lookup(s, k2) by {
        lemma_lookup_agree(s, t, k2, i, k);
    }
}

proof fn lemma_lookup_agree<T>(s: Seq<(Seq<char>, T)>, t: Seq<(Seq<char>, T)>, k2: Seq<char>, i: int, k: Seq<char>)
    requires
        s.len() == t.len(),
        0 <= i < s.len(),
        forall|a: int| 0 <= a < s.len() && a != i ==> s[a] == t[a],
        s[i].0 == k,
        t[i].0 == k,
        k2 != k,
    ensures
        key_lookup(s, k2) == key_lookup(t, k2),
    decreases s.len(),
{
    if s.len() > 0 {
        if i == 0 {
            assert(s[0].0 != k2 && t[0].0 != k2);
            assert(s.drop_first() =~= t.drop_first());
        } else {
            assert(s[0] == t[0]);
            if s[0].0 != k2 {
                assert(forall|a: int| 0 <= a < s.len() - 1 && a != i - 1 ==> s.drop_first()[a]
                    == t.drop_first()[a]);
                assert(s.drop_first()[i - 1].0 == k);
                assert(t.drop_first()[i - 1].0 == k);
                lemma_lookup_agree(s.drop_first(), t.drop_first(), k2, i - 1, k);
            }
        }
    }
}

pub proof fn lemma_lookup_push<T>(s: Seq<(Seq<char>, T)>, k: Seq<char>, v: T)
    requires
        unique_keys(s),
        !has_key(s, k),
    ensures
        unique_keys(s.push((k, v))),
        key_lookup(s.push((k, v)), k) == Some(v),
        forall|k2: Seq<char>| k2 != k ==> key_lookup(s.push((k, v)), k2) == key_lookup(s, k2),
{
    let t = s.push((k, v));
    assert(unique_keys(t)) by {
        assert(forall|a: int| 0 <= a < s.len() ==> t[a] == s[a]);
        assert(t[s.len() as int].0 == k);
    }
    assert(key_lookup(t, k) == Some(v)) by {
        assert(forall|j: int| 0 <= j < s.len() ==> t[j].0 != k);
        lemma_lookup_at(t, k, s.len() as int);
    }
    assert forall|k2: Seq<char>| k2 != k implies key_lookup(t, k2) == key_lookup(s, k2) by {
        lemma_lookup_push_other(s, k, v, k2);
    }
}

proof fn lemma_lookup_push_other<T>(s: Seq<(Seq<char>, T)>, k: Seq<char>, v: T, k2: Seq<char>)
    requires
        k2 != k,
    ensures
        key_lookup(s.push((k, v)), k2) == key_lookup(s, k2),
    decreases s.len(),
{
    let t = s.push((k, v));
    if s.len() == 0 {
        assert(t.len() == 1 && t[0].0 == k);
        assert(t.drop_first() =~= Seq::<(Seq<char>, T)>::empty());
        assert(key_lookup(t.drop_first(), k2) is None);
        assert(key_lookup(t, k2) is None);
        assert(key_lookup(s, k2) is None);
    } else {
        assert(t[0] == s[0]);
        if s[0].0 == k2 {
            assert(key_lookup(t, k2) == Some(t[0].1));
            assert(key_lookup(s, k2) == Some(s[0].1));
        } else {
            assert(t.drop_first() =~= s.drop_first().push((k, v)));
            lemma_lookup_push_other(s.drop_first(), k, v, k2);
            assert(key_lookup(t, k2) == key_lookup(t.drop_first(), k2));
            assert(key_lookup(s, k2) == key_lookup(s.drop_first(), k2));
        }
    }
}

/// One category's map: insertion-ordered entries with pairwise distinct keys.
pub struct CategoryMap<V> {
    entries: Vec<(String, V)>,
}

impl<V: View> View for CategoryMap<V> {
    type V = Seq<(Seq<char>, V::V)>;

    closed spec fn view(&self) -> Seq<(Seq<char>, V::V)> {
        self.entries@.map_values(|p: (String, V)| (p.0@, p.1@))
    }
}

impl<V: View> CategoryMap<V> {
    /// Keys are pairwise distinct.
    pub open spec fn wf(&self) -> bool {
        unique_keys(self@)
    }

    pub fn new() -> (r: Self)
        ensures
            r@ == Seq::<(Seq<char>, V::V)>::empty(),
            r.wf(),
    {
        let r = CategoryMap { entries: Vec::new() };
        proof {
            assert(r@ =~= Seq::<(Seq<char>, V::V)>::empty());
        }
        r
    }

    /// Wraps raw entries as a map; the caller answers for their keys.
    pub fn from_entries(entries: Vec<(String, V)>) -> (r: Self)
        ensures
            r@ == entries@.map_values(|p: (String, V)| (p.0@, p.1@)),
    {
        CategoryMap { entries }
    }

    pub fn len(&self) -> (r: usize)
        ensures
            r == self@.len(),
    {
        self.entries.len()
    }

    pub fn is_empty(&self) -> (r: bool)
        ensures
            r == (self@.len() == 0),
    {
        self.entries.len() == 0
    }

    /// The key and value stored at position `i`.
    pub fn entry_at(&self, i: usize) -> (r: &(String, V))
        requires
            i < self@.len(),
        ensures
            r.0@ == self@[i as int].0,
            r.1@ == self@[i as int].1,
    {
        &self.entries[i]
    }

    /// The position of the entry with key `k`, if any.
    fn position_of(&self, k: &str) -> (r: Option<usize>)
        ensures
            match r {
                Some(i) => i < self@.len() && self@[i as int].0 == k@ && forall|j: int|
                    0 <= j < i ==> self@[j].0 != k@,
                None => !has_key(self@, k@),
            },
    {
        let mut i: usize = 0;
        while i < self.entries.len()
            invariant
                i <= self@.len(),
                self@.len() == self.entries@.len(),
                forall|j: int| 0 <= j < i ==> self@[j].0 != k@,
            decreases self@.len() - i,
        {
            if str_eq(self.entries[i].0.as_str(), k) {
                return Some(i);
            }
            i += 1;
        }
        None
    }

    pub fn contains_key(&self, k: &str) -> (r: bool)
        ensures
            r == has_key(self@, k@),
    {
        self.position_of(k).is_some()
    }

    pub fn get(&self, k: &str) -> (r: Option<&V>)
        ensures
            match r {
                Some(v) => key_lookup(self@, k@) == Some(v@),
                None => key_lookup(self@, k@) is None,
            },
    {
        match self.position_of(k) {
            Some(i) => {
                proof {
                    lemma_lookup_at(self@, k@, i as int);
                }
                Some(&self.entries[i].1)
            },
            None => {
                proof {
                    lemma_lookup_none(self@, k@);
                }
                None
            },
        }
    }

    /// Inserts `(k, v)`. A record already stored under `k` is overwritten:
    /// within one extraction run the last write wins.
    pub fn insert(&mut self, k: String, v: V)
        requires
            old(self).wf(),
        ensures
            final(self).wf(),
            final(self)@ == key_update(old(self)@, k@, v@),
            key_lookup(final(self)@, k@) == Some(v@),
            forall|k2: Seq<char>| k2 != k@ ==> key_lookup(final(self)@, k2) == key_lookup(
                old(self)@,
                k2,
            ),
    {
        let ghost s0 = self@;
        match self.position_of(k.as_str()) {
            Some(i) => {
                self.entries.remove(i);
                self.entries.insert(i, (k, v));
                proof {
                    assert(self@ =~= s0.update(i as int, (k@, v@)));
                    assert(index_of_key(s0, k@) == i) by {
                        assert(s0[i as int].0 == k@);
                        let w = index_of_key(s0, k@);
                        assert(0 <= w < s0.len() && s0[w].0 == k@);
                        if w != i {
                            assert(s0[w].0 == s0[i as int].0);
                        }
                    }
                    lemma_lookup_update(s0, i as int, k@, v@);
                }
            },
            None => {
                self.entries.push((k, v));
                proof {
                    assert(self@ =~= s0.push((k@, v@)));
                    lemma_lookup_push(s0, k@, v@);
                }
            },
        }
    }

    /// Appends an entry whose key is known to be absent.
    pub fn push_absent(&mut self, k: String, v: V)
        requires
            old(self).wf(),
            !has_key(old(self)@, k@),
        ensures
            final(self)@ == old(self)@.push((k@, v@)),
            final(self).wf(),
    {
        let ghost s0 = self@;
        self.entries.push((k, v));
        proof {
            assert(self@ =~= s0.push((k@, v@)));
            lemma_lookup_push(s0, k@, v@);
        }
    }

    /// Removes and returns the first entry; used to drain a map.
    pub fn take_first(&mut self) -> (r: (String, V))
        requires
            old(self)@.len() > 0,
        ensures
            r.0@ == old(self)@[0].0,
            r.1@ == old(self)@[0].1,
            final(self)@ == old(self)@.drop_first(),
            old(self).wf() ==> final(self).wf(),
    {
        let ghost s0 = self@;
        let r = self.entries.remove(0);
        proof {
            assert(self@ =~= s0.drop_first());
            if unique_keys(s0) {
                assert(forall|a: int, b: int|
                    0 <= a < b < s0.len() - 1 ==> s0.drop_first()[a].0 != s0.drop_first()[b].0);
            }
        }
        r
    }
}

} // verus!
