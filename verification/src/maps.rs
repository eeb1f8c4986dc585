//! Maps from strings, kept as lists of entries in a fixed order.
//!
//! The order of the entries is the order in which the map is walked.

use vstd::prelude::*;
use vstd::string::*;

verus! {

/// The first position at or after `i` whose key is `key`, or the number of entries.
pub open spec fn key_index<V>(m: Seq<(Seq<char>, V)>, key: Seq<char>, i: int) -> int
    decreases m.len() - i,
{
    if i < 0 || i >= m.len() {
        m.len() as int
    } else if m[i].0 == key {
        i
    } else {
        key_index(m, key, i + 1)
    }
}

/// The value that the map holds for `key`.
pub open spec fn lookup<V>(m: Seq<(Seq<char>, V)>, key: Seq<char>) -> Option<V> {
    let at = key_index(m, key, 0);
    if at < m.len() {
        Some(m[at].1)
    } else {
        None
    }
}

pub open spec fn has_key<V>(m: Seq<(Seq<char>, V)>, key: Seq<char>) -> bool {
    key_index(m, key, 0) < m.len()
}

/// The map with `key` bound to `value`: an existing entry keeps its place, a new one comes last.
pub open spec fn inserted<V>(m: Seq<(Seq<char>, V)>, key: Seq<char>, value: V) -> Seq<
    (Seq<char>, V),
> {
    let at = key_index(m, key, 0);
    if at < m.len() {
        m.update(at, (key, value))
    } else {
        m.push((key, value))
    }
}

/// The map with `key` bound to `value` unless it already has an entry for `key`.
pub open spec fn defaulted<V>(m: Seq<(Seq<char>, V)>, key: Seq<char>, value: V) -> Seq<
    (Seq<char>, V),
> {
    if has_key(m, key) {
        m
    } else {
        m.push((key, value))
    }
}

/// The entries of `more`, bound one after the other.
pub open spec fn inserted_all<V>(m: Seq<(Seq<char>, V)>, more: Seq<(Seq<char>, V)>) -> Seq<
    (Seq<char>, V),
>
    decreases more.len(),
{
    if more.len() == 0 {
        m
    } else {
        inserted(inserted_all(m, more.drop_last()), more.last().0, more.last().1)
    }
}

pub open spec fn defaulted_all<V>(m: Seq<(Seq<char>, V)>, more: Seq<(Seq<char>, V)>) -> Seq<
    (Seq<char>, V),
>
    decreases more.len(),
{
    if more.len() == 0 {
        m
    } else {
        defaulted(defaulted_all(m, more.drop_last()), more.last().0, more.last().1)
    }
}

/// No key occurs twice.
pub open spec fn distinct_keys<V>(m: Seq<(Seq<char>, V)>) -> bool {
    forall|i: int, j: int| 0 <= i < j < m.len() ==> m[i].0 != m[j].0
}

pub proof fn lemma_key_index<V>(m: Seq<(Seq<char>, V)>, key: Seq<char>, i: int)
    requires
        0 <= i <= m.len(),
    ensures
        i <= key_index(m, key, i) <= m.len(),
        key_index(m, key, i) < m.len() ==> m[key_index(m, key, i)].0 == key,
        forall|k: int| i <= k < key_index(m, key, i) ==> m[k].0 != key,
    decreases m.len() - i,
{
    if i < m.len() && m[i].0 != key {
        lemma_key_index(m, key, i + 1);
    }
}

pub proof fn lemma_has_key<V>(m: Seq<(Seq<char>, V)>, k: int)
    requires
        0 <= k < m.len(),
    ensures
        has_key(m, m[k].0),
{
    lemma_key_index(m, m[k].0, 0);
}

/// Binding a key keeps the keys distinct.
pub proof fn lemma_inserted_distinct<V>(m: Seq<(Seq<char>, V)>, key: Seq<char>, value: V)
    requires
        distinct_keys(m),
    ensures
        distinct_keys(inserted(m, key, value)),
        distinct_keys(defaulted(m, key, value)),
{
    lemma_key_index(m, key, 0);
}

/// After a binding the map holds the new value for that key and the old values for all others.
pub proof fn lemma_inserted_lookup<V>(m: Seq<(Seq<char>, V)>, key: Seq<char>, value: V, k: Seq<char>)
    ensures
        lookup(inserted(m, key, value), k) == (if k == key {
            Some(value)
        } else {
            lookup(m, k)
        }),
        has_key(inserted(m, key, value), k) == (k == key || has_key(m, k)),
        lookup(defaulted(m, key, value), k) == (if k == key && !has_key(m, key) {
            Some(value)
        } else {
            lookup(m, k)
        }),
        has_key(defaulted(m, key, value), k) == (k == key || has_key(m, k)),
{
    lemma_key_index(m, key, 0);
    lemma_key_index(m, k, 0);
    lemma_key_index(inserted(m, key, value), k, 0);
    lemma_key_index(defaulted(m, key, value), k, 0);
    let n = inserted(m, key, value);
    let d = defaulted(m, key, value);
    let at = key_index(m, k, 0);
    let nat_ = key_index(n, k, 0);
    let dat = key_index(d, k, 0);
    if at < m.len() {
        assert(n[at].0 == k);
        assert(d[at].0 == k);
    }
    if nat_ < n.len() && nat_ < m.len() {
        assert(m[nat_].0 == k);
    }
    if dat < d.len() && dat < m.len() {
        assert(m[dat].0 == k);
    }
    if k == key && at >= m.len() {
        assert(n[m.len() as int].0 == k);
        assert(d[m.len() as int].0 == k);
    }
}

/// Entries bound one after the other: the last one for a key counts, and what was there before where
/// there is none.
pub proof fn lemma_inserted_all<V>(
    m: Seq<(Seq<char>, V)>,
    more: Seq<(Seq<char>, V)>,
    key: Seq<char>,
)
    ensures
        distinct_keys(m) ==> distinct_keys(inserted_all(m, more)),
        lookup(inserted_all(m, more), key) == (if has_key(inserted_all(Seq::empty(), more), key) {
            lookup(inserted_all(Seq::empty(), more), key)
        } else {
            lookup(m, key)
        }),
    decreases more.len(),
{
    if more.len() > 0 {
        let (k, v) = more.last();
        let none = Seq::<(Seq<char>, V)>::empty();
        lemma_inserted_all(m, more.drop_last(), key);
        if distinct_keys(m) {
            lemma_inserted_distinct(inserted_all(m, more.drop_last()), k, v);
        }
        lemma_inserted_lookup(inserted_all(m, more.drop_last()), k, v, key);
        lemma_inserted_lookup(inserted_all(none, more.drop_last()), k, v, key);
    }
}

pub open spec fn entries_view(v: Seq<(String, String)>) -> Seq<(Seq<char>, Seq<char>)> {
    Seq::new(v.len(), |i: int| (v[i].0@, v[i].1@))
}

/// A map from names to values, such as a set of environment variables.
#[derive(Debug, Clone, PartialEq, Eq)]
pub struct EnvMap {
    pub entries: Vec<(String, String)>,
}

impl View for EnvMap {
    type V = Seq<(Seq<char>, Seq<char>)>;

    open spec fn view(&self) -> Seq<(Seq<char>, Seq<char>)> {
        entries_view(self.entries@)
    }
}

impl EnvMap {
    /// No name is bound twice.
    pub open spec fn wf(&self) -> bool {
        distinct_keys(self@)
    }

    pub fn new() -> (res: EnvMap)
        ensures
            res@ == Seq::<(Seq<char>, Seq<char>)>::empty(),
            res.wf(),
    {
        let res = EnvMap { entries: Vec::new() };
        assert(res@ =~= Seq::<(Seq<char>, Seq<char>)>::empty());
        res
    }

    pub fn len(&self) -> (n: usize)
        ensures
            n == self@.len(),
    {
        self.entries.len()
    }

    pub fn key(&self, i: usize) -> (s: &str)
        requires
            i < self@.len(),
        ensures
            s@ == self@[i as int].0,
    {
        self.entries[i].0.as_str()
    }

    pub fn value(&self, i: usize) -> (s: &str)
        requires
            i < self@.len(),
        ensures
            s@ == self@[i as int].1,
    {
        self.entries[i].1.as_str()
    }

    fn index_of(&self, key: &str) -> (at: usize)
        ensures
            at == key_index(self@, key@, 0),
            at <= self@.len(),
    {
        let wanted = key.to_owned();
        let mut i: usize = 0;
        while i < self.entries.len()
            invariant
                i <= self@.len(),
                self@.len() == self.entries@.len(),
                wanted@ == key@,
                key_index(self@, key@, 0) == key_index(self@, key@, i as int),
            decreases self@.len() - i,
        {
            if self.entries[i].0 == wanted {
                assert(self@[i as int].0 == key@);
                return i;
            }
            assert(self@[i as int].0 != key@);
            i = i + 1;
        }
        i
    }

    pub fn contains_key(&self, key: &str) -> (res: bool)
        ensures
            res == has_key(self@, key@),
    {
        self.index_of(key) < self.entries.len()
    }

    pub fn get(&self, key: &str) -> (res: Option<&str>)
        ensures
            res is Some <==> lookup(self@, key@) is Some,
            res is Some ==> res->0@ == lookup(self@, key@)->0,
    {
        let at: usize = self.index_of(key);
        if at < self.entries.len() {
            Some(self.value(at))
        } else {
            None
        }
    }

    /// Binds `key` to `value`, replacing an earlier binding.
    pub fn insert(&mut self, key: &str, value: &str)
        ensures
            final(self)@ == inserted(old(self)@, key@, value@),
            old(self).wf() ==> final(self).wf(),
    {
        let at: usize = self.index_of(key);
        let ghost before = self@;
        let entry = (key.to_owned(), value.to_owned());
        if at < self.entries.len() {
            self.entries.set(at, entry);
        } else {
            self.entries.push(entry);
        }
        proof {
            assert(self@ =~= inserted(before, key@, value@));
            if distinct_keys(before) {
                lemma_inserted_distinct(before, key@, value@);
            }
        }
    }

    /// Binds `key` to `value` unless it is bound already.
    pub fn insert_default(&mut self, key: &str, value: &str)
        ensures
            final(self)@ == defaulted(old(self)@, key@, value@),
            old(self).wf() ==> final(self).wf(),
    {
        let ghost before = self@;
        if !self.contains_key(key) {
            self.entries.push((key.to_owned(), value.to_owned()));
        }
        proof {
            assert(self@ =~= defaulted(before, key@, value@));
            if distinct_keys(before) {
                lemma_inserted_distinct(before, key@, value@);
            }
        }
    }

    pub fn copy(&self) -> (res: EnvMap)
        ensures
            res@ == self@,
    {
        let mut entries: Vec<(String, String)> = Vec::new();
        let mut i: usize = 0;
        while i < self.entries.len()
            invariant
                i <= self@.len(),
                self@.len() == self.entries@.len(),
                entries_view(entries@) == self@.take(i as int),
            decreases self@.len() - i,
        {
            let ghost before = entries@;
            entries.push((self.entries[i].0.clone(), self.entries[i].1.clone()));
            assert(entries_view(entries@) =~= entries_view(before).push(self@[i as int]));
            assert(self@.take(i + 1) =~= self@.take(i as int).push(self@[i as int]));
            i = i + 1;
        }
        assert(self@.take(i as int) =~= self@);
        EnvMap { entries }
    }
}

} // verus!
