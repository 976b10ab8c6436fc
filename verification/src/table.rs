//! A small map kept as a list of entries with distinct keys.

use vstd::prelude::*;

verus! {

/// A key of a table: compared by its spec value.
pub trait TableKey: Sized {
    /// The value by which keys are compared.
    type Spec;

    spec fn key(&self) -> Self::Spec;

    /// Whether two keys are the same.
    fn same_key(&self, other: &Self) -> (r: bool)
        ensures
            r == (self.key() == other.key());
}

impl TableKey for u16 {
    type Spec = u16;

    open spec fn key(&self) -> u16 {
        *self
    }

    fn same_key(&self, other: &Self) -> (r: bool) {
        *self == *other
    }
}

impl TableKey for Vec<u8> {
    type Spec = Seq<u8>;

    open spec fn key(&self) -> Seq<u8> {
        self@
    }

    fn same_key(&self, other: &Self) -> (r: bool) {
        bytes_equal(self.as_slice(), other.as_slice())
    }
}

/// Whether two byte slices hold the same bytes.
pub fn bytes_equal(a: &[u8], b: &[u8]) -> (r: bool)
    ensures
        r == (a@ == b@),
{
    if a.len() != b.len() {
        return false;
    }
    let mut i: usize = 0;
    while i < a.len()
        invariant
            i <= a@.len(),
            a@.len() == b@.len(),
            forall|j: int| 0 <= j < i ==> a@[j] == b@[j],
        decreases a@.len() - i,
    {
        if a[i] != b[i] {
            return false;
        }
        i = i + 1;
    }
    assert(a@ =~= b@);
    true
}

/// No key occurs twice in `s`.
pub open spec fn keys_distinct<K: TableKey, V>(s: Seq<(K, V)>) -> bool {
    forall|i: int, j: int| 0 <= i < s.len() && 0 <= j < s.len() && i != j ==> s[i].0.key() != s[j].0.key()
}

/// Some entry of `s` has key `k`.
pub open spec fn has_key<K: TableKey, V>(s: Seq<(K, V)>, k: K::Spec) -> bool {
    exists|i: int| 0 <= i < s.len() && s[i].0.key() == k
}

/// The map that the entries `s` stand for.
pub open spec fn entries_map<K: TableKey, V>(s: Seq<(K, V)>) -> Map<K::Spec, V> {
    Map::new(
        |k: K::Spec| has_key(s, k),
        |k: K::Spec| s[choose|i: int| 0 <= i < s.len() && s[i].0.key() == k].1,
    )
}

/// The entry at index `i` is the map's binding of its key.
pub proof fn lemma_entries_index<K: TableKey, V>(s: Seq<(K, V)>, i: int)
    requires
        keys_distinct(s),
        0 <= i < s.len(),
    ensures
        entries_map(s).dom().contains(s[i].0.key()),
        entries_map(s)[s[i].0.key()] == s[i].1,
{
    let k = s[i].0.key();
    assert(has_key(s, k));
    let j = choose|j: int| 0 <= j < s.len() && s[j].0.key() == k;
    assert(j == i);
}

/// Appending an entry with a new key inserts it into the map.
pub proof fn lemma_entries_push<K: TableKey, V>(s: Seq<(K, V)>, k: K, v: V)
    requires
        keys_distinct(s),
        !has_key(s, k.key()),
    ensures
        keys_distinct(s.push((k, v))),
        entries_map(s.push((k, v))) == entries_map(s).insert(k.key(), v),
{
    let t = s.push((k, v));
    let kk = k.key();
    assert(keys_distinct(t));
    assert forall|key: K::Spec| #[trigger] entries_map(t).dom().contains(key)
        <==> entries_map(s).insert(kk, v).dom().contains(key) by {
        if has_key(t, key) && key != kk {
            let i = choose|i: int| 0 <= i < t.len() && t[i].0.key() == key;
            assert(s[i].0.key() == key);
        }
        if key == kk {
            assert(t[s.len() as int].0.key() == kk);
        }
        if has_key(s, key) {
            let i = choose|i: int| 0 <= i < s.len() && s[i].0.key() == key;
            assert(t[i].0.key() == key);
        }
    }
    assert forall|key: K::Spec| #[trigger] entries_map(t).dom().contains(key)
        implies entries_map(t)[key] == entries_map(s).insert(kk, v)[key] by {
        let i = choose|i: int| 0 <= i < t.len() && t[i].0.key() == key;
        lemma_entries_index(t, i);
        if key != kk {
            assert(i < s.len());
            lemma_entries_index(s, i);
        }
    }
    assert(entries_map(t) =~= entries_map(s).insert(kk, v));
}

/// Replacing the entry at index `i` by one with the same key rebinds it.
pub proof fn lemma_entries_update<K: TableKey, V>(s: Seq<(K, V)>, i: int, k: K, v: V)
    requires
        keys_distinct(s),
        0 <= i < s.len(),
        k.key() == s[i].0.key(),
    ensures
        keys_distinct(s.update(i, (k, v))),
        entries_map(s.update(i, (k, v))) == entries_map(s).insert(k.key(), v),
{
    let kk = k.key();
    let t = s.update(i, (k, v));
    assert(keys_distinct(t));
    assert forall|key: K::Spec| #[trigger] entries_map(t).dom().contains(key)
        <==> entries_map(s).insert(kk, v).dom().contains(key) by {
        if has_key(t, key) {
            let j = choose|j: int| 0 <= j < t.len() && t[j].0.key() == key;
            assert(s[j].0.key() == key);
        }
        if has_key(s, key) {
            let j = choose|j: int| 0 <= j < s.len() && s[j].0.key() == key;
            assert(t[j].0.key() == key);
        }
        assert(t[i].0.key() == kk);
    }
    assert forall|key: K::Spec| #[trigger] entries_map(t).dom().contains(key)
        implies entries_map(t)[key] == entries_map(s).insert(kk, v)[key] by {
        let j = choose|j: int| 0 <= j < t.len() && t[j].0.key() == key;
        lemma_entries_index(t, j);
        if j != i {
            lemma_entries_index(s, j);
        }
    }
    assert(entries_map(t) =~= entries_map(s).insert(kk, v));
}

/// Removing the entry at index `i` removes its key from the map.
pub proof fn lemma_entries_remove<K: TableKey, V>(s: Seq<(K, V)>, i: int)
    requires
        keys_distinct(s),
        0 <= i < s.len(),
    ensures
        keys_distinct(s.remove(i)),
        entries_map(s.remove(i)) == entries_map(s).remove(s[i].0.key()),
{
    let k = s[i].0.key();
    let t = s.remove(i);
    assert forall|a: int, b: int| 0 <= a < t.len() && 0 <= b < t.len() && a != b implies t[a].0.key() != t[b].0.key() by {
        let sa = if a < i { a } else { a + 1 };
        let sb = if b < i { b } else { b + 1 };
        assert(t[a] == s[sa]);
        assert(t[b] == s[sb]);
    }
    assert forall|key: K::Spec| #[trigger] entries_map(t).dom().contains(key)
        <==> entries_map(s).remove(k).dom().contains(key) by {
        if has_key(t, key) {
            let j = choose|j: int| 0 <= j < t.len() && t[j].0.key() == key;
            let sj = if j < i { j } else { j + 1 };
            assert(t[j] == s[sj]);
            assert(sj != i);
        }
        if has_key(s, key) && key != k {
            let j = choose|j: int| 0 <= j < s.len() && s[j].0.key() == key;
            assert(j != i);
            let tj = if j < i { j } else { j - 1 };
            assert(t[tj] == s[j]);
        }
    }
    assert forall|key: K::Spec| #[trigger] entries_map(t).dom().contains(key)
        implies entries_map(t)[key] == entries_map(s).remove(k)[key] by {
        let j = choose|j: int| 0 <= j < t.len() && t[j].0.key() == key;
        lemma_entries_index(t, j);
        let sj = if j < i { j } else { j + 1 };
        assert(t[j] == s[sj]);
        lemma_entries_index(s, sj);
    }
    assert(entries_map(t) =~= entries_map(s).remove(k));
}

/// The map is empty exactly when there are no entries.
pub proof fn lemma_entries_empty<K: TableKey, V>(s: Seq<(K, V)>)
    ensures
        (entries_map(s).dom() == Set::<K::Spec>::empty()) <==> s.len() == 0,
{
    if s.len() > 0 {
        assert(entries_map(s).dom().contains(s[0].0.key()));
    } else {
        assert(entries_map(s).dom() =~= Set::<K::Spec>::empty());
    }
}

/// A map kept as a list of entries with distinct keys, in insertion order.
pub struct Table<K, V> {
    entries: Vec<(K, V)>,
}

impl<K: TableKey, V> View for Table<K, V> {
    type V = Map<K::Spec, V>;

    closed spec fn view(&self) -> Map<K::Spec, V> {
        entries_map(self.entries@)
    }
}

impl<K: TableKey, V> Table<K, V> {
    /// The stored entries, in storage order.
    pub closed spec fn entries(&self) -> Seq<(K, V)> {
        self.entries@
    }

    /// The table's invariant: no key is stored twice.
    pub open spec fn wf(&self) -> bool {
        keys_distinct(self.entries())
    }

    /// The view is the map of the stored entries.
    pub proof fn lemma_view_entries(&self)
        ensures
            self@ == entries_map(self.entries()),
    {
    }

    /// An empty table.
    pub fn new() -> (r: Self)
        ensures
            r.wf(),
            r.entries() == Seq::<(K, V)>::empty(),
            r@ == Map::<K::Spec, V>::empty(),
    {
        let r = Table { entries: Vec::new() };
        assert(r@ =~= Map::<K::Spec, V>::empty());
        r
    }

    /// A table holding the given entries.
    pub fn from_entries(entries: Vec<(K, V)>) -> (r: Self)
        requires
            keys_distinct(entries@),
        ensures
            r.wf(),
            r.entries() == entries@,
    {
        Table { entries }
    }

    /// The stored entries, in storage order.
    pub fn into_entries(self) -> (r: Vec<(K, V)>)
        ensures
            r@ == self.entries(),
    {
        self.entries
    }

    /// The number of entries.
    pub fn len(&self) -> (r: usize)
        ensures
            r == self.entries().len(),
    {
        self.entries.len()
    }

    /// The index of the entry with key `k`, if any.
    pub fn find(&self, k: &K) -> (r: Option<usize>)
        requires
            self.wf(),
        ensures
            r matches Some(i) ==> i < self.entries().len() && self.entries()[i as int].0.key() == k.key(),
            r is None ==> !has_key(self.entries(), k.key()),
            r is None <==> !self@.dom().contains(k.key()),
    {
        let mut i: usize = 0;
        while i < self.entries.len()
            invariant
                i <= self.entries@.len(),
                forall|j: int| 0 <= j < i ==> self.entries@[j].0.key() != k.key(),
            decreases self.entries@.len() - i,
        {
            if self.entries[i].0.same_key(k) {
                return Some(i);
            }
            i = i + 1;
        }
        None
    }

    /// The key and value at index `i`.
    pub fn entry_at(&self, i: usize) -> (r: &(K, V))
        requires
            i < self.entries().len(),
        ensures
            *r == self.entries()[i as int],
    {
        &self.entries[i]
    }

    /// A mutable reference to the value at index `i`; whatever is written
    /// through it becomes the value of that entry, under the same key.
    pub fn value_mut_at(&mut self, i: usize) -> (r: &mut V)
        requires
            old(self).wf(),
            i < old(self).entries().len(),
        ensures
            *r == old(self).entries()[i as int].1,
            final(self).entries() == old(self).entries().update(i as int, (old(self).entries()[i as int].0, *final(r))),
            final(self).wf(),
            final(self)@ == old(self)@.insert(old(self).entries()[i as int].0.key(), *final(r)),
    {
        let ghost s = self.entries@;
        let r = &mut self.entries[i].1;
        proof {
            lemma_entries_update(s, i as int, s[i as int].0, *final(r));
        }
        r
    }

    /// Whether `k` is bound.
    pub fn contains_key(&self, k: &K) -> (r: bool)
        requires
            self.wf(),
        ensures
            r == self@.dom().contains(k.key()),
    {
        self.find(k).is_some()
    }

    /// The value bound to `k`, if any.
    pub fn get(&self, k: &K) -> (r: Option<&V>)
        requires
            self.wf(),
        ensures
            r matches Some(v) ==> self@.dom().contains(k.key()) && *v == self@[k.key()],
            r is None ==> !self@.dom().contains(k.key()),
    {
        match self.find(k) {
            Some(i) => {
                proof {
                    lemma_entries_index(self.entries@, i as int);
                }
                Some(&self.entries[i].1)
            },
            None => None,
        }
    }

    /// Binds `k` to `v`: replaces the entry of an equal key in place, or
    /// appends a new entry.
    pub fn insert(&mut self, k: K, v: V)
        requires
            old(self).wf(),
        ensures
            final(self).wf(),
            final(self)@ == old(self)@.insert(k.key(), v),
            (match old(self).find_spec(k.key()) {
                Some(i) => final(self).entries() == old(self).entries().update(i, (k, v)),
                None => final(self).entries() == old(self).entries().push((k, v)),
            }),
    {
        match self.find(&k) {
            Some(i) => {
                proof {
                    lemma_entries_update(self.entries@, i as int, k, v);
                }
                self.entries.set(i, (k, v));
            },
            None => {
                proof {
                    lemma_entries_push(self.entries@, k, v);
                }
                self.entries.push((k, v));
            },
        }
    }

    /// The index of the entry with key `k`, if any.
    pub open spec fn find_spec(&self, k: K::Spec) -> Option<int> {
        if has_key(self.entries(), k) {
            Some(choose|i: int| 0 <= i < self.entries().len() && self.entries()[i].0.key() == k)
        } else {
            None
        }
    }

    /// `find_spec` gives the only index of the key.
    pub proof fn lemma_find_spec(&self, k: K::Spec)
        requires
            self.wf(),
        ensures
            self.find_spec(k) matches Some(i) ==> 0 <= i < self.entries().len() && self.entries()[i].0.key() == k
                && forall|j: int| 0 <= j < self.entries().len() && self.entries()[j].0.key() == k ==> j == i,
            self.find_spec(k) is None <==> !self@.dom().contains(k),
    {
    }

    /// Replaces the value at index `i`, keeping its key and place, and
    /// returns the old value.
    pub fn replace_at(&mut self, i: usize, v: V) -> (r: V)
        requires
            old(self).wf(),
            i < old(self).entries().len(),
        ensures
            final(self).wf(),
            r == old(self).entries()[i as int].1,
            final(self).entries() == old(self).entries().update(i as int, (old(self).entries()[i as int].0, v)),
            final(self)@ == old(self)@.insert(old(self).entries()[i as int].0.key(), v),
    {
        let ghost s = self.entries@;
        let (k, old_v) = self.entries.remove(i);
        self.entries.insert(i, (k, v));
        proof {
            assert(self.entries@ =~= s.update(i as int, (s[i as int].0, v)));
            lemma_entries_update(s, i as int, s[i as int].0, v);
        }
        old_v
    }

    /// Removes the entry at index `i` and returns it.
    pub fn remove_at(&mut self, i: usize) -> (r: (K, V))
        requires
            old(self).wf(),
            i < old(self).entries().len(),
        ensures
            final(self).wf(),
            r == old(self).entries()[i as int],
            final(self).entries() == old(self).entries().remove(i as int),
            final(self)@ == old(self)@.remove(old(self).entries()[i as int].0.key()),
    {
        proof {
            lemma_entries_remove(self.entries@, i as int);
        }
        self.entries.remove(i)
    }

    /// Inserts an entry with a key not yet bound at index `i`.
    pub fn insert_at(&mut self, i: usize, k: K, v: V)
        requires
            old(self).wf(),
            i <= old(self).entries().len(),
            !old(self)@.dom().contains(k.key()),
        ensures
            final(self).wf(),
            final(self).entries() == old(self).entries().insert(i as int, (k, v)),
            final(self)@ == old(self)@.insert(k.key(), v),
    {
        let ghost s = self.entries@;
        let ghost kk = k.key();
        self.entries.insert(i, (k, v));
        proof {
            let t = self.entries@;
            assert forall|a: int, b: int| 0 <= a < t.len() && 0 <= b < t.len() && a != b implies t[a].0.key() != t[b].0.key() by {
                if a != i && b != i {
                    let sa = if a < i { a } else { a - 1 };
                    let sb = if b < i { b } else { b - 1 };
                    assert(t[a] == s[sa]);
                    assert(t[b] == s[sb]);
                } else if a == i {
                    let sb = if b < i { b } else { b - 1 };
                    assert(t[b] == s[sb]);
                    assert(has_key(s, s[sb].0.key()));
                } else {
                    let sa = if a < i { a } else { a - 1 };
                    assert(t[a] == s[sa]);
                    assert(has_key(s, s[sa].0.key()));
                }
            }
            assert forall|key: K::Spec| #[trigger] entries_map(t).dom().contains(key)
                <==> entries_map(s).insert(kk, v).dom().contains(key) by {
                if has_key(t, key) && key != kk {
                    let j = choose|j: int| 0 <= j < t.len() && t[j].0.key() == key;
                    let sj = if j < i { j } else { j - 1 };
                    assert(j != i);
                    assert(t[j] == s[sj]);
                }
                if key == kk {
                    assert(t[i as int].0.key() == kk);
                }
                if has_key(s, key) {
                    let j = choose|j: int| 0 <= j < s.len() && s[j].0.key() == key;
                    let tj = if j < i { j } else { j + 1 };
                    assert(t[tj] == s[j]);
                }
            }
            assert forall|key: K::Spec| #[trigger] entries_map(t).dom().contains(key)
                implies entries_map(t)[key] == entries_map(s).insert(kk, v)[key] by {
                let j = choose|j: int| 0 <= j < t.len() && t[j].0.key() == key;
                lemma_entries_index(t, j);
                if j != i {
                    let sj = if j < i { j } else { j - 1 };
                    assert(t[j] == s[sj]);
                    lemma_entries_index(s, sj);
                }
            }
            assert(entries_map(t) =~= entries_map(s).insert(kk, v));
        }
    }

    /// Removes the binding of `k` and returns its value, if any.
    pub fn remove(&mut self, k: &K) -> (r: Option<V>)
        requires
            old(self).wf(),
        ensures
            final(self).wf(),
            final(self)@ == old(self)@.remove(k.key()),
            r matches Some(v) ==> old(self)@.dom().contains(k.key()) && v == old(self)@[k.key()],
            r is None ==> !old(self)@.dom().contains(k.key()) && final(self).entries() == old(self).entries(),
            (match old(self).find_spec(k.key()) {
                Some(i) => final(self).entries() == old(self).entries().remove(i),
                None => final(self).entries() == old(self).entries(),
            }),
    {
        match self.find(k) {
            Some(i) => {
                proof {
                    lemma_entries_index(self.entries@, i as int);
                    lemma_entries_remove(self.entries@, i as int);
                }
                let (_, v) = self.entries.remove(i);
                Some(v)
            },
            None => {
                proof {
                    assert(old(self)@.remove(k.key()) =~= old(self)@);
                }
                None
            },
        }
    }

    /// Whether no key is bound.
    pub fn is_empty(&self) -> (r: bool)
        ensures
            r == (self@.dom() == Set::<K::Spec>::empty()),
            r == (self.entries().len() == 0),
    {
        proof {
            lemma_entries_empty(self.entries@);
        }
        self.entries.len() == 0
    }
}

} // verus!

verus! {

impl<V> Table<u16, V> {
    /// The bound keys, each once.
    pub fn keys(&self) -> (r: Vec<u16>)
        requires
            self.wf(),
        ensures
            forall|i: int, j: int| 0 <= i < r@.len() && 0 <= j < r@.len() && i != j ==> r@[i] != r@[j],
            forall|k: u16| self@.dom().contains(k) <==> r@.contains(k),
    {
        let mut r: Vec<u16> = Vec::new();
        let mut i: usize = 0;
        while i < self.len()
            invariant
                i <= self.entries().len(),
                keys_distinct(self.entries()),
                r@.len() == i,
                forall|j: int| 0 <= j < i ==> r@[j] == self.entries()[j].0,
            decreases self.entries().len() - i,
        {
            let e = self.entry_at(i);
            r.push(e.0);
            i = i + 1;
        }
        proof {
            self.lemma_view_entries();
        }
        assert forall|k: u16| self@.dom().contains(k) <==> r@.contains(k) by {
            if self@.dom().contains(k) {
                let j = choose|j: int| 0 <= j < self.entries().len() && self.entries()[j].0.key() == k;
                assert(r@[j] == k);
            }
            if r@.contains(k) {
                let j = choose|j: int| 0 <= j < r@.len() && r@[j] == k;
                assert(has_key(self.entries(), k));
            }
        }
        r
    }
}

} // verus!
