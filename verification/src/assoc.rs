use vstd::prelude::*;

verus! {

/// Keys of an [`AssocMap`]: values with an abstract identity and an
/// executable comparison that decides it.
pub trait MapKey: Sized {
    type KV;

    spec fn key_view(&self) -> Self::KV;

    fn key_eq(&self, other: &Self) -> (r: bool)
        ensures
            r == (self.key_view() == other.key_view());

    fn key_clone(&self) -> (r: Self)
        ensures
            r.key_view() == self.key_view();
}

impl MapKey for String {
    type KV = Seq<char>;

    open spec fn key_view(&self) -> Seq<char> {
        self@
    }

    fn key_eq(&self, other: &Self) -> (r: bool) {
        *self == *other
    }

    fn key_clone(&self) -> (r: Self) {
        self.clone()
    }
}

/// The map that a list of entries denotes; later entries win.
pub open spec fn entries_map<K: MapKey, V>(s: Seq<(K, V)>) -> Map<K::KV, V>
    decreases s.len(),
{
    if s.len() == 0 {
        Map::empty()
    } else {
        entries_map(s.drop_last()).insert(s.last().0.key_view(), s.last().1)
    }
}

/// No two entries have the same key.
pub open spec fn keys_unique<K: MapKey, V>(s: Seq<(K, V)>) -> bool {
    forall|i: int, j: int| 0 <= i < j < s.len() ==> (#[trigger] s[i]).0.key_view() != (#[trigger] s[j]).0.key_view()
}

/// The keys of a list of entries, in order.
pub open spec fn entry_keys<K: MapKey, V>(s: Seq<(K, V)>) -> Seq<K::KV> {
    s.map_values(|e: (K, V)| e.0.key_view())
}

/// The identities of a sequence of keys.
pub open spec fn key_views<K: MapKey>(s: Seq<K>) -> Seq<K::KV> {
    s.map_values(|x: K| x.key_view())
}

/// A finite map kept as a list of entries with distinct keys, in insertion order.
#[derive(Debug)]
pub struct AssocMap<K: MapKey, V> {
    entries: Vec<(K, V)>,
}

impl<K: MapKey, V> View for AssocMap<K, V> {
    type V = Map<K::KV, V>;

    closed spec fn view(&self) -> Map<K::KV, V> {
        entries_map(self.entries@)
    }
}

pub proof fn lemma_entries_map_dom<K: MapKey, V>(s: Seq<(K, V)>, k: K::KV)
    ensures
        entries_map(s).contains_key(k) <==> exists|i: int| 0 <= i < s.len() && (#[trigger] s[i]).0.key_view() == k,
    decreases s.len(),
{
    if s.len() > 0 {
        lemma_entries_map_dom(s.drop_last(), k);
        if entries_map(s.drop_last()).contains_key(k) {
            let i = choose|i: int| 0 <= i < s.drop_last().len() && (#[trigger] s.drop_last()[i]).0.key_view() == k;
            assert(s[i] == s.drop_last()[i]);
        }
        if exists|i: int| 0 <= i < s.len() && (#[trigger] s[i]).0.key_view() == k {
            let i = choose|i: int| 0 <= i < s.len() && (#[trigger] s[i]).0.key_view() == k;
            if i < s.len() - 1 {
                assert(s.drop_last()[i] == s[i]);
            }
        }
    }
}

pub proof fn lemma_entries_map_at<K: MapKey, V>(s: Seq<(K, V)>, i: int)
    requires
        keys_unique(s),
        0 <= i < s.len(),
    ensures
        entries_map(s).contains_key(s[i].0.key_view()),
        entries_map(s)[s[i].0.key_view()] == s[i].1,
    decreases s.len(),
{
    if i < s.len() - 1 {
        assert(s.drop_last()[i] == s[i]);
        assert(keys_unique(s.drop_last())) by {
            assert forall|a: int, b: int| 0 <= a < b < s.drop_last().len() implies
                (#[trigger] s.drop_last()[a]).0.key_view() != (#[trigger] s.drop_last()[b]).0.key_view() by {
                assert(s.drop_last()[a] == s[a] && s.drop_last()[b] == s[b]);
            }
        }
        lemma_entries_map_at(s.drop_last(), i);
    }
}

proof fn lemma_entries_map_update<K: MapKey, V>(s: Seq<(K, V)>, i: int, e: (K, V))
    requires
        keys_unique(s),
        0 <= i < s.len(),
        s[i].0.key_view() == e.0.key_view(),
    ensures
        entries_map(s.update(i, e)) == entries_map(s).insert(e.0.key_view(), e.1),
        keys_unique(s.update(i, e)),
    decreases s.len(),
{
    let t = s.update(i, e);
    if i == s.len() - 1 {
        assert(t.drop_last() =~= s.drop_last());
        assert(entries_map(s.drop_last()).insert(e.0.key_view(), e.1) =~=
            entries_map(s).insert(e.0.key_view(), e.1));
    } else {
        let sd = s.drop_last();
        assert(keys_unique(sd)) by {
            assert forall|a: int, b: int| 0 <= a < b < sd.len() implies
                (#[trigger] sd[a]).0.key_view() != (#[trigger] sd[b]).0.key_view() by {
                assert(sd[a] == s[a] && sd[b] == s[b]);
            }
        }
        lemma_entries_map_update(sd, i, e);
        assert(t.drop_last() =~= sd.update(i, e));
        assert(s.last().0.key_view() != e.0.key_view());
        assert(entries_map(t) =~= entries_map(s).insert(e.0.key_view(), e.1));
    }
    assert forall|a: int, b: int| 0 <= a < b < t.len() implies
        (#[trigger] t[a]).0.key_view() != (#[trigger] t[b]).0.key_view() by {
        assert(s[a].0.key_view() != s[b].0.key_view());
    }
}

proof fn lemma_entries_map_remove<K: MapKey, V>(s: Seq<(K, V)>, i: int)
    requires
        keys_unique(s),
        0 <= i < s.len(),
    ensures
        entries_map(s.remove(i)) == entries_map(s).remove(s[i].0.key_view()),
        keys_unique(s.remove(i)),
    decreases s.len(),
{
    let t = s.remove(i);
    let k = s[i].0.key_view();
    if i == s.len() - 1 {
        assert(t =~= s.drop_last());
        lemma_entries_map_dom(s.drop_last(), k);
        assert forall|j: int| 0 <= j < s.drop_last().len() implies (#[trigger] s.drop_last()[j]).0.key_view() != k by {
            assert(s.drop_last()[j] == s[j]);
        }
        assert(entries_map(t) =~= entries_map(s).remove(k));
    } else {
        let sd = s.drop_last();
        assert(keys_unique(sd)) by {
            assert forall|a: int, b: int| 0 <= a < b < sd.len() implies
                (#[trigger] sd[a]).0.key_view() != (#[trigger] sd[b]).0.key_view() by {
                assert(sd[a] == s[a] && sd[b] == s[b]);
            }
        }
        lemma_entries_map_remove(sd, i);
        assert(t.drop_last() =~= sd.remove(i));
        assert(t.last() == s.last());
        assert(s.last().0.key_view() != k);
        assert(sd[i] == s[i]);
        assert(entries_map(t) =~= entries_map(s).remove(k));
    }
    assert forall|a: int, b: int| 0 <= a < b < t.len() implies
        (#[trigger] t[a]).0.key_view() != (#[trigger] t[b]).0.key_view() by {
        let a2 = if a < i { a } else { a + 1 };
        let b2 = if b < i { b } else { b + 1 };
        assert(t[a] == s[a2] && t[b] == s[b2]);
    }
}

impl<K: MapKey, V> AssocMap<K, V> {
    #[verifier::type_invariant]
    closed spec fn inv(self) -> bool {
        keys_unique(self.entries@)
    }

    /// The keys in insertion order.
    pub closed spec fn key_order(&self) -> Seq<K::KV> {
        entry_keys(self.entries@)
    }

    /// The entries in insertion order.
    pub closed spec fn entry_seq(&self) -> Seq<(K, V)> {
        self.entries@
    }

    /// The entries denote the map, and their keys are the key order.
    pub proof fn lemma_entry_seq(&self)
        ensures
            entries_map(self.entry_seq()) == self@,
            entry_keys(self.entry_seq()) == self.key_order(),
    {
    }

    /// An empty map.
    pub fn new() -> (m: Self)
        ensures
            m@ == Map::<K::KV, V>::empty(),
            m.key_order() == Seq::<K::KV>::empty(),
    {
        let m = AssocMap { entries: Vec::new() };
        proof {
            assert(entry_keys(m.entries@) =~= Seq::<K::KV>::empty());
        }
        m
    }

    fn find(&self, k: &K) -> (r: Option<usize>)
        ensures
            r matches Some(i) ==> i < self.entries@.len() && self.entries@[i as int].0.key_view() == k.key_view(),
            r is None ==> forall|i: int| 0 <= i < self.entries@.len() ==> (#[trigger] self.entries@[i]).0.key_view() != k.key_view(),
    {
        let mut i: usize = 0;
        while i < self.entries.len()
            invariant
                i <= self.entries@.len(),
                forall|j: int| 0 <= j < i ==> (#[trigger] self.entries@[j]).0.key_view() != k.key_view(),
            decreases self.entries@.len() - i,
        {
            if self.entries[i].0.key_eq(k) {
                return Some(i);
            }
            i = i + 1;
        }
        None
    }

    /// The value bound to `k`, if any.
    pub fn get(&self, k: &K) -> (r: Option<&V>)
        ensures
            r matches Some(v) ==> self@.contains_key(k.key_view()) && *v == self@[k.key_view()],
            r is None ==> !self@.contains_key(k.key_view()),
    {
        proof {
            use_type_invariant(self);
        }
        match self.find(k) {
            Some(i) => {
                proof {
                    lemma_entries_map_at(self.entries@, i as int);
                }
                Some(&self.entries[i].1)
            },
            None => {
                proof {
                    lemma_entries_map_dom(self.entries@, k.key_view());
                }
                None
            },
        }
    }

    /// Whether `k` is bound.
    pub fn contains_key(&self, k: &K) -> (r: bool)
        ensures
            r == self@.contains_key(k.key_view()),
    {
        self.get(k).is_some()
    }

    /// Binds `k` to `v`, replacing an earlier binding of `k` in place.
    pub fn insert(&mut self, k: K, v: V)
        ensures
            final(self)@ == old(self)@.insert(k.key_view(), v),
            old(self)@.contains_key(k.key_view()) ==> final(self).key_order() == old(self).key_order(),
            !old(self)@.contains_key(k.key_view()) ==> final(self).key_order() == old(self).key_order().push(k.key_view()),
    {
        proof {
            use_type_invariant(&*self);
            lemma_entries_map_dom(self.entries@, k.key_view());
        }
        let found = self.find(&k);
        let mut entries: Vec<(K, V)> = Vec::new();
        std::mem::swap(&mut entries, &mut self.entries);
        match found {
            Some(i) => {
                let ghost e = (k, v);
                proof {
                    lemma_entries_map_update(entries@, i as int, (k, v));
                }
                entries.set(i, (k, v));
                proof {
                    assert(entries@ == old(self).entries@.update(i as int, e));
                    assert(entry_keys(entries@) =~= entry_keys(old(self).entries@));
                }
            },
            None => {
                let ghost kv = k.key_view();
                entries.push((k, v));
                proof {
                    assert(entries@.drop_last() =~= old(self).entries@);
                    assert(entry_keys(entries@) =~= entry_keys(old(self).entries@).push(kv));
                    assert forall|a: int, b: int| 0 <= a < b < entries@.len() implies
                        (#[trigger] entries@[a]).0.key_view() != (#[trigger] entries@[b]).0.key_view() by {
                        if b == entries@.len() - 1 {
                            assert(entries@[a] == old(self).entries@[a]);
                        } else {
                            assert(entries@[a] == old(self).entries@[a] && entries@[b] == old(self).entries@[b]);
                        }
                    }
                }
            },
        }
        self.entries = entries;
    }

    /// Binds `k` to `v` and returns the value it was bound to, if any. An
    /// existing key keeps its place in the key order.
    pub fn replace(&mut self, k: K, v: V) -> (r: Option<V>)
        ensures
            final(self)@ == old(self)@.insert(k.key_view(), v),
            old(self)@.contains_key(k.key_view()) ==> (r == Some(old(self)@[k.key_view()])
                && final(self).key_order() == old(self).key_order()),
            !old(self)@.contains_key(k.key_view()) ==> (r is None
                && final(self).key_order() == old(self).key_order().push(k.key_view())),
    {
        proof {
            use_type_invariant(&*self);
            lemma_entries_map_dom(self.entries@, k.key_view());
        }
        match self.find(&k) {
            Some(i) => {
                proof {
                    lemma_entries_map_at(self.entries@, i as int);
                    lemma_entries_map_update(self.entries@, i as int, (k, v));
                }
                let mut entries: Vec<(K, V)> = Vec::new();
                std::mem::swap(&mut entries, &mut self.entries);
                let ghost e = (k, v);
                let old_entry = entries.remove(i);
                entries.insert(i, (k, v));
                proof {
                    assert(entries@ =~= old(self).entries@.update(i as int, e));
                    assert(entry_keys(entries@) =~= entry_keys(old(self).entries@));
                }
                self.entries = entries;
                Some(old_entry.1)
            },
            None => {
                self.insert(k, v);
                None
            },
        }
    }

    /// Removes the binding of `k`; tells whether there was one.
    pub fn remove(&mut self, k: &K) -> (r: bool)
        ensures
            r == old(self)@.contains_key(k.key_view()),
            final(self)@ == old(self)@.remove(k.key_view()),
    {
        proof {
            use_type_invariant(&*self);
            lemma_entries_map_dom(self.entries@, k.key_view());
        }
        match self.find(k) {
            Some(i) => {
                proof {
                    lemma_entries_map_remove(self.entries@, i as int);
                }
                let mut entries: Vec<(K, V)> = Vec::new();
                std::mem::swap(&mut entries, &mut self.entries);
                entries.remove(i);
                self.entries = entries;
                true
            },
            None => {
                proof {
                    assert(old(self)@.remove(k.key_view()) =~= old(self)@);
                }
                false
            },
        }
    }

    /// The keys, each once, in insertion order.
    pub fn keys(&self) -> (r: Vec<K>)
        ensures
            key_views(r@) == self.key_order(),
            self.key_order().to_set() == self@.dom(),
            self.key_order().no_duplicates(),
    {
        proof {
            use_type_invariant(self);
        }
        let mut r: Vec<K> = Vec::new();
        let mut i: usize = 0;
        while i < self.entries.len()
            invariant
                i <= self.entries@.len(),
                r@.len() == i,
                key_views(r@) == entry_keys(self.entries@).subrange(0, i as int),
            decreases self.entries@.len() - i,
        {
            let c = self.entries[i].0.key_clone();
            let ghost prev = r@;
            r.push(c);
            proof {
                let a = key_views(r@);
                let b = entry_keys(self.entries@).subrange(0, i + 1);
                assert(key_views(prev) == entry_keys(self.entries@).subrange(0, i as int));
                assert forall|j: int| 0 <= j < a.len() implies a[j] == b[j] by {
                    if j < i {
                        assert(r@[j] == prev[j]);
                        assert(a[j] == key_views(prev)[j]);
                    }
                }
                assert(a =~= b);
            }
            i = i + 1;
        }
        proof {
            assert(entry_keys(self.entries@).subrange(0, i as int) =~= entry_keys(self.entries@));
            assert forall|k: K::KV| self.key_order().to_set().contains(k) <==> self@.dom().contains(k) by {
                lemma_entries_map_dom(self.entries@, k);
                if self@.dom().contains(k) {
                    let j = choose|j: int| 0 <= j < self.entries@.len() && (#[trigger] self.entries@[j]).0.key_view() == k;
                    assert(self.key_order()[j] == k);
                }
            }
            assert(self.key_order().to_set() =~= self@.dom());
        }
        r
    }

    /// The entries in insertion order.
    pub fn entries(&self) -> (r: &Vec<(K, V)>)
        ensures
            r@ == self.entry_seq(),
            entries_map(r@) == self@,
            keys_unique(r@),
            entry_keys(r@) == self.key_order(),
    {
        proof {
            use_type_invariant(self);
        }
        &self.entries
    }
}

} // verus!
