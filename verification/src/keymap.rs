use vstd::prelude::*;

use crate::ident::{
    Key, NameOrder, lemma_name_lt_asymmetric, lemma_name_lt_irreflexive, lemma_name_lt_transitive,
    name_lt,
};

verus! {

/// Names in strictly increasing order (so no name occurs twice).
pub open spec fn names_sorted(ns: Seq<Seq<char>>) -> bool {
    forall|i: int, j: int| 0 <= i < j < ns.len() ==> name_lt(#[trigger] ns[i], #[trigger] ns[j])
}

/// The map from each name to the value at the same position.
pub open spec fn map_of<V>(ns: Seq<Seq<char>>, vs: Seq<V>) -> Map<Seq<char>, V> {
    Map::new(|k: Seq<char>| ns.contains(k), |k: Seq<char>| vs[ns.index_of(k)])
}

/// In a sorted sequence a name's only position is where it stands.
pub proof fn lemma_sorted_index_of(ns: Seq<Seq<char>>, j: int)
    requires
        names_sorted(ns),
        0 <= j < ns.len(),
    ensures
        ns.index_of(ns[j]) == j,
{
    assert(ns.contains(ns[j]));
    let i = ns.index_of(ns[j]);
    assert(0 <= i < ns.len() && ns[i] == ns[j]);
    if i < j {
        assert(name_lt(ns[i], ns[j]));
        lemma_name_lt_irreflexive(ns[j]);
    } else if j < i {
        assert(name_lt(ns[j], ns[i]));
        lemma_name_lt_irreflexive(ns[j]);
    }
}

/// What the map of a sorted sequence holds: each name, mapped to the value
/// at its position, and nothing else.
pub proof fn lemma_map_of<V>(ns: Seq<Seq<char>>, vs: Seq<V>)
    requires
        names_sorted(ns),
        ns.len() == vs.len(),
    ensures
        forall|k: Seq<char>| #[trigger] map_of(ns, vs).contains_key(k) <==> ns.contains(k),
        forall|j: int|
            0 <= j < ns.len() ==> #[trigger] map_of(ns, vs)[ns[j]] == vs[j] && map_of(
                ns,
                vs,
            ).contains_key(ns[j]),
{
    assert forall|j: int| 0 <= j < ns.len() implies #[trigger] map_of(ns, vs)[ns[j]] == vs[j]
        && map_of(ns, vs).contains_key(ns[j]) by {
        lemma_sorted_index_of(ns, j);
        assert(ns.contains(ns[j]));
    }
}

/// A map keyed by name, kept in increasing order of name, like a `BTreeMap`
/// whose keys are `Key`s.
#[derive(Debug)]
pub struct KeyMap<V> {
    entries: Vec<(Key, V)>,
}

impl<V> KeyMap<V> {
    /// The names, in order.
    pub closed spec fn names(&self) -> Seq<Seq<char>> {
        self.entries@.map_values(|e: (Key, V)| e.0@)
    }

    /// The values, in the order of their names.
    pub closed spec fn values(&self) -> Seq<V> {
        self.entries@.map_values(|e: (Key, V)| e.1)
    }

    /// Whether the names are in increasing order.
    #[verifier::type_invariant]
    pub closed spec fn sorted(&self) -> bool {
        names_sorted(self.names())
    }

    /// The facts the order gives: the names are sorted, there is one value
    /// per name, and the map holds each name with the value at its position.
    pub proof fn lemma_facts(&self)
        requires
            self.sorted(),
        ensures
            names_sorted(self.names()),
            self.names().len() == self.values().len(),
            forall|k: Seq<char>| #[trigger] self@.contains_key(k) <==> self.names().contains(k),
            forall|j: int|
                0 <= j < self.names().len() ==> #[trigger] self@[self.names()[j]]
                    == self.values()[j] && self@.contains_key(self.names()[j]),
    {
        lemma_map_of(self.names(), self.values());
    }

    /// An empty map.
    pub fn new() -> (r: KeyMap<V>)
        ensures
            r.names() == Seq::<Seq<char>>::empty(),
            r.values() == Seq::<V>::empty(),
            r@ == Map::<Seq<char>, V>::empty(),
    {
        let r = KeyMap { entries: Vec::new() };
        assert(r.names() =~= Seq::<Seq<char>>::empty());
        assert(r.values() =~= Seq::<V>::empty());
        assert(r@ =~= Map::<Seq<char>, V>::empty());
        r
    }

    pub fn len(&self) -> (r: usize)
        ensures
            r == self.names().len(),
            r == self.values().len(),
    {
        self.entries.len()
    }

    pub fn is_empty(&self) -> (r: bool)
        ensures
            r == (self.names().len() == 0),
    {
        self.entries.len() == 0
    }

    /// The key at a position.
    pub fn key_at(&self, i: usize) -> (r: &Key)
        requires
            i < self.names().len(),
        ensures
            r@ == self.names()[i as int],
    {
        &self.entries[i].0
    }

    /// The value at a position.
    pub fn value_at(&self, i: usize) -> (r: &V)
        requires
            i < self.names().len(),
        ensures
            *r == self.values()[i as int],
    {
        &self.entries[i].1
    }

    /// Where `key` stands (`Ok`), or where it would be inserted (`Err`).
    pub fn find(&self, key: &Key) -> (r: Result<usize, usize>)
        ensures
            match r {
                Ok(i) => i < self.names().len() && self.names()[i as int] == key@,
                Err(p) => p <= self.names().len() && !self.names().contains(key@) && (forall|j: int|
                    0 <= j < p ==> name_lt(#[trigger] self.names()[j], key@)) && (forall|j: int|
                    p <= j < self.names().len() ==> name_lt(key@, #[trigger] self.names()[j])),
            },
    {
        proof {
            use_type_invariant(self);
        }
        let n = self.entries.len();
        let mut i: usize = 0;
        while i < n
            invariant
                n == self.names().len(),
                names_sorted(self.names()),
                i <= n,
                forall|j: int| 0 <= j < i ==> name_lt(#[trigger] self.names()[j], key@),
            decreases n - i,
        {
            match self.entries[i].0.order(key) {
                NameOrder::Less => {},
                NameOrder::Equal => {
                    return Ok(i);
                },
                NameOrder::Greater => {
                    proof {
                        let ns = self.names();
                        assert forall|j: int| i <= j < n implies name_lt(key@, #[trigger] ns[j]) by {
                            if j > i {
                                lemma_name_lt_transitive(key@, ns[i as int], ns[j]);
                            }
                        }
                        assert forall|j: int| 0 <= j < n implies ns[j] != key@ by {
                            if j < i {
                                lemma_name_lt_irreflexive(key@);
                            } else {
                                lemma_name_lt_irreflexive(key@);
                            }
                        }
                    }
                    return Err(i);
                },
            }
            i = i + 1;
        }
        proof {
            let ns = self.names();
            assert forall|j: int| 0 <= j < n implies ns[j] != key@ by {
                lemma_name_lt_irreflexive(key@);
            }
        }
        Err(n)
    }

    /// The value stored under `key`.
    pub fn get(&self, key: &Key) -> (r: Option<&V>)
        ensures
            match r {
                Some(v) => self@.contains_key(key@) && *v == self@[key@],
                None => !self@.contains_key(key@),
            },
    {
        proof {
            use_type_invariant(self);
            self.lemma_facts();
        }
        match self.find(key) {
            Ok(i) => Some(&self.entries[i].1),
            Err(_) => None,
        }
    }

    pub fn contains_key(&self, key: &Key) -> (r: bool)
        ensures
            r == self@.contains_key(key@),
    {
        proof {
            use_type_invariant(self);
            self.lemma_facts();
        }
        match self.find(key) {
            Ok(_) => true,
            Err(_) => false,
        }
    }

    /// Stores `value` under `key`, handing back the value it replaces.
    pub fn insert(&mut self, key: Key, value: V) -> (r: Option<V>)
        ensures
            final(self)@ == old(self)@.insert(key@, value),
            match r {
                Some(v) => old(self)@.contains_key(key@) && v == old(self)@[key@],
                None => !old(self)@.contains_key(key@),
            },
            old(self)@.contains_key(key@) ==> final(self).names() == old(self).names(),
    {
        proof {
            use_type_invariant(&*self);
            self.lemma_facts();
        }
        let ghost ns = self.names();
        let ghost vs = self.values();
        let ghost name = key@;
        let found = self.find(&key);
        let mut entries: Vec<(Key, V)> = Vec::new();
        std::mem::swap(&mut entries, &mut self.entries);
        assert(entries@.map_values(|e: (Key, V)| e.0@) == ns);
        assert(entries@.map_values(|e: (Key, V)| e.1) == vs);
        match found {
            Ok(i) => {
                let (_, old_value) = entries.remove(i);
                entries.insert(i, (key, value));
                proof {
                    let ns2 = entries@.map_values(|e: (Key, V)| e.0@);
                    let vs2 = entries@.map_values(|e: (Key, V)| e.1);
                    assert(ns2 =~= ns);
                    assert(vs2 =~= vs.update(i as int, value));
                    lemma_map_of(ns2, vs2);
                    assert(map_of(ns2, vs2) =~= map_of(ns, vs).insert(name, value)) by {
                        assert forall|k: Seq<char>| #[trigger] map_of(ns2, vs2).contains_key(k) implies
                            map_of(ns2, vs2)[k] == map_of(ns, vs).insert(name, value)[k] by {
                            let j = ns.index_of(k);
                            assert(ns.contains(k));
                            assert(0 <= j < ns.len() && ns[j] == k);
                        }
                    }
                }
                self.entries = entries;
                Some(old_value)
            },
            Err(p) => {
                entries.insert(p, (key, value));
                proof {
                    let ns2 = entries@.map_values(|e: (Key, V)| e.0@);
                    let vs2 = entries@.map_values(|e: (Key, V)| e.1);
                    assert(ns2 =~= ns.insert(p as int, name));
                    assert(vs2 =~= vs.insert(p as int, value));
                    assert forall|a: int, b: int| 0 <= a < b < ns2.len() implies name_lt(
                        #[trigger] ns2[a],
                        #[trigger] ns2[b],
                    ) by {
                        if b < p {
                        } else if b == p {
                        } else if a < p {
                            assert(ns2[b] == ns[b - 1]);
                            if a < p {
                                lemma_name_lt_transitive(ns[a], name, ns[b - 1]);
                            }
                        } else if a == p {
                            assert(ns2[b] == ns[b - 1]);
                        } else {
                            assert(ns2[a] == ns[a - 1]);
                            assert(ns2[b] == ns[b - 1]);
                        }
                    }
                    lemma_map_of(ns2, vs2);
                    assert(map_of(ns2, vs2) =~= map_of(ns, vs).insert(name, value)) by {
                        assert forall|k: Seq<char>|
                            #[trigger] map_of(ns, vs).insert(name, value).contains_key(k) implies
                            map_of(ns2, vs2).contains_key(k) by {
                            if k == name {
                                assert(ns2[p as int] == name);
                            } else {
                                let j = ns.index_of(k);
                                assert(ns.contains(k));
                                if j < p {
                                    assert(ns2[j] == k);
                                } else {
                                    assert(ns2[j + 1] == k);
                                }
                            }
                        }
                        assert forall|k: Seq<char>| #[trigger] map_of(ns2, vs2).contains_key(k) implies
                            map_of(ns, vs).insert(name, value).contains_key(k)
                                && map_of(ns2, vs2)[k] == map_of(ns, vs).insert(name, value)[k] by {
                            let j = ns2.index_of(k);
                            assert(ns2.contains(k));
                            assert(0 <= j < ns2.len() && ns2[j] == k);
                            assert(map_of(ns2, vs2)[ns2[j]] == vs2[j]);
                            lemma_map_of(ns, vs);
                            if j < p {
                                assert(ns[j] == k);
                                assert(map_of(ns, vs)[ns[j]] == vs[j]);
                            } else if j > p {
                                assert(ns[j - 1] == k);
                                assert(map_of(ns, vs)[ns[j - 1]] == vs[j - 1]);
                            }
                        }
                    }
                }
                self.entries = entries;
                None
            },
        }
    }

    /// Removes `key`, handing back its value.
    pub fn remove(&mut self, key: &Key) -> (r: Option<V>)
        ensures
            final(self)@ == old(self)@.remove(key@),
            match r {
                Some(v) => old(self)@.contains_key(key@) && v == old(self)@[key@],
                None => !old(self)@.contains_key(key@) && final(self).names() == old(
                    self,
                ).names(),
            },
    {
        proof {
            use_type_invariant(&*self);
            self.lemma_facts();
        }
        let ghost ns = self.names();
        let ghost vs = self.values();
        let ghost name = key@;
        match self.find(key) {
            Ok(i) => {
                let mut entries: Vec<(Key, V)> = Vec::new();
        std::mem::swap(&mut entries, &mut self.entries);
                assert(entries@.map_values(|e: (Key, V)| e.0@) == ns);
                assert(entries@.map_values(|e: (Key, V)| e.1) == vs);
                let (_, old_value) = entries.remove(i);
                proof {
                    let ns2 = entries@.map_values(|e: (Key, V)| e.0@);
                    let vs2 = entries@.map_values(|e: (Key, V)| e.1);
                    assert(ns2 =~= ns.remove(i as int));
                    assert(vs2 =~= vs.remove(i as int));
                    assert forall|a: int, b: int| 0 <= a < b < ns2.len() implies name_lt(
                        #[trigger] ns2[a],
                        #[trigger] ns2[b],
                    ) by {
                        if a < i && b >= i {
                            assert(ns2[b] == ns[b + 1]);
                        } else if a >= i {
                            assert(ns2[a] == ns[a + 1]);
                            assert(ns2[b] == ns[b + 1]);
                        }
                    }
                    lemma_map_of(ns2, vs2);
                    assert(map_of(ns2, vs2) =~= map_of(ns, vs).remove(name)) by {
                        assert forall|k: Seq<char>|
                            #[trigger] map_of(ns, vs).remove(name).contains_key(k) implies
                            map_of(ns2, vs2).contains_key(k) by {
                            let j = ns.index_of(k);
                            assert(ns.contains(k));
                            if j < i {
                                assert(ns2[j] == k);
                            } else {
                                assert(j != i);
                                assert(ns2[j - 1] == k);
                            }
                        }
                        assert forall|k: Seq<char>| #[trigger] map_of(ns2, vs2).contains_key(k) implies
                            map_of(ns, vs).remove(name).contains_key(k) && map_of(ns2, vs2)[k]
                                == map_of(ns, vs).remove(name)[k] by {
                            let j = ns2.index_of(k);
                            assert(ns2.contains(k));
                            assert(0 <= j < ns2.len() && ns2[j] == k);
                            if j < i {
                                assert(ns[j] == k);
                                lemma_name_lt_irreflexive(k);
                            } else {
                                assert(ns[j + 1] == k);
                                lemma_name_lt_irreflexive(k);
                            }
                        }
                    }
                }
                self.entries = entries;
                Some(old_value)
            },
            Err(_) => {
                assert(map_of(ns, vs) =~= map_of(ns, vs).remove(name));
                None
            },
        }
    }

    /// Replaces the value at a position, handing back the old one; the names
    /// stay as they are.
    pub fn replace_at(&mut self, i: usize, value: V) -> (r: V)
        requires
            i < old(self).names().len(),
        ensures
            r == old(self).values()[i as int],
            final(self).names() == old(self).names(),
            final(self).values() == old(self).values().update(i as int, value),
            final(self)@ == old(self)@.insert(old(self).names()[i as int], value),
    {
        proof {
            use_type_invariant(&*self);
            self.lemma_facts();
        }
        let ghost ns = self.names();
        let ghost vs = self.values();
        let mut entries: Vec<(Key, V)> = Vec::new();
        std::mem::swap(&mut entries, &mut self.entries);
        assert(entries@.map_values(|e: (Key, V)| e.0@) == ns);
        assert(entries@.map_values(|e: (Key, V)| e.1) == vs);
        let (key, old_value) = entries.remove(i);
        entries.insert(i, (key, value));
        proof {
            let ns2 = entries@.map_values(|e: (Key, V)| e.0@);
            let vs2 = entries@.map_values(|e: (Key, V)| e.1);
            assert(ns2 =~= ns);
            assert(vs2 =~= vs.update(i as int, value));
            lemma_map_of(ns2, vs2);
            assert(map_of(ns2, vs2) =~= map_of(ns, vs).insert(ns[i as int], value)) by {
                assert forall|k: Seq<char>| #[trigger] map_of(ns2, vs2).contains_key(k) implies
                    map_of(ns2, vs2)[k] == map_of(ns, vs).insert(ns[i as int], value)[k] by {
                    let j = ns.index_of(k);
                    assert(ns.contains(k));
                    assert(0 <= j < ns.len() && ns[j] == k);
                }
            }
        }
        self.entries = entries;
        old_value
    }

    /// The keys, in order.
    pub fn keys(&self) -> (r: Vec<Key>)
        ensures
            r@.map_values(|k: Key| k@) == self.names(),
    {
        let mut r: Vec<Key> = Vec::new();
        let n = self.entries.len();
        let mut i: usize = 0;
        while i < n
            invariant
                n == self.names().len(),
                i <= n,
                r@.len() == i,
                forall|j: int| 0 <= j < i ==> #[trigger] r@[j]@ == self.names()[j],
            decreases n - i,
        {
            r.push(self.entries[i].0.clone());
            i = i + 1;
        }
        assert(r@.map_values(|k: Key| k@) =~= self.names());
        r
    }
}

impl<V: Clone> Clone for KeyMap<V> {
    /// The same names, each with a clone of its value.
    fn clone(&self) -> (r: KeyMap<V>)
        ensures
            r.names() == self.names(),
            r.values().len() == self.values().len(),
            forall|i: int|
                0 <= i < self.values().len() ==> cloned::<V>(
                    self.values()[i],
                    #[trigger] r.values()[i],
                ),
    {
        proof {
            use_type_invariant(self);
        }
        let n = self.entries.len();
        let mut entries: Vec<(Key, V)> = Vec::new();
        let mut i: usize = 0;
        while i < n
            invariant
                n == self.entries@.len(),
                i <= n,
                entries@.len() == i,
                forall|j: int| 0 <= j < i ==> #[trigger] entries@[j].0@ == self.entries@[j].0@,
                forall|j: int|
                    0 <= j < i ==> cloned::<V>(self.entries@[j].1, #[trigger] entries@[j].1),
            decreases n - i,
        {
            let k = self.entries[i].0.clone();
            let v = self.entries[i].1.clone();
            entries.push((k, v));
            i = i + 1;
        }
        assert(entries@.map_values(|e: (Key, V)| e.0@) =~= self.names());
        let r = KeyMap { entries };
        r
    }
}

impl<V> View for KeyMap<V> {
    type V = Map<Seq<char>, V>;

    open spec fn view(&self) -> Map<Seq<char>, V> {
        map_of(self.names(), self.values())
    }
}

} // verus!
