//! Tables from strings and from numbers to values, modelled as maps in
//! which the latest binding of a key wins.
use vstd::prelude::*;
use std::collections::HashMap;

verus! {

/// The map that the pairs `e` describe when read from first to last.
pub open spec fn pairs_map<V>(e: Seq<(Seq<char>, V)>) -> Map<Seq<char>, V>
    decreases e.len(),
{
    if e.len() == 0 {
        Map::empty()
    } else {
        pairs_map(e.drop_last()).insert(e.last().0, e.last().1)
    }
}

/// No key occurs twice in `e`.
pub open spec fn distinct_keys<V>(e: Seq<(Seq<char>, V)>) -> bool {
    forall|i: int, j: int| 0 <= i < j < e.len() ==> #[trigger] e[i].0 != #[trigger] e[j].0
}

/// With distinct keys, the map holds exactly the pairs of the list.
pub proof fn lemma_pairs_map_distinct<V>(e: Seq<(Seq<char>, V)>)
    requires
        distinct_keys(e),
    ensures
        forall|j: int|
            0 <= j < e.len() ==> pairs_map(e).contains_key(#[trigger] e[j].0) && pairs_map(e)[e[j].0]
                == e[j].1,
        forall|k: Seq<char>|
            #[trigger] pairs_map(e).contains_key(k) ==> exists|j: int| 0 <= j < e.len() && e[j].0 == k,
    decreases e.len(),
{
    if e.len() > 0 {
        let d = e.drop_last();
        assert(distinct_keys(d)) by {
            assert forall|i: int, j: int| 0 <= i < j < d.len() implies #[trigger] d[i].0 != #[trigger] d[j].0 by {
                assert(d[i] == e[i] && d[j] == e[j]);
            }
        }
        lemma_pairs_map_distinct(d);
        assert forall|j: int| 0 <= j < e.len() implies pairs_map(e).contains_key(#[trigger] e[j].0)
            && pairs_map(e)[e[j].0] == e[j].1 by {
            if j < e.len() - 1 {
                assert(d[j] == e[j]);
                assert(e[j].0 != e[e.len() - 1].0);
            }
        }
        assert forall|k: Seq<char>| #[trigger] pairs_map(e).contains_key(k) implies exists|j: int|
            0 <= j < e.len() && e[j].0 == k by {
            if k == e.last().0 {
                assert(e[e.len() - 1].0 == k);
            } else {
                assert(pairs_map(d).contains_key(k));
                let j = choose|j: int| 0 <= j < d.len() && d[j].0 == k;
                assert(e[j] == d[j]);
            }
        }
    }
}

/// Replacing the value of a key that occurs once rebinds that key.
proof fn lemma_pairs_map_update<V>(e: Seq<(Seq<char>, V)>, j: int, v: V)
    requires
        distinct_keys(e),
        0 <= j < e.len(),
    ensures
        distinct_keys(e.update(j, (e[j].0, v))),
        pairs_map(e.update(j, (e[j].0, v))) == pairs_map(e).insert(e[j].0, v),
{
    let u = e.update(j, (e[j].0, v));
    assert(distinct_keys(u)) by {
        assert forall|a: int, b: int| 0 <= a < b < u.len() implies #[trigger] u[a].0 != #[trigger] u[b].0 by {
            assert(u[a].0 == e[a].0 && u[b].0 == e[b].0);
        }
    }
    lemma_pairs_map_distinct(e);
    lemma_pairs_map_distinct(u);
    assert forall|k: Seq<char>| pairs_map(u).contains_key(k) <==> pairs_map(e).insert(e[j].0, v).contains_key(k) by {
        if pairs_map(u).contains_key(k) {
            let a = choose|a: int| 0 <= a < u.len() && u[a].0 == k;
            assert(e[a].0 == k);
        }
        if pairs_map(e).contains_key(k) {
            let a = choose|a: int| 0 <= a < e.len() && e[a].0 == k;
            assert(u[a].0 == k);
        }
        if k == e[j].0 {
            assert(u[j].0 == k);
        }
    }
    assert forall|k: Seq<char>| pairs_map(u).contains_key(k) implies pairs_map(u)[k] == pairs_map(e).insert(e[j].0, v)[k] by {
        let a = choose|a: int| 0 <= a < u.len() && u[a].0 == k;
        assert(u[a].0 == k);
        if a != j {
            assert(e[a].0 == k);
        }
    }
    assert(pairs_map(u) =~= pairs_map(e).insert(e[j].0, v));
}

/// A string-keyed table that holds each key once, in the order in which
/// the keys were first bound.
pub struct StringTable<T> {
    entries: Vec<(String, T)>,
}

impl<T> StringTable<T> {
    /// The keys with their values, in order.
    pub closed spec fn pairs(&self) -> Seq<(Seq<char>, T)> {
        self.entries@.map_values(|e: (String, T)| (e.0@, e.1))
    }

    #[verifier::type_invariant]
    closed spec fn keys_distinct(self) -> bool {
        distinct_keys(self.pairs())
    }
}

impl<T> View for StringTable<T> {
    type V = Map<Seq<char>, T>;

    closed spec fn view(&self) -> Map<Seq<char>, T> {
        pairs_map(self.pairs())
    }
}

impl<T> StringTable<T> {
    pub fn new() -> (t: Self)
        ensures
            t@ == Map::<Seq<char>, T>::empty(),
            t.pairs() == Seq::<(Seq<char>, T)>::empty(),
    {
        let t = StringTable { entries: Vec::new() };
        assert(t.pairs() =~= Seq::<(Seq<char>, T)>::empty());
        t
    }

    /// Where `key` is in the list.
    fn find(&self, key: &String) -> (r: Option<usize>)
        ensures
            match r {
                Some(j) => j < self.pairs().len() && self.pairs()[j as int].0 == key@,
                None => forall|j: int| 0 <= j < self.pairs().len() ==> self.pairs()[j].0 != key@,
            },
    {
        let mut j: usize = 0;
        while j < self.entries.len()
            invariant
                j <= self.entries@.len(),
                forall|m: int| 0 <= m < j ==> self.pairs()[m].0 != key@,
            decreases self.entries@.len() - j,
        {
            assert(self.pairs()[j as int].0 == self.entries@[j as int].0@);
            if self.entries[j].0 == *key {
                return Some(j);
            }
            j += 1;
        }
        None
    }

    /// Binds `key` to `value`, replacing an earlier binding in its place.
    pub fn insert(&mut self, key: String, value: T)
        ensures
            final(self)@ == old(self)@.insert(key@, value),
    {
        proof {
            use_type_invariant(&*self);
        }
        let ghost p = self.pairs();
        let ghost kv = key@;
        let found = self.find(&key);
        let mut entries: Vec<(String, T)> = Vec::new();
        std::mem::swap(&mut entries, &mut self.entries);
        assert(entries@.map_values(|e: (String, T)| (e.0@, e.1)) == p);
        match found {
            Some(j) => {
                proof {
                    lemma_pairs_map_update(p, j as int, value);
                }
                assert(p.update(j as int, (p[j as int].0, value)) =~= entries@.update(
                    j as int,
                    (key, value),
                ).map_values(|e: (String, T)| (e.0@, e.1)));
                entries.set(j, (key, value));
            },
            None => {
                assert(p.push((kv, value)) =~= entries@.push((key, value)).map_values(
                    |e: (String, T)| (e.0@, e.1),
                ));
                assert(distinct_keys(p.push((kv, value)))) by {
                    let q = p.push((kv, value));
                    assert forall|a: int, b: int| 0 <= a < b < q.len() implies #[trigger] q[a].0
                        != #[trigger] q[b].0 by {
                        if b < p.len() {
                            assert(q[a] == p[a] && q[b] == p[b]);
                        } else {
                            assert(q[a] == p[a]);
                        }
                    }
                }
                assert(p.push((kv, value)).drop_last() =~= p);
                entries.push((key, value));
            },
        }
        self.entries = entries;
    }

    /// Removes every binding.
    pub fn clear(&mut self)
        ensures
            final(self)@ == Map::<Seq<char>, T>::empty(),
    {
        self.entries = Vec::new();
        assert(self.pairs() =~= Seq::<(Seq<char>, T)>::empty());
    }

    /// The value bound to `key`.
    pub fn get(&self, key: &String) -> (r: Option<&T>)
        ensures
            match r {
                Some(v) => self@.contains_key(key@) && *v == self@[key@],
                None => !self@.contains_key(key@),
            },
    {
        proof {
            use_type_invariant(self);
            lemma_pairs_map_distinct(self.pairs());
        }
        match self.find(key) {
            Some(j) => Some(&self.entries[j].1),
            None => {
                proof {
                    if self@.contains_key(key@) {
                        let j = choose|j: int| 0 <= j < self.pairs().len() && self.pairs()[j].0 == key@;
                    }
                }
                None
            },
        }
    }

    /// Is `key` bound?
    pub fn contains_key(&self, key: &String) -> (r: bool)
        ensures
            r == self@.contains_key(key@),
    {
        self.get(key).is_some()
    }

    /// The number of keys; no key occurs twice among the pairs, which
    /// describe the table.
    pub fn len(&self) -> (r: usize)
        ensures
            r == self.pairs().len(),
            distinct_keys(self.pairs()),
            pairs_map(self.pairs()) == self@,
    {
        proof {
            use_type_invariant(self);
        }
        self.entries.len()
    }

    /// The `j`-th key in order, with its value.
    pub fn entry(&self, j: usize) -> (r: (&String, &T))
        requires
            j < self.pairs().len(),
        ensures
            r.0@ == self.pairs()[j as int].0,
            *r.1 == self.pairs()[j as int].1,
    {
        (&self.entries[j].0, &self.entries[j].1)
    }
}

/// A table keyed by numbers.
pub struct NumberTable<T> {
    map: HashMap<u64, T>,
}

impl<T> View for NumberTable<T> {
    type V = Map<u64, T>;

    closed spec fn view(&self) -> Map<u64, T> {
        self.map@
    }
}

impl<T> NumberTable<T> {
    /// The empty table.
    pub fn new() -> (t: Self)
        ensures
            t@ == Map::<u64, T>::empty(),
    {
        NumberTable { map: HashMap::new() }
    }

    /// Binds `key` to `value`, replacing an earlier binding.
    pub fn insert(&mut self, key: u64, value: T)
        ensures
            final(self)@ == old(self)@.insert(key, value),
    {
        broadcast use vstd::std_specs::hash::group_hash_axioms;

        self.map.insert(key, value);
    }

    /// The value bound to `key`.
    pub fn get(&self, key: u64) -> (r: Option<&T>)
        ensures
            match r {
                Some(v) => self@.contains_key(key) && *v == self@[key],
                None => !self@.contains_key(key),
            },
    {
        broadcast use vstd::std_specs::hash::group_hash_axioms;

        self.map.get(&key)
    }
}

} // verus!
