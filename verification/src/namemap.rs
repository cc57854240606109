//! A map keyed by names: each name occurs at most once, and the map
//! remembers the order in which names were first inserted.
use vstd::prelude::*;

verus! {

/// The names of a sequence of entries.
pub open spec fn keys_of<V>(entries: Seq<(String, V)>) -> Seq<Seq<char>> {
    Seq::new(entries.len(), |i: int| entries[i].0@)
}

/// The map that a sequence of entries with distinct names stands for.
pub open spec fn map_of<V>(entries: Seq<(String, V)>) -> Map<Seq<char>, V> {
    Map::new(
        |k: Seq<char>| keys_of(entries).contains(k),
        |k: Seq<char>| entries[keys_of(entries).index_of(k)].1,
    )
}

/// Whether `out` lists, each once, exactly those of the first `i` names of
/// `ks` that satisfy `p`: what a walk over `ks` that keeps the names
/// satisfying `p` has gathered after `i` steps.
pub open spec fn collects(out: Seq<Seq<char>>, ks: Seq<Seq<char>>, i: int, p: spec_fn(Seq<char>) -> bool) -> bool {
    &&& out.no_duplicates()
    &&& forall|j: int| 0 <= j < out.len() ==> exists|k: int| 0 <= k < i && #[trigger] out[j] == ks[k]
    &&& forall|n: Seq<char>| #[trigger] out.contains(n) <==> (exists|k: int| 0 <= k < i && ks[k] == n) && p(n)
}

/// Before the walk nothing is gathered.
pub proof fn lemma_collects_start(ks: Seq<Seq<char>>, p: spec_fn(Seq<char>) -> bool)
    ensures
        collects(Seq::empty(), ks, 0, p),
{
}

/// One step of the walk: the next name is kept exactly when it satisfies `p`.
pub proof fn lemma_collects_step(out: Seq<Seq<char>>, ks: Seq<Seq<char>>, i: int, p: spec_fn(Seq<char>) -> bool)
    requires
        ks.no_duplicates(),
        0 <= i < ks.len(),
        collects(out, ks, i, p),
    ensures
        p(ks[i]) ==> collects(out.push(ks[i]), ks, i + 1, p),
        !p(ks[i]) ==> collects(out, ks, i + 1, p),
{
    let nm = ks[i];
    if p(nm) {
        let o2 = out.push(nm);
        assert forall|j: int| 0 <= j < out.len() implies out[j] != nm by {
            let k = choose|k: int| 0 <= k < i && #[trigger] out[j] == ks[k];
            assert(ks[k] == out[j]);
        }
        assert forall|j: int| 0 <= j < o2.len() implies exists|k: int| 0 <= k < i + 1 && #[trigger] o2[j] == ks[k] by {
            if j < out.len() {
                assert(o2[j] == out[j]);
                let k = choose|k: int| 0 <= k < i && #[trigger] out[j] == ks[k];
                assert(o2[j] == ks[k]);
            } else {
                assert(o2[j] == ks[i]);
            }
        }
        assert forall|n: Seq<char>| #[trigger] o2.contains(n)
            <==> (exists|k: int| 0 <= k < i + 1 && ks[k] == n) && p(n) by {
            if o2.contains(n) && n != nm {
                let j = choose|j: int| 0 <= j < o2.len() && o2[j] == n;
                assert(out[j] == n);
                assert(out.contains(n));
            }
            if n == nm {
                assert(o2[o2.len() - 1] == nm);
            }
            if (exists|k: int| 0 <= k < i + 1 && ks[k] == n) && p(n) && n != nm {
                let k = choose|k: int| 0 <= k < i + 1 && ks[k] == n;
                assert(k != i);
                assert(out.contains(n));
                let j = choose|j: int| 0 <= j < out.len() && out[j] == n;
                assert(o2[j] == n);
            }
        }
    } else {
        assert forall|j: int| 0 <= j < out.len() implies exists|k: int| 0 <= k < i + 1 && #[trigger] out[j] == ks[k] by {
            let k = choose|k: int| 0 <= k < i && #[trigger] out[j] == ks[k];
        }
        assert forall|n: Seq<char>| #[trigger] out.contains(n)
            <==> (exists|k: int| 0 <= k < i + 1 && ks[k] == n) && p(n) by {
            if (exists|k: int| 0 <= k < i + 1 && ks[k] == n) && p(n) {
                let k = choose|k: int| 0 <= k < i + 1 && ks[k] == n;
                assert(k != i);
            }
        }
    }
}

/// After the whole walk, the names gathered are exactly those of `ks` that
/// satisfy `p`.
pub proof fn lemma_collects_done(out: Seq<Seq<char>>, ks: Seq<Seq<char>>, p: spec_fn(Seq<char>) -> bool)
    requires
        collects(out, ks, ks.len() as int, p),
    ensures
        out.no_duplicates(),
        forall|n: Seq<char>| #[trigger] out.contains(n) <==> ks.contains(n) && p(n),
{
    assert forall|n: Seq<char>| #[trigger] out.contains(n) <==> ks.contains(n) && p(n) by {
        if ks.contains(n) && p(n) {
            let k = choose|k: int| 0 <= k < ks.len() && ks[k] == n;
            assert(exists|k: int| 0 <= k < ks.len() && ks[k] == n);
        }
    }
}

/// A finite map from names to values, kept as a list of entries with
/// distinct names.
pub struct NameMap<V> {
    entries: Vec<(String, V)>,
}

impl<V> View for NameMap<V> {
    type V = Map<Seq<char>, V>;

    open spec fn view(&self) -> Map<Seq<char>, V> {
        self.as_map()
    }
}

/// Looking a name up in the list of entries finds the entry that carries it.
proof fn lemma_entry_lookup<V>(entries: Seq<(String, V)>, i: int)
    requires
        keys_of(entries).no_duplicates(),
        0 <= i < entries.len(),
    ensures
        map_of(entries).contains_key(entries[i].0@),
        map_of(entries)[entries[i].0@] == entries[i].1,
{
    let ks = keys_of(entries);
    assert(ks[i] == entries[i].0@);
    assert(ks.contains(entries[i].0@));
    let j = ks.index_of(entries[i].0@);
    assert(ks[j] == entries[i].0@);
}

impl<V> NameMap<V> {
    /// The map's contents.
    pub closed spec fn as_map(&self) -> Map<Seq<char>, V> {
        map_of(self.entries@)
    }

    /// The names in the map, in the order in which they were first inserted.
    pub closed spec fn key_seq(&self) -> Seq<Seq<char>> {
        keys_of(self.entries@)
    }

    /// Well-formedness: no name occurs twice.
    pub closed spec fn wf(&self) -> bool {
        self.key_seq().no_duplicates()
    }

    /// The names listed by `key_seq` are exactly the names in the map, each once.
    pub proof fn lemma_keys(&self)
        requires
            self.wf(),
        ensures
            self.key_seq().no_duplicates(),
            self@.dom() == self.key_seq().to_set(),
            self@.dom().finite(),
            self@.len() == self.key_seq().len(),
            forall|k: Seq<char>| #[trigger] self@.contains_key(k) <==> self.key_seq().contains(k),
    {
        let ks = self.key_seq();
        assert(self@.dom() =~= ks.to_set());
        ks.unique_seq_to_set();
        vstd::seq_lib::seq_to_set_is_finite(ks);
    }

    /// An empty map.
    pub fn new() -> (m: Self)
        ensures
            m.wf(),
            m@ == Map::<Seq<char>, V>::empty(),
            m.key_seq() == Seq::<Seq<char>>::empty(),
    {
        let m = NameMap { entries: Vec::new() };
        assert(m.key_seq() =~= Seq::<Seq<char>>::empty());
        assert(m@ =~= Map::<Seq<char>, V>::empty());
        m
    }

    /// The position of `k` among the entries, if it is there.
    fn find(&self, k: &String) -> (r: Option<usize>)
        requires
            self.wf(),
        ensures
            match r {
                Some(i) => i < self.key_seq().len() && self.key_seq()[i as int] == k@,
                None => !self.key_seq().contains(k@),
            },
    {
        let n = self.entries.len();
        let mut i: usize = 0;
        while i < n
            invariant
                n == self.entries@.len(),
                0 <= i <= n,
                forall|j: int| 0 <= j < i ==> self.key_seq()[j] != k@,
            decreases n - i,
        {
            if self.entries[i].0 == *k {
                return Some(i);
            }
            i = i + 1;
        }
        None
    }

    /// The number of names in the map.
    pub fn len(&self) -> (r: usize)
        requires
            self.wf(),
        ensures
            r == self.key_seq().len(),
            r == self@.len(),
    {
        proof {
            self.lemma_keys();
        }
        self.entries.len()
    }

    /// Whether `k` is in the map.
    pub fn contains_key(&self, k: &String) -> (r: bool)
        requires
            self.wf(),
        ensures
            r == self@.contains_key(k@),
    {
        proof {
            self.lemma_keys();
        }
        self.find(k).is_some()
    }

    /// The value stored under `k`, if any.
    pub fn get(&self, k: &String) -> (r: Option<&V>)
        requires
            self.wf(),
        ensures
            match r {
                Some(v) => self@.contains_key(k@) && *v == self@[k@],
                None => !self@.contains_key(k@),
            },
    {
        proof {
            self.lemma_keys();
        }
        match self.find(k) {
            Some(i) => {
                proof {
                    lemma_entry_lookup(self.entries@, i as int);
                }
                Some(&self.entries[i].1)
            },
            None => None,
        }
    }

    /// The name at position `i` in insertion order.
    pub fn key_at(&self, i: usize) -> (r: &String)
        requires
            i < self.key_seq().len(),
        ensures
            r@ == self.key_seq()[i as int],
    {
        &self.entries[i].0
    }

    /// The value stored under the name at position `i` in insertion order.
    pub fn value_at(&self, i: usize) -> (r: &V)
        requires
            self.wf(),
            i < self.key_seq().len(),
        ensures
            self@.contains_key(self.key_seq()[i as int]),
            *r == self@[self.key_seq()[i as int]],
    {
        proof {
            lemma_entry_lookup(self.entries@, i as int);
        }
        &self.entries[i].1
    }

    /// Stores `v` under `k`, replacing any value already stored there.
    /// A name already present keeps its position; a new one goes last.
    pub fn insert(&mut self, k: String, v: V)
        requires
            old(self).wf(),
        ensures
            final(self).wf(),
            final(self)@ == old(self)@.insert(k@, v),
            final(self).key_seq() == (if old(self)@.contains_key(k@) {
                old(self).key_seq()
            } else {
                old(self).key_seq().push(k@)
            }),
    {
        proof {
            old(self).lemma_keys();
        }
        let ghost old_entries = self.entries@;
        let ghost kv = k@;
        match self.find(&k) {
            Some(i) => {
                self.entries.set(i, (k, v));
                proof {
                    let e = self.entries@;
                    assert(keys_of(e) =~= keys_of(old_entries));
                    lemma_entry_lookup(e, i as int);
                    assert forall|q: Seq<char>| #[trigger] map_of(e).contains_key(q) && q != kv
                        implies map_of(e)[q] == map_of(old_entries)[q] by {
                        let j = keys_of(e).index_of(q);
                        assert(keys_of(e)[j] == q);
                        assert(j != i);
                        lemma_entry_lookup(old_entries, j);
                    }
                    assert(map_of(e) =~= map_of(old_entries).insert(kv, v));
                }
            },
            None => {
                self.entries.push((k, v));
                proof {
                    let e = self.entries@;
                    assert(keys_of(e) =~= keys_of(old_entries).push(kv));
                    lemma_entry_lookup(e, old_entries.len() as int);
                    assert forall|q: Seq<char>| #[trigger] map_of(e).contains_key(q) && q != kv
                        implies map_of(e)[q] == map_of(old_entries)[q] by {
                        let j = keys_of(e).index_of(q);
                        assert(keys_of(e)[j] == q);
                        assert(j != old_entries.len());
                        assert(keys_of(old_entries)[j] == q);
                        lemma_entry_lookup(old_entries, j);
                        lemma_entry_lookup(e, j);
                    }
                    assert forall|q: Seq<char>| #[trigger] map_of(old_entries).contains_key(q)
                        implies map_of(e).contains_key(q) by {
                        let j = keys_of(old_entries).index_of(q);
                        assert(keys_of(e)[j] == q);
                    }
                    assert(map_of(e) =~= map_of(old_entries).insert(kv, v));
                }
            },
        }
    }

    /// Removes `k` and returns the value stored under it, if any.
    /// The other names keep their order.
    pub fn remove(&mut self, k: &String) -> (r: Option<V>)
        requires
            old(self).wf(),
        ensures
            final(self).wf(),
            final(self)@ == old(self)@.remove(k@),
            match r {
                Some(v) => old(self)@.contains_key(k@) && v == old(self)@[k@],
                None => !old(self)@.contains_key(k@),
            },
    {
        proof {
            old(self).lemma_keys();
        }
        let ghost old_entries = self.entries@;
        let ghost kv = k@;
        match self.find(k) {
            Some(i) => {
                proof {
                    lemma_entry_lookup(old_entries, i as int);
                }
                let (_, v) = self.entries.remove(i);
                proof {
                    let e = self.entries@;
                    assert(keys_of(e) =~= keys_of(old_entries).remove(i as int));
                    assert forall|q: Seq<char>| #[trigger] map_of(e).contains_key(q)
                        implies q != kv && map_of(old_entries).contains_key(q)
                            && map_of(e)[q] == map_of(old_entries)[q] by {
                        let j = keys_of(e).index_of(q);
                        assert(keys_of(e)[j] == q);
                        let oj = if j < i { j } else { j + 1 };
                        assert(keys_of(old_entries)[oj] == q);
                        lemma_entry_lookup(old_entries, oj);
                        lemma_entry_lookup(e, j);
                    }
                    assert forall|q: Seq<char>| #[trigger] map_of(old_entries).contains_key(q)
                        && q != kv implies map_of(e).contains_key(q) by {
                        let j = keys_of(old_entries).index_of(q);
                        assert(j != i);
                        let nj = if j < i { j } else { j - 1 };
                        assert(keys_of(e)[nj] == q);
                    }
                    assert(map_of(e) =~= map_of(old_entries).remove(kv));
                }
                Some(v)
            },
            None => {
                proof {
                    assert(map_of(old_entries) =~= map_of(old_entries).remove(kv));
                }
                None
            },
        }
    }
}

} // verus!
