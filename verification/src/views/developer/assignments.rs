use vstd::prelude::*;

verus! {

broadcast use vstd::string::group_string_axioms;

/// The map that an association list of `(name, layers)` pairs stands for.
pub open spec fn entries_map(es: Seq<(Seq<char>, Seq<u32>)>) -> Map<Seq<char>, Seq<u32>>
    decreases es.len(),
{
    if es.len() == 0 {
        Map::empty()
    } else {
        entries_map(es.drop_last()).insert(es.last().0, es.last().1)
    }
}

/// Whether no name occurs twice among `es`.
pub open spec fn names_distinct(es: Seq<(Seq<char>, Seq<u32>)>) -> bool {
    forall|i: int, j: int| 0 <= i < j < es.len() ==> es[i].0 != es[j].0
}

pub proof fn lemma_entries_map(es: Seq<(Seq<char>, Seq<u32>)>)
    requires
        names_distinct(es),
    ensures
        forall|k: Seq<char>| #[trigger] entries_map(es).dom().contains(k)
            <==> exists|i: int| 0 <= i < es.len() && es[i].0 == k,
        forall|i: int| 0 <= i < es.len() ==> #[trigger] entries_map(es)[es[i].0] == es[i].1,
    decreases es.len(),
{
    if es.len() > 0 {
        let d = es.drop_last();
        lemma_entries_map(d);
        assert forall|k: Seq<char>| #[trigger] entries_map(es).dom().contains(k)
            <==> exists|i: int| 0 <= i < es.len() && es[i].0 == k by {
            if entries_map(es).dom().contains(k) && k != es.last().0 {
                assert(entries_map(d).dom().contains(k));
                let i = choose|i: int| 0 <= i < d.len() && d[i].0 == k;
                assert(d[i] == es[i]);
                assert(es[i].0 == k);
            }
            if entries_map(es).dom().contains(k) && k == es.last().0 {
                assert(es[es.len() - 1].0 == k);
            }
            if exists|i: int| 0 <= i < es.len() && es[i].0 == k {
                let i = choose|i: int| 0 <= i < es.len() && es[i].0 == k;
                if i < d.len() {
                    assert(d[i] == es[i]);
                    assert(d[i].0 == k);
                    assert(entries_map(d).dom().contains(k));
                }
            }
        }
        assert forall|i: int| 0 <= i < es.len() implies #[trigger] entries_map(es)[es[i].0]
            == es[i].1 by {
            if i < d.len() {
                assert(d[i] == es[i]);
                assert(es[i].0 != es[es.len() - 1].0);
                assert(entries_map(d)[d[i].0] == d[i].1);
            }
        }
    }
}

/// Layers assigned to shards by name: each name at most once, in the order first assigned.
#[derive(Debug)]
pub struct Assignments {
    entries: Vec<(String, Vec<u32>)>,
}

impl Assignments {
    /// The `(name, layers)` pairs, in order.
    pub closed spec fn entries(self) -> Seq<(Seq<char>, Seq<u32>)> {
        self.entries@.map_values(|e: (String, Vec<u32>)| (e.0@, e.1@))
    }

    /// The assignment as a map from shard name to its layers.
    pub open spec fn map(self) -> Map<Seq<char>, Seq<u32>> {
        entries_map(self.entries())
    }

    /// No shard name occurs twice.
    pub open spec fn wf(self) -> bool {
        names_distinct(self.entries())
    }

    pub proof fn lemma_map(self)
        requires
            self.wf(),
        ensures
            forall|k: Seq<char>| #[trigger] self.map().dom().contains(k)
                <==> exists|i: int| 0 <= i < self.entries().len() && self.entries()[i].0 == k,
            forall|i: int| 0 <= i < self.entries().len() ==> #[trigger] self.map()[self.entries()[i].0]
                == self.entries()[i].1,
            self.map().dom().finite(),
    {
        lemma_entries_map(self.entries());
        lemma_entries_map_finite(self.entries());
    }

    /// No assignments.
    pub fn new() -> (a: Assignments)
        ensures
            a.wf(),
            a.map() == Map::<Seq<char>, Seq<u32>>::empty(),
            a.entries().len() == 0,
    {
        let a = Assignments { entries: Vec::new() };
        assert(a.entries() =~= Seq::empty());
        a
    }

    /// How many shards have an assignment.
    pub fn len(&self) -> (n: usize)
        ensures
            n == self.entries().len(),
    {
        self.entries.len()
    }

    /// The name of the `i`-th assigned shard.
    pub fn name_at(&self, i: usize) -> (s: &String)
        requires
            i < self.entries().len(),
        ensures
            s@ == self.entries()[i as int].0,
    {
        &self.entries[i].0
    }

    /// The layers of the `i`-th assigned shard.
    pub fn layers_at(&self, i: usize) -> (l: &Vec<u32>)
        requires
            i < self.entries().len(),
        ensures
            l@ == self.entries()[i as int].1,
    {
        &self.entries[i].1
    }

    fn index_of(&self, name: &String) -> (r: Option<usize>)
        ensures
            match r {
                Some(i) => i < self.entries().len() && self.entries()[i as int].0 == name@,
                None => forall|i: int| 0 <= i < self.entries().len() ==> self.entries()[i].0 != name@,
            },
    {
        let mut i: usize = 0;
        while i < self.entries.len()
            invariant
                i <= self.entries().len(),
                self.entries().len() == self.entries@.len(),
                forall|j: int| 0 <= j < i ==> self.entries()[j].0 != name@,
            decreases self.entries@.len() - i,
        {
            if self.entries[i].0 == *name {
                return Some(i);
            }
            i = i + 1;
        }
        None
    }

    /// The layers assigned to `name`, if any.
    pub fn get(&self, name: &String) -> (r: Option<&Vec<u32>>)
        requires
            self.wf(),
        ensures
            match r {
                Some(l) => self.map().dom().contains(name@) && l@ == self.map()[name@],
                None => !self.map().dom().contains(name@),
            },
    {
        proof {
            self.lemma_map();
        }
        match self.index_of(name) {
            Some(i) => Some(&self.entries[i].1),
            None => None,
        }
    }

    /// Whether `name` has an assignment.
    pub fn contains_key(&self, name: &String) -> (b: bool)
        requires
            self.wf(),
        ensures
            b == self.map().dom().contains(name@),
    {
        proof {
            self.lemma_map();
        }
        self.index_of(name).is_some()
    }

    /// Assigns `layers` to `name`, replacing what it had.
    pub fn insert(&mut self, name: String, layers: Vec<u32>)
        requires
            old(self).wf(),
        ensures
            final(self).wf(),
            final(self).map() == old(self).map().insert(name@, layers@),
    {
        proof {
            old(self).lemma_map();
        }
        let ghost k = name@;
        let ghost v = layers@;
        match self.index_of(&name) {
            Some(i) => {
                let ghost o = self.entries();
                self.entries.set(i, (name, layers));
                assert(self.entries() =~= o.update(i as int, (k, v)));
                proof {
                    self.lemma_map();
                    assert(self.map() =~= old(self).map().insert(k, v)) by {
                        assert forall|key: Seq<char>| #[trigger] self.map().dom().contains(key)
                            <==> old(self).map().insert(k, v).dom().contains(key) by {
                            if self.map().dom().contains(key) {
                                let j = choose|j: int| 0 <= j < self.entries().len()
                                    && self.entries()[j].0 == key;
                                if j != i {
                                    assert(o[j].0 == key);
                                }
                            }
                            if old(self).map().dom().contains(key) {
                                let j = choose|j: int| 0 <= j < o.len() && o[j].0 == key;
                                assert(self.entries()[j].0 == key);
                            }
                        }
                        assert forall|key: Seq<char>| #[trigger] self.map().dom().contains(key)
                            implies self.map()[key] == old(self).map().insert(k, v)[key] by {
                            let j = choose|j: int| 0 <= j < self.entries().len()
                                && self.entries()[j].0 == key;
                            assert(self.map()[self.entries()[j].0] == self.entries()[j].1);
                            if j != i {
                                assert(old(self).map()[o[j].0] == o[j].1);
                            }
                        }
                    }
                }
            },
            None => {
                let ghost o = self.entries();
                self.entries.push((name, layers));
                assert(self.entries() =~= o.push((k, v)));
                assert(self.entries().drop_last() =~= o);
            },
        }
    }

    /// Drops the assignment of `name`, if it has one.
    pub fn remove(&mut self, name: &String)
        requires
            old(self).wf(),
        ensures
            final(self).wf(),
            final(self).map() == old(self).map().remove(name@),
    {
        proof {
            old(self).lemma_map();
        }
        match self.index_of(name) {
            Some(i) => {
                let ghost o = self.entries();
                self.entries.remove(i);
                assert(self.entries() =~= o.remove(i as int));
                proof {
                    self.lemma_map();
                    assert(self.map() =~= old(self).map().remove(name@)) by {
                        assert forall|key: Seq<char>| #[trigger] self.map().dom().contains(key)
                            <==> old(self).map().remove(name@).dom().contains(key) by {
                            if self.map().dom().contains(key) {
                                let j = choose|j: int| 0 <= j < self.entries().len()
                                    && self.entries()[j].0 == key;
                                if j < i {
                                    assert(o[j].0 == key);
                                } else {
                                    assert(o[j + 1].0 == key);
                                }
                            }
                            if old(self).map().remove(name@).dom().contains(key) {
                                let j = choose|j: int| 0 <= j < o.len() && o[j].0 == key;
                                if j < i {
                                    assert(self.entries()[j].0 == key);
                                } else if j > i {
                                    assert(self.entries()[j - 1].0 == key);
                                }
                            }
                        }
                        assert forall|key: Seq<char>| #[trigger] self.map().dom().contains(key)
                            implies self.map()[key] == old(self).map().remove(name@)[key] by {
                            let j = choose|j: int| 0 <= j < self.entries().len()
                                && self.entries()[j].0 == key;
                            assert(self.map()[self.entries()[j].0] == self.entries()[j].1);
                            if j < i {
                                assert(old(self).map()[o[j].0] == o[j].1);
                            } else {
                                assert(old(self).map()[o[j + 1].0] == o[j + 1].1);
                            }
                        }
                    }
                }
            },
            None => {
                assert(old(self).map().remove(name@) =~= old(self).map());
            },
        }
    }
}

proof fn lemma_entries_map_finite(es: Seq<(Seq<char>, Seq<u32>)>)
    ensures
        entries_map(es).dom().finite(),
    decreases es.len(),
{
    if es.len() > 0 {
        lemma_entries_map_finite(es.drop_last());
    }
}

} // verus!
