use vstd::prelude::*;

use fnv::FnvHashMap;
use fnv::FnvHasher;

verus! {

/// `fnv::FnvHasher`, the hasher of the maps below. Nothing is said of what
/// is inside one.
#[verifier::external_type_specification]
#[verifier::external_body]
pub struct ExFnvHasher(FnvHasher);

/// `core::hash::BuildHasherDefault`, which makes the hashers of a map.
/// Nothing is said of what is inside one.
#[verifier::external_type_specification]
#[verifier::external_body]
#[verifier::reject_recursive_types(H)]
pub struct ExBuildHasherDefault<H>(core::hash::BuildHasherDefault<H>);

/// What an `FnvHashMap` from names to numbers holds: for each name in it,
/// by its characters, the number stored under it.
pub uninterp spec fn index_entries(index: FnvHashMap<String, usize>) -> Map<Seq<char>, usize>;

/// `FnvHashMap::default`: a map that holds nothing.
#[verifier::external_body]
fn index_new() -> (r: FnvHashMap<String, usize>)
    ensures
        index_entries(r) =~= Map::empty(),
{
    FnvHashMap::default()
}

/// `HashMap::get` on a map that hashes with `FnvHasher`: the number stored
/// under `name`, if the map holds the name.
#[verifier::external_body]
fn index_get(index: &FnvHashMap<String, usize>, name: &str) -> (r: Option<usize>)
    ensures
        r == (if index_entries(*index).contains_key(name@) {
            Some(index_entries(*index)[name@])
        } else {
            None
        }),
{
    index.get(name).copied()
}

/// `HashMap::insert` on a map that hashes with `FnvHasher`: afterwards the
/// map holds `value` under `name` and everything else as before.
#[verifier::external_body]
fn index_insert(index: &mut FnvHashMap<String, usize>, name: &str, value: usize)
    ensures
        index_entries(*final(index)) == index_entries(*old(index)).insert(name@, value),
{
    index.insert(name.to_owned(), value);
}

/// `HashMap::remove` on a map that hashes with `FnvHasher`: afterwards the
/// map does not hold `name`, and holds everything else as before.
#[verifier::external_body]
fn index_remove(index: &mut FnvHashMap<String, usize>, name: &str)
    ensures
        index_entries(*final(index)) == index_entries(*old(index)).remove(name@),
{
    index.remove(name);
}

/// A table of values under names. It keeps its entries in a fixed order,
/// which is the order in which the names came, but for removals: a removal
/// moves the last entry into the place of the one that leaves. A name is
/// found through a hash map from names to places.
pub struct Table<V> {
    index: FnvHashMap<String, usize>,
    keys: Vec<String>,
    values: Vec<V>,
}

impl<V> Table<V> {
    /// The names of the entries, in order.
    pub closed spec fn names(&self) -> Seq<Seq<char>> {
        Seq::new(self.keys@.len(), |i: int| self.keys@[i]@)
    }

    /// The values of the entries, in the order of their names.
    pub closed spec fn values(&self) -> Seq<V> {
        self.values@
    }

    /// There is a value for each name, and the hash map holds each name
    /// with its place and nothing else.
    pub closed spec fn wf(&self) -> bool {
        &&& self.keys@.len() == self.values@.len()
        &&& forall|i: int|
            0 <= i < self.keys@.len() ==> index_entries(self.index).contains_key(
                #[trigger] self.keys@[i]@,
            ) && index_entries(self.index)[self.keys@[i]@] == i
        &&& forall|name: Seq<char>| #[trigger]
            index_entries(self.index).contains_key(name) ==> index_entries(self.index)[name]
                < self.keys@.len() && self.keys@[index_entries(self.index)[name] as int]@ == name
    }

    /// The place of `name`, if the table holds it.
    pub open spec fn place(&self, name: Seq<char>) -> Option<int> {
        if self.names().contains(name) {
            Some(self.names().index_of(name))
        } else {
            None
        }
    }

    /// The value under `name`, if the table holds the name.
    pub open spec fn lookup(&self, name: Seq<char>) -> Option<V> {
        match self.place(name) {
            Some(i) => Some(self.values()[i]),
            None => None,
        }
    }

    /// The values by their names.
    pub open spec fn map(&self) -> Map<Seq<char>, V> {
        Map::new(|name: Seq<char>| self.names().contains(name), |name: Seq<char>| self.lookup(name)->Some_0)
    }

    /// A table holds a name once, and as many values as names.
    pub proof fn lemma_distinct(&self)
        requires
            self.wf(),
        ensures
            self.names().no_duplicates(),
            self.names().len() == self.values().len(),
    {
        assert forall|i: int, j: int|
            0 <= i < self.names().len() && 0 <= j < self.names().len() && i != j implies self.names()[i]
            != self.names()[j] by {
            assert(index_entries(self.index)[self.keys@[i]@] == i);
            assert(index_entries(self.index)[self.keys@[j]@] == j);
        }
    }

    /// The place of a name is where the name stands.
    pub proof fn lemma_place(&self, name: Seq<char>, i: int)
        requires
            self.wf(),
            0 <= i < self.names().len(),
            self.names()[i] == name,
        ensures
            self.place(name) == Some(i),
    {
        self.lemma_distinct();
        assert(self.names().contains(name));
        let j = self.names().index_of(name);
        assert(self.names()[j] == name);
    }

    pub fn new() -> (r: Table<V>)
        ensures
            r.wf(),
            r.names() == Seq::<Seq<char>>::empty(),
            r.values() == Seq::<V>::empty(),
    {
        let r = Table { index: index_new(), keys: Vec::new(), values: Vec::new() };
        assert(r.names() =~= Seq::<Seq<char>>::empty());
        r
    }

    /// The number of entries.
    pub fn len(&self) -> (r: usize)
        requires
            self.wf(),
        ensures
            r == self.names().len(),
            r == self.values().len(),
    {
        self.keys.len()
    }

    /// The name at place `i`.
    pub fn name(&self, i: usize) -> (r: &str)
        requires
            self.wf(),
            i < self.names().len(),
        ensures
            r@ == self.names()[i as int],
    {
        self.keys[i].as_str()
    }

    /// The value at place `i`.
    pub fn value(&self, i: usize) -> (r: &V)
        requires
            self.wf(),
            i < self.values().len(),
        ensures
            *r == self.values()[i as int],
    {
        &self.values[i]
    }

    /// The value at place `i`, to change it.
    pub fn value_mut(&mut self, i: usize) -> (r: &mut V)
        requires
            old(self).wf(),
            i < old(self).values().len(),
        ensures
            *r == old(self).values()[i as int],
            final(self).wf(),
            final(self).names() == old(self).names(),
            final(self).values() == old(self).values().update(i as int, *final(r)),
    {
        &mut self.values[i]
    }

    /// The place of `name`, if the table holds it.
    pub fn find(&self, name: &str) -> (r: Option<usize>)
        requires
            self.wf(),
        ensures
            match r {
                Some(i) => self.place(name@) == Some(i as int) && i < self.names().len()
                    && self.names()[i as int] == name@,
                None => self.place(name@) is None && !self.names().contains(name@),
            },
    {
        let r = index_get(&self.index, name);
        proof {
            match r {
                Some(i) => {
                    assert(self.names()[i as int] == name@);
                    self.lemma_place(name@, i as int);
                },
                None => {
                    if self.names().contains(name@) {
                        let j = self.names().index_of(name@);
                        assert(self.keys@[j]@ == name@);
                    }
                },
            }
        }
        r
    }

    /// Whether the table holds `name`.
    pub fn contains(&self, name: &str) -> (r: bool)
        requires
            self.wf(),
        ensures
            r == self.names().contains(name@),
    {
        self.find(name).is_some()
    }

    /// The value under `name`, if the table holds the name.
    pub fn get(&self, name: &str) -> (r: Option<&V>)
        requires
            self.wf(),
        ensures
            match r {
                Some(value) => self.lookup(name@) == Some(*value),
                None => self.lookup(name@) is None,
            },
    {
        match self.find(name) {
            Some(i) => Some(&self.values[i]),
            None => None,
        }
    }

    /// Puts `value` under `name`: in the place of the value that the name
    /// had, or with the name as a new last entry.
    pub fn insert(&mut self, name: &str, value: V)
        requires
            old(self).wf(),
        ensures
            final(self).wf(),
            final(self).map() == old(self).map().insert(name@, value),
            match old(self).place(name@) {
                Some(i) => final(self).names() == old(self).names() && final(self).values() == old(self).values().update(i, value),
                None => final(self).names() == old(self).names().push(name@) && final(self).values() == old(self).values().push(value),
            },
    {
        proof {
            old(self).lemma_distinct();
        }
        match self.find(name) {
            Some(i) => {
                self.values.set(i, value);
                assert(self.names() =~= old(self).names());
                assert forall|other: Seq<char>| self.names().contains(other) implies self.lookup(
                    other,
                ) == (if other == name@ {
                    Some(value)
                } else {
                    old(self).lookup(other)
                }) by {
                    let j = self.names().index_of(other);
                    assert(self.names()[j] == other);
                }
                assert(self.map() =~= old(self).map().insert(name@, value));
            },
            None => {
                let at = self.keys.len();
                index_insert(&mut self.index, name, at);
                self.keys.push(name.to_owned());
                self.values.push(value);
                assert(self.names() =~= old(self).names().push(name@));
                assert forall|i: int| 0 <= i < self.keys@.len() implies index_entries(
                    self.index,
                ).contains_key(#[trigger] self.keys@[i]@) && index_entries(self.index)[self.keys@[i]@]
                    == i by {
                    if i < at {
                        assert(old(self).names()[i] == old(self).keys@[i]@);
                        assert(old(self).names().contains(old(self).keys@[i]@));
                    }
                }
                proof {
                    assert(self.wf());
                    self.lemma_distinct();
                    assert(self.names()[at as int] == name@);
                    self.lemma_place(name@, at as int);
                    assert forall|other: Seq<char>|
                        #![trigger self.names().contains(other)]
                        self.names().contains(other) == (other == name@ || old(self).names().contains(
                            other,
                        )) && (self.names().contains(other) ==> self.lookup(other) == (if other
                            == name@ {
                            Some(value)
                        } else {
                            old(self).lookup(other)
                        })) by {
                        if old(self).names().contains(other) {
                            let j = old(self).names().index_of(other);
                            assert(old(self).names()[j] == other);
                            assert(self.names()[j] == other);
                            self.lemma_place(other, j);
                            old(self).lemma_place(other, j);
                        }
                        if self.names().contains(other) {
                            let j = self.names().index_of(other);
                            assert(self.names()[j] == other);
                            if j < at {
                                assert(old(self).names()[j] == other);
                            }
                        }
                    }
                assert(self.map() =~= old(self).map().insert(name@, value));
                }
            },
        }
    }

    /// Takes the entry of `name` out, if the table holds the name, and
    /// returns its value. The last entry moves into its place.
    pub fn remove(&mut self, name: &str) -> (r: Option<V>)
        requires
            old(self).wf(),
        ensures
            final(self).wf(),
            final(self).map() == old(self).map().remove(name@),
            r == old(self).lookup(name@),
            match old(self).place(name@) {
                Some(i) => {
                    &&& r == Some(old(self).values()[i])
                    &&& final(self).names() == old(self).names().update(
                        i,
                        old(self).names().last(),
                    ).drop_last()
                    &&& final(self).values() == old(self).values().update(
                        i,
                        old(self).values().last(),
                    ).drop_last()
                },
                None => r is None && final(self).names() == old(self).names() && final(self).values() == old(self).values(),
            },
    {
        match self.find(name) {
            None => {
                assert(self.map() =~= old(self).map().remove(name@));
                None
            },
            Some(i) => {
                proof {
                    self.lemma_distinct();
                }
                let last = self.keys.len() - 1;
                index_remove(&mut self.index, name);
                if i < last {
                    index_insert(&mut self.index, self.keys[last].as_str(), i);
                }
                let _ = self.keys.swap_remove(i);
                let value = self.values.swap_remove(i);
                proof {
                    assert(self.names() =~= old(self).names().update(
                        i as int,
                        old(self).names().last(),
                    ).drop_last());
                    assert forall|j: int| 0 <= j < self.keys@.len() implies index_entries(
                        self.index,
                    ).contains_key(#[trigger] self.keys@[j]@) && index_entries(
                        self.index,
                    )[self.keys@[j]@] == j by {
                        if j == i {
                            assert(self.keys@[j] == old(self).keys@[last as int]);
                            assert(old(self).names()[last as int] == old(self).keys@[last as int]@);
                        } else {
                            assert(self.keys@[j] == old(self).keys@[j]);
                            assert(old(self).names()[j] == old(self).keys@[j]@);
                            assert(old(self).names()[i as int] == name@);
                            assert(old(self).names()[last as int] == old(self).keys@[last as int]@);
                        }
                    }
                    assert forall|key: Seq<char>| #[trigger]
                        index_entries(self.index).contains_key(key) implies index_entries(
                        self.index,
                    )[key] < self.keys@.len() && self.keys@[index_entries(self.index)[key] as int]@
                        == key by {
                        let moved = old(self).keys@[last as int]@;
                        assert(old(self).names()[last as int] == moved);
                        assert(old(self).names()[i as int] == name@);
                        if i < last && key == moved {
                        } else {
                            assert(index_entries(old(self).index).contains_key(key));
                            let at = index_entries(old(self).index)[key];
                            assert(old(self).names()[at as int] == key);
                        }
                    }
                    assert(self.wf());
                    self.lemma_distinct();
                    old(self).lemma_place(name@, i as int);
                    assert forall|other: Seq<char>|
                        #![trigger self.names().contains(other)]
                        self.names().contains(other) == (other != name@ && old(self).names().contains(
                            other,
                        )) && (self.names().contains(other) ==> self.lookup(other) == old(self).lookup(other)) by {
                        if old(self).names().contains(other) && other != name@ {
                            let j = old(self).names().index_of(other);
                            assert(old(self).names()[j] == other);
                            old(self).lemma_place(other, j);
                            if j == last {
                                assert(self.names()[i as int] == other);
                                self.lemma_place(other, i as int);
                            } else {
                                assert(self.names()[j] == other);
                                self.lemma_place(other, j);
                            }
                        }
                        if self.names().contains(other) {
                            let j = self.names().index_of(other);
                            assert(self.names()[j] == other);
                            if j == i {
                                assert(old(self).names()[last as int] == other);
                            } else {
                                assert(old(self).names()[j] == other);
                            }
                        }
                    }
                    assert(self.map() =~= old(self).map().remove(name@));
                }
                Some(value)
            },
        }
    }
}

/// The views of the values of a table by their names.
pub open spec fn view_map<V: View>(table: Table<V>) -> Map<Seq<char>, V::V> {
    Map::new(
        |name: Seq<char>| table.map().contains_key(name),
        |name: Seq<char>| table.map()[name]@,
    )
}

} // verus!
