use vstd::prelude::*;

verus! {

/// The position of the entry of `entries` that is called `name`, if there is one.
pub open spec fn position_of<T>(entries: Seq<(Seq<char>, T)>, name: Seq<char>) -> Option<int> {
    if exists|i: int| 0 <= i < entries.len() && entries[i].0 == name {
        Some(choose|i: int| 0 <= i < entries.len() && entries[i].0 == name)
    } else {
        None
    }
}

/// Whether no two entries of `entries` have the same name.
pub open spec fn distinct_names<T>(entries: Seq<(Seq<char>, T)>) -> bool {
    forall|i: int, j: int|
        0 <= i < j < entries.len() ==> (#[trigger] entries[i]).0 != (#[trigger] entries[j]).0
}

/// What a list of named values maps each name to.
pub open spec fn as_map<T>(entries: Seq<(Seq<char>, T)>) -> Map<Seq<char>, T> {
    Map::new(
        |name: Seq<char>| position_of(entries, name) is Some,
        |name: Seq<char>| entries[position_of(entries, name)->0].1,
    )
}

/// The list `entries` once `pair` has come in: in the place of the entry with its
/// name if there is one, at the end otherwise.
pub open spec fn inserted<T>(entries: Seq<(Seq<char>, T)>, pair: (Seq<char>, T)) -> Seq<
    (Seq<char>, T),
> {
    match position_of(entries, pair.0) {
        Some(i) => entries.update(i, pair),
        None => entries.push(pair),
    }
}

/// A map from names to values that remembers the order in which names came in.
/// A name occurs once: a value given for a name that is there replaces the old one
/// in its place.
pub struct NameMap<V: DeepView> {
    entries: Vec<(String, V)>,
}

impl<V: DeepView> NameMap<V> {
    #[verifier::type_invariant]
    spec fn well_formed(&self) -> bool {
        distinct_names(self.listing())
    }

    /// The names with their values, in the order in which the names came in.
    pub closed spec fn listing(&self) -> Seq<(Seq<char>, V::V)> {
        Seq::new(
            self.entries@.len(),
            |i: int| (self.entries@[i].0@, self.entries@[i].1.deep_view()),
        )
    }

    /// What each name maps to.
    pub open spec fn map(&self) -> Map<Seq<char>, V::V> {
        as_map(self.listing())
    }

    /// A map without names.
    pub fn new() -> (names: Self)
        ensures
            names.listing() == Seq::<(Seq<char>, V::V)>::empty(),
            names.map() == Map::<Seq<char>, V::V>::empty(),
    {
        let names = NameMap { entries: Vec::new() };
        proof {
            assert(names.listing() =~= Seq::<(Seq<char>, V::V)>::empty());
            assert(names.map() =~= Map::<Seq<char>, V::V>::empty());
        }
        names
    }

    /// The number of names.
    pub fn len(&self) -> (n: usize)
        ensures
            n == self.listing().len(),
            distinct_names(self.listing()),
    {
        proof {
            use_type_invariant(self);
        }
        self.entries.len()
    }

    /// The names with their values, in the order in which the names came in.
    pub fn entries(&self) -> (list: &Vec<(String, V)>)
        ensures
            list@.len() == self.listing().len(),
            forall|i: int|
                0 <= i < list@.len() ==> (#[trigger] list@[i]).0@ == self.listing()[i].0
                    && list@[i].1.deep_view() == self.listing()[i].1,
            distinct_names(self.listing()),
    {
        proof {
            use_type_invariant(self);
        }
        &self.entries
    }

    /// The place of `name` in the listing, if it is there.
    pub fn find(&self, name: &String) -> (at: Option<usize>)
        ensures
            match at {
                Some(i) => i < self.listing().len() && self.listing()[i as int].0 == name@
                    && position_of(self.listing(), name@) == Some(i as int),
                None => position_of(self.listing(), name@) is None,
            },
    {
        proof {
            use_type_invariant(self);
        }
        let mut i: usize = 0;
        while i < self.entries.len()
            invariant
                i <= self.entries@.len(),
                self.listing().len() == self.entries@.len(),
                distinct_names(self.listing()),
                forall|k: int| 0 <= k < i ==> (#[trigger] self.listing()[k]).0 != name@,
            decreases self.entries@.len() - i,
        {
            if self.entries[i].0 == *name {
                proof {
                    lemma_position_is(self.listing(), name@, i as int);
                }
                return Some(i);
            }
            i += 1;
        }
        None
    }

    /// The value that `name` maps to, if it maps to one.
    pub fn get(&self, name: &String) -> (value: Option<&V>)
        ensures
            match value {
                Some(v) => self.map().contains_key(name@) && self.map()[name@] == v.deep_view(),
                None => !self.map().contains_key(name@),
            },
    {
        match self.find(name) {
            Some(i) => Some(&self.entries[i].1),
            None => None,
        }
    }

    /// Maps `name` to `value`. A name that is new goes to the end of the listing; a
    /// name that is there keeps its place.
    pub fn insert(&mut self, name: String, value: V)
        ensures
            final(self).map() == old(self).map().insert(name@, value.deep_view()),
            final(self).listing() == inserted(old(self).listing(), (name@, value.deep_view())),
    {
        let ghost before = self.listing();
        let ghost pair = (name@, value.deep_view());
        match self.find(&name) {
            Some(i) => {
                proof {
                    use_type_invariant(&*self);
                }
                let mut taken: Vec<(String, V)> = Vec::new();
                proof {
                    lemma_update_keeps_names(before, i as int, pair);
                    lemma_map_after_update(before, i as int, pair);
                }
                core::mem::swap(&mut self.entries, &mut taken);
                taken.set(i, (name, value));
                proof {
                    let after = Seq::new(
                        taken@.len(),
                        |i: int| (taken@[i].0@, taken@[i].1.deep_view()),
                    );
                    assert(after =~= before.update(i as int, pair));
                }
                core::mem::swap(&mut self.entries, &mut taken);
                proof {
                    assert(self.listing() =~= before.update(i as int, pair));
                }
            },
            None => {
                proof {
                    use_type_invariant(&*self);
                }
                let mut taken: Vec<(String, V)> = Vec::new();
                proof {
                    lemma_push_keeps_names(before, pair);
                    lemma_map_after_push(before, pair);
                }
                core::mem::swap(&mut self.entries, &mut taken);
                taken.push((name, value));
                proof {
                    let after = Seq::new(
                        taken@.len(),
                        |i: int| (taken@[i].0@, taken@[i].1.deep_view()),
                    );
                    assert(after =~= before.push(pair));
                }
                core::mem::swap(&mut self.entries, &mut taken);
                proof {
                    assert(self.listing() =~= before.push(pair));
                }
            },
        }
    }
}

/// In a list without repeated names, the entry called `name` is where it is found.
pub proof fn lemma_position_is<T>(entries: Seq<(Seq<char>, T)>, name: Seq<char>, i: int)
    requires
        distinct_names(entries),
        0 <= i < entries.len(),
        entries[i].0 == name,
    ensures
        position_of(entries, name) == Some(i),
        as_map(entries).contains_key(name),
        as_map(entries)[name] == entries[i].1,
{
    let j = choose|j: int| 0 <= j < entries.len() && entries[j].0 == name;
    if i < j {
        assert(entries[i].0 != entries[j].0);
    } else if j < i {
        assert(entries[j].0 != entries[i].0);
    }
}

proof fn lemma_update_keeps_names<T>(entries: Seq<(Seq<char>, T)>, i: int, pair: (Seq<char>, T))
    requires
        distinct_names(entries),
        0 <= i < entries.len(),
        entries[i].0 == pair.0,
    ensures
        distinct_names(entries.update(i, pair)),
{
    let after = entries.update(i, pair);
    assert forall|a: int, b: int| 0 <= a < b < after.len() implies (#[trigger] after[a]).0 != (
    #[trigger] after[b]).0 by {
        assert(entries[a].0 != entries[b].0);
    }
}

proof fn lemma_push_keeps_names<T>(entries: Seq<(Seq<char>, T)>, pair: (Seq<char>, T))
    requires
        distinct_names(entries),
        position_of(entries, pair.0) is None,
    ensures
        distinct_names(entries.push(pair)),
{
    let after = entries.push(pair);
    assert forall|a: int, b: int| 0 <= a < b < after.len() implies (#[trigger] after[a]).0 != (
    #[trigger] after[b]).0 by {
        if b < entries.len() {
            assert(entries[a].0 != entries[b].0);
        } else {
            assert(entries[a].0 != pair.0);
        }
    }
}

proof fn lemma_map_after_update<T>(entries: Seq<(Seq<char>, T)>, i: int, pair: (Seq<char>, T))
    requires
        distinct_names(entries),
        0 <= i < entries.len(),
        entries[i].0 == pair.0,
    ensures
        as_map(entries.update(i, pair)) == as_map(entries).insert(pair.0, pair.1),
{
    let after = entries.update(i, pair);
    lemma_update_keeps_names(entries, i, pair);
    let left = as_map(after);
    let right = as_map(entries).insert(pair.0, pair.1);
    assert forall|name: Seq<char>| left.contains_key(name) <==> right.contains_key(name) by {
        if left.contains_key(name) {
            let k = position_of(after, name)->0;
            assert(entries[k].0 == name);
        }
        if right.contains_key(name) {
            if name != pair.0 {
                let k = position_of(entries, name)->0;
                assert(after[k].0 == name);
            } else {
                assert(after[i].0 == name);
            }
        }
    }
    assert forall|name: Seq<char>| left.contains_key(name) implies left[name] == right[name] by {
        let k = position_of(after, name)->0;
        lemma_position_is(after, name, k);
        if name == pair.0 {
            lemma_position_is(after, name, i);
        } else {
            assert(entries[k].0 == name);
            lemma_position_is(entries, name, k);
        }
    }
    assert(left =~= right);
}

proof fn lemma_map_after_push<T>(entries: Seq<(Seq<char>, T)>, pair: (Seq<char>, T))
    requires
        distinct_names(entries),
        position_of(entries, pair.0) is None,
    ensures
        as_map(entries.push(pair)) == as_map(entries).insert(pair.0, pair.1),
{
    let after = entries.push(pair);
    lemma_push_keeps_names(entries, pair);
    let left = as_map(after);
    let right = as_map(entries).insert(pair.0, pair.1);
    assert forall|name: Seq<char>| left.contains_key(name) <==> right.contains_key(name) by {
        if left.contains_key(name) {
            let k = position_of(after, name)->0;
            if k < entries.len() {
                assert(entries[k].0 == name);
            }
        }
        if right.contains_key(name) {
            if name != pair.0 {
                let k = position_of(entries, name)->0;
                assert(after[k].0 == name);
            } else {
                assert(after[entries.len() as int].0 == name);
            }
        }
    }
    assert forall|name: Seq<char>| left.contains_key(name) implies left[name] == right[name] by {
        let k = position_of(after, name)->0;
        lemma_position_is(after, name, k);
        if name == pair.0 {
            lemma_position_is(after, name, entries.len() as int);
        } else {
            assert(entries[k].0 == name);
            lemma_position_is(entries, name, k);
        }
    }
    assert(left =~= right);
}

} // verus!
