//! Insertion-ordered maps from names to slot numbers, kept in an `IndexMap`.
use fxhash::FxBuildHasher;
use indexmap::IndexMap;
use vstd::prelude::*;

verus! {

#[verifier::external_type_specification]
#[verifier::external_body]
#[verifier::reject_recursive_types(K)]
#[verifier::reject_recursive_types(V)]
#[verifier::reject_recursive_types(S)]
pub struct ExIndexMap<K, V, S>(IndexMap<K, V, S>);

#[verifier::external_type_specification]
#[verifier::external_body]
#[verifier::reject_recursive_types(H)]
pub struct ExBuildHasherDefault<H>(std::hash::BuildHasherDefault<H>);

#[verifier::external_type_specification]
#[verifier::external_body]
pub struct ExFxHasher(fxhash::FxHasher);

/// The entries of a name map, in insertion order: each name with its slot.
pub uninterp spec fn name_entries(m: IndexMap<String, usize, FxBuildHasher>) -> Seq<(Seq<char>, usize)>;

/// No name occurs twice.
pub open spec fn unique_names(e: Seq<(Seq<char>, usize)>) -> bool {
    forall|i: int, j: int| 0 <= i < j < e.len() ==> e[i].0 != e[j].0
}

/// Some entry has this name.
pub open spec fn has_name(e: Seq<(Seq<char>, usize)>, name: Seq<char>) -> bool {
    exists|i: int| 0 <= i < e.len() && (#[trigger] e[i]).0 == name
}

/// `IndexMap::default()`: claimed to be empty.
#[verifier::external_body]
fn map_new() -> (m: IndexMap<String, usize, FxBuildHasher>)
    ensures
        name_entries(m) == Seq::<(Seq<char>, usize)>::empty(),
{
    IndexMap::default()
}

/// `IndexMap::len`: claimed to be the number of entries.
#[verifier::external_body]
fn map_len(m: &IndexMap<String, usize, FxBuildHasher>) -> (n: usize)
    ensures
        n == name_entries(*m).len(),
{
    m.len()
}

/// `IndexMap::get`: claimed, as documented, to give the slot of the entry with this name
/// (there is at most one), or `None`.
#[verifier::external_body]
fn map_get(m: &IndexMap<String, usize, FxBuildHasher>, name: &str) -> (r: Option<usize>)
    ensures
        r matches Some(v) ==> exists|i: int| 0 <= i < name_entries(*m).len() && #[trigger] name_entries(*m)[i] == (name@, v),
        r is None <==> !has_name(name_entries(*m), name@),
{
    m.get(name).copied()
}

/// `IndexMap::get_index`: claimed, as documented, to give the entry at `index`.
#[verifier::external_body]
fn map_get_index(m: &IndexMap<String, usize, FxBuildHasher>, index: usize) -> (r: Option<(String, usize)>)
    ensures
        index < name_entries(*m).len() ==> r is Some && (r.unwrap().0@, r.unwrap().1) == name_entries(*m)[index as int],
        index >= name_entries(*m).len() ==> r is None,
{
    m.get_index(index).map(|(k, v)| (k.clone(), *v))
}

/// `IndexMap::insert`: claimed, as documented, to replace the slot of an existing name in
/// place (returning the old one), or else to add the entry last; names stay unique.
#[verifier::external_body]
fn map_insert(m: &mut IndexMap<String, usize, FxBuildHasher>, name: String, slot: usize) -> (r: Option<usize>)
    ensures
        has_name(name_entries(*old(m)), name@) ==> exists|i: int| 0 <= i < name_entries(*old(m)).len()
            && (#[trigger] name_entries(*old(m))[i]).0 == name@ && r == Some(name_entries(*old(m))[i].1)
            && name_entries(*final(m)) == name_entries(*old(m)).update(i, (name@, slot)),
        !has_name(name_entries(*old(m)), name@) ==> r is None && name_entries(*final(m)) == name_entries(*old(m)).push((name@, slot)),
{
    m.insert(name, slot)
}

/// A map from names to slot numbers that remembers the order names were added in.
pub struct NameIndex {
    map: IndexMap<String, usize, FxBuildHasher>,
}

impl View for NameIndex {
    type V = Seq<(Seq<char>, usize)>;

    closed spec fn view(&self) -> Seq<(Seq<char>, usize)> {
        name_entries(self.map)
    }
}

impl NameIndex {
    pub open spec fn wf(&self) -> bool {
        unique_names(self@)
    }

    /// An empty map.
    pub fn new() -> (m: Self)
        ensures
            m.wf(),
            m@ == Seq::<(Seq<char>, usize)>::empty(),
    {
        NameIndex { map: map_new() }
    }

    /// The number of names.
    pub fn len(&self) -> (n: usize)
        ensures
            n == self@.len(),
    {
        map_len(&self.map)
    }

    /// The slot of `name`, if it is present.
    pub fn get(&self, name: &str) -> (r: Option<usize>)
        requires
            self.wf(),
        ensures
            r matches Some(v) ==> exists|i: int| 0 <= i < self@.len() && #[trigger] self@[i] == (name@, v),
            r is None <==> !has_name(self@, name@),
    {
        map_get(&self.map, name)
    }

    /// The entry at position `index`.
    pub fn get_index(&self, index: usize) -> (r: Option<(String, usize)>)
        ensures
            index < self@.len() ==> r is Some && (r.unwrap().0@, r.unwrap().1) == self@[index as int],
            index >= self@.len() ==> r is None,
    {
        map_get_index(&self.map, index)
    }

    /// Adds `name` with `slot` unless `name` is present; reports whether it was added.
    pub fn insert_new(&mut self, name: String, slot: usize) -> (added: bool)
        requires
            old(self).wf(),
        ensures
            final(self).wf(),
            added == !has_name(old(self)@, name@),
            added ==> final(self)@ == old(self)@.push((name@, slot)),
            !added ==> final(self)@ == old(self)@,
    {
        if map_get(&self.map, name.as_str()).is_some() {
            return false;
        }
        map_insert(&mut self.map, name, slot);
        true
    }

    /// Sets the slot of `name`: in place if present, else as a new last entry.
    pub fn insert(&mut self, name: String, slot: usize) -> (r: Option<usize>)
        requires
            old(self).wf(),
        ensures
            final(self).wf(),
            has_name(old(self)@, name@) ==> exists|i: int| 0 <= i < old(self)@.len() && (#[trigger] old(self)@[i]).0
                == name@ && r == Some(old(self)@[i].1) && final(self)@ == old(self)@.update(i, (name@, slot)),
            !has_name(old(self)@, name@) ==> r is None && final(self)@ == old(self)@.push((name@, slot)),
    {
        map_insert(&mut self.map, name, slot)
    }
}


/// Setting the value of `name` in an ordered list of named entries: the entry with that
/// name gets the new value in place, or a new entry goes last.
pub open spec fn set_entry<T>(e: Seq<(Seq<char>, T)>, name: Seq<char>, v: T) -> Seq<(Seq<char>, T)>
    decreases e.len(),
{
    if e.len() == 0 {
        seq![(name, v)]
    } else if e.last().0 == name {
        e.drop_last().push((name, v))
    } else if exists|i: int| 0 <= i < e.len() - 1 && (#[trigger] e[i]).0 == name {
        set_entry(e.drop_last(), name, v).push(e.last())
    } else {
        e.push((name, v))
    }
}

/// Some entry of an ordered list of named entries has this name.
pub open spec fn has_entry<T>(e: Seq<(Seq<char>, T)>, name: Seq<char>) -> bool {
    exists|i: int| 0 <= i < e.len() && (#[trigger] e[i]).0 == name
}

/// No name occurs twice in an ordered list of named entries.
pub open spec fn unique_entries<T>(e: Seq<(Seq<char>, T)>) -> bool {
    forall|a: int, b: int| 0 <= a < b < e.len() ==> e[a].0 != e[b].0
}

/// The value of the entry named `name`; meaningful where some entry has that name.
pub open spec fn entry_value<T>(e: Seq<(Seq<char>, T)>, name: Seq<char>) -> T {
    e[choose|i: int| 0 <= i < e.len() && (#[trigger] e[i]).0 == name].1
}

/// Applies `f` to the value of every entry, keeping names and order.
pub open spec fn map_entries<T, U>(e: Seq<(Seq<char>, T)>, f: spec_fn(T) -> U) -> Seq<(Seq<char>, U)> {
    e.map_values(|p: (Seq<char>, T)| (p.0, f(p.1)))
}

/// Setting an entry and then mapping the values is mapping and then setting the mapped value.
pub proof fn lemma_set_entry_map<T, U>(e: Seq<(Seq<char>, T)>, name: Seq<char>, v: T, f: spec_fn(T) -> U)
    ensures
        map_entries(set_entry(e, name, v), f) == set_entry(map_entries(e, f), name, f(v)),
    decreases e.len(),
{
    let me = map_entries(e, f);
    if e.len() == 0 {
        assert(map_entries(set_entry(e, name, v), f) =~= seq![(name, f(v))]);
    } else {
        assert(me.drop_last() =~= map_entries(e.drop_last(), f));
        assert(me.last() == (e.last().0, f(e.last().1)));
        if e.last().0 == name {
            assert(map_entries(e.drop_last().push((name, v)), f) =~= me.drop_last().push((name, f(v))));
        } else if exists|i: int| 0 <= i < e.len() - 1 && (#[trigger] e[i]).0 == name {
            let i = choose|i: int| 0 <= i < e.len() - 1 && (#[trigger] e[i]).0 == name;
            assert(me[i].0 == name);
            lemma_set_entry_map(e.drop_last(), name, v, f);
            assert(map_entries(set_entry(e.drop_last(), name, v).push(e.last()), f) =~= map_entries(
                set_entry(e.drop_last(), name, v),
                f,
            ).push(me.last()));
        } else {
            assert forall|i: int| 0 <= i < me.len() - 1 implies (#[trigger] me[i]).0 != name by {
                assert(me[i].0 == e[i].0);
            }
            assert(map_entries(e.push((name, v)), f) =~= me.push((name, f(v))));
        }
    }
}

/// With unique names, setting an existing name updates its entry in place.
pub proof fn lemma_set_entry_existing<T>(e: Seq<(Seq<char>, T)>, i: int, name: Seq<char>, v: T)
    requires
        0 <= i < e.len(),
        e[i].0 == name,
        forall|a: int, b: int| 0 <= a < b < e.len() ==> e[a].0 != e[b].0,
    ensures
        set_entry(e, name, v) == e.update(i, (name, v)),
    decreases e.len(),
{
    if i == e.len() - 1 {
        assert(e.drop_last().push((name, v)) =~= e.update(i, (name, v)));
    } else {
        assert(e.drop_last()[i].0 == name);
        lemma_set_entry_existing(e.drop_last(), i, name, v);
        assert(e.drop_last().update(i, (name, v)).push(e.last()) =~= e.update(i, (name, v)));
    }
}

/// Setting a name that is absent adds an entry at the end.
pub proof fn lemma_set_entry_new<T>(e: Seq<(Seq<char>, T)>, name: Seq<char>, v: T)
    requires
        forall|a: int| 0 <= a < e.len() ==> e[a].0 != name,
    ensures
        set_entry(e, name, v) == e.push((name, v)),
{
    if e.len() > 0 {
        assert(!(exists|i: int| 0 <= i < e.len() - 1 && (#[trigger] e[i]).0 == name));
    }
}

/// An ordered list of named values with unique names, found by name through a
/// [`NameIndex`].
pub struct NamedList<T> {
    names: NameIndex,
    values: Vec<T>,
}

impl<T> View for NamedList<T> {
    type V = Seq<(Seq<char>, T)>;

    closed spec fn view(&self) -> Seq<(Seq<char>, T)> {
        Seq::new(self.values@.len(), |i: int| (self.names@[i].0, self.values@[i]))
    }
}

impl<T> NamedList<T> {
    pub closed spec fn wf(&self) -> bool {
        &&& self.names.wf()
        &&& self.names@.len() == self.values@.len()
        &&& forall|i: int| 0 <= i < self.names@.len() ==> (#[trigger] self.names@[i]).1 == i
    }

    /// Names are unique.
    pub proof fn lemma_unique(&self)
        requires
            self.wf(),
        ensures
            forall|a: int, b: int| 0 <= a < b < self@.len() ==> self@[a].0 != self@[b].0,
    {
    }

    /// An empty list.
    pub fn new() -> (l: Self)
        ensures
            l.wf(),
            l@ == Seq::<(Seq<char>, T)>::empty(),
    {
        let l = NamedList { names: NameIndex::new(), values: Vec::new() };
        assert(l@ =~= Seq::<(Seq<char>, T)>::empty());
        l
    }

    /// The number of entries.
    pub fn len(&self) -> (n: usize)
        requires
            self.wf(),
        ensures
            n == self@.len(),
    {
        self.values.len()
    }

    /// The entry at position `index`.
    pub fn get_index(&self, index: usize) -> (r: Option<(String, &T)>)
        requires
            self.wf(),
        ensures
            index < self@.len() ==> r is Some && r.unwrap().0@ == self@[index as int].0 && *r.unwrap().1
                == self@[index as int].1,
            index >= self@.len() ==> r is None,
    {
        if index >= self.values.len() {
            return None;
        }
        let (name, _) = self.names.get_index(index).unwrap();
        Some((name, &self.values[index]))
    }

    /// The value named `name`, if any.
    pub fn get(&self, name: &str) -> (r: Option<&T>)
        requires
            self.wf(),
        ensures
            r matches Some(v) ==> exists|i: int| 0 <= i < self@.len() && #[trigger] self@[i].0 == name@ && self@[i].1 == *v,
            r is None <==> forall|i: int| 0 <= i < self@.len() ==> #[trigger] self@[i].0 != name@,
    {
        match self.names.get(name) {
            Some(slot) => {
                proof {
                    let i = choose|i: int| 0 <= i < self.names@.len() && #[trigger] self.names@[i] == (name@, slot);
                    assert(self@[i].0 == name@);
                }
                Some(&self.values[slot])
            },
            None => {
                assert forall|i: int| 0 <= i < self@.len() implies #[trigger] self@[i].0 != name@ by {
                    if self@[i].0 == name@ {
                        assert(self.names@[i].0 == name@);
                    }
                }
                None
            },
        }
    }

    /// Sets the value named `name`: in place if present, else as a new last entry.
    pub fn set(&mut self, name: String, v: T)
        requires
            old(self).wf(),
        ensures
            final(self).wf(),
            final(self)@ == set_entry(old(self)@, name@, v),
    {
        proof {
            self.lemma_unique();
        }
        let ghost old_view = self@;
        let ghost key = name@;
        match self.names.get(name.as_str()) {
            Some(slot) => {
                proof {
                    let i = choose|i: int| 0 <= i < self.names@.len() && #[trigger] self.names@[i] == (key, slot);
                    assert(i == slot);
                }
                self.values.set(slot, v);
                proof {
                    lemma_set_entry_existing(old_view, slot as int, key, v);
                    assert(self@ =~= old_view.update(slot as int, (key, v)));
                }
            },
            None => {
                let n = self.values.len();
                let added = self.names.insert_new(name, n);
                self.values.push(v);
                proof {
                    assert forall|a: int| 0 <= a < old_view.len() implies old_view[a].0 != key by {
                        assert(self.names@[a] == old(self).names@[a]);
                    }
                    lemma_set_entry_new(old_view, key, v);
                    assert(self@ =~= old_view.push((key, v)));
                }
            },
        }
    }

    /// Adds `name` with `v` unless `name` is present; reports whether it was added.
    pub fn insert_new(&mut self, name: String, v: T) -> (added: bool)
        requires
            old(self).wf(),
        ensures
            final(self).wf(),
            added == forall|i: int| 0 <= i < old(self)@.len() ==> #[trigger] old(self)@[i].0 != name@,
            added ==> final(self)@ == old(self)@.push((name@, v)),
            !added ==> final(self)@ == old(self)@,
    {
        let ghost old_view = self@;
        let n = self.values.len();
        let added = self.names.insert_new(name, n);
        if added {
            self.values.push(v);
            proof {
                assert(self@ =~= old_view.push((self.names@[n as int].0, v)));
            }
        }
        proof {
            if !added {
                let i = choose|i: int| 0 <= i < old(self).names@.len() && (#[trigger] old(self).names@[i]).0 == name@;
                assert(old_view[i].0 == name@);
            } else {
                assert forall|i: int| 0 <= i < old_view.len() implies #[trigger] old_view[i].0 != name@ by {
                    assert(old(self).names@[i].0 == old_view[i].0);
                }
            }
        }
        added
    }

    /// Puts `v` as the value at `index` and gives back the value that was there.
    pub fn replace_at(&mut self, index: usize, v: T) -> (old_v: T)
        requires
            old(self).wf(),
            index < old(self)@.len(),
        ensures
            final(self).wf(),
            old_v == old(self)@[index as int].1,
            final(self)@ == old(self)@.update(index as int, (old(self)@[index as int].0, v)),
    {
        let mut v = v;
        std::mem::swap(&mut self.values[index], &mut v);
        assert(self@ =~= old(self)@.update(index as int, (old(self)@[index as int].0, self.values@[index as int])));
        v
    }

    /// The position of the entry named `name`, if any.
    pub fn position(&self, name: &str) -> (r: Option<usize>)
        requires
            self.wf(),
        ensures
            r matches Some(i) ==> i < self@.len() && self@[i as int].0 == name@,
            r is None <==> forall|i: int| 0 <= i < self@.len() ==> #[trigger] self@[i].0 != name@,
    {
        match self.names.get(name) {
            Some(slot) => {
                proof {
                    let i = choose|i: int| 0 <= i < self.names@.len() && #[trigger] self.names@[i] == (name@, slot);
                    assert(i == slot);
                }
                Some(slot)
            },
            None => {
                assert forall|i: int| 0 <= i < self@.len() implies #[trigger] self@[i].0 != name@ by {
                    if self@[i].0 == name@ {
                        assert(self.names@[i].0 == name@);
                    }
                }
                None
            },
        }
    }
}

} // verus!
