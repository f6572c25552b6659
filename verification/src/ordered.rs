//! A map from names to values that remembers the order in which names were first inserted.
use indexmap::IndexMap;
use std::collections::hash_map::RandomState;
use vstd::prelude::*;

verus! {

/// `indexmap::IndexMap`.
#[verifier::external_type_specification]
#[verifier::external_body]
#[verifier::reject_recursive_types(K)]
#[verifier::reject_recursive_types(V)]
#[verifier::reject_recursive_types(S)]
pub struct ExIndexMap<K, V, S>(IndexMap<K, V, S>);

/// The entries of an `IndexMap` from names to positions, in iteration order.
pub uninterp spec fn entries_of(map: IndexMap<String, usize, RandomState>) -> Seq<(Seq<char>, usize)>;

/// The first position at which a name occurs.
pub open spec fn find_name<K, V>(entries: Seq<(K, V)>, name: K) -> Option<int>
    decreases entries.len(),
{
    if entries.len() == 0 {
        None
    } else {
        match find_name(entries.drop_last(), name) {
            Some(position) => Some(position),
            None => if entries.last().0 == name {
                Some(entries.len() - 1)
            } else {
                None
            },
        }
    }
}

/// Whether a name occurs.
pub open spec fn has_name<K, V>(entries: Seq<(K, V)>, name: K) -> bool {
    find_name(entries, name) is Some
}

/// The value under a name.
pub open spec fn value_of<K, V>(entries: Seq<(K, V)>, name: K) -> Option<V> {
    match find_name(entries, name) {
        Some(position) => Some(entries[position].1),
        None => None,
    }
}

/// The entries after a value is stored under a name: a known name keeps its place and takes the
/// new value, an unknown name comes last.
pub open spec fn with_entry<K, V>(entries: Seq<(K, V)>, name: K, value: V) -> Seq<(K, V)> {
    match find_name(entries, name) {
        Some(position) => entries.update(position, (name, value)),
        None => entries.push((name, value)),
    }
}

/// The entries after several values are stored one after another.
pub open spec fn with_entries<K, V>(entries: Seq<(K, V)>, added: Seq<(K, V)>) -> Seq<(K, V)>
    decreases added.len(),
{
    if added.len() == 0 {
        entries
    } else {
        with_entry(with_entries(entries, added.drop_last()), added.last().0, added.last().1)
    }
}

/// How storing several values grows by one value.
pub proof fn with_entries_push<K, V>(entries: Seq<(K, V)>, added: Seq<(K, V)>, name: K, value: V)
    ensures
        with_entries(entries, added.push((name, value))) == with_entry(with_entries(entries, added), name, value),
{
    assert(added.push((name, value)).drop_last() =~= added);
}

/// The names, in order.
pub open spec fn names_of<K, V>(entries: Seq<(K, V)>) -> Seq<K> {
    entries.map_values(|entry: (K, V)| entry.0)
}

/// No name occurs twice.
pub open spec fn distinct_names<K, V>(entries: Seq<(K, V)>) -> bool {
    forall|i: int, j: int| 0 <= i < j < entries.len() ==> entries[i].0 != entries[j].0
}

/// What [`find_name`] finds: the first occurrence, or that there is none.
pub proof fn find_name_finds<K, V>(entries: Seq<(K, V)>, name: K)
    ensures
        match find_name(entries, name) {
            Some(position) => {
                &&& 0 <= position < entries.len()
                &&& entries[position].0 == name
                &&& forall|i: int| 0 <= i < position ==> entries[i].0 != name
            },
            None => forall|i: int| 0 <= i < entries.len() ==> entries[i].0 != name,
        },
    decreases entries.len(),
{
    if entries.len() > 0 {
        find_name_finds(entries.drop_last(), name);
        assert forall|i: int| 0 <= i < entries.len() - 1 implies entries[i] == entries.drop_last()[i] by {}
    }
}

/// A name is found where it stands, if it stands nowhere before.
pub proof fn find_name_is<K, V>(entries: Seq<(K, V)>, name: K, position: int)
    requires
        0 <= position < entries.len(),
        entries[position].0 == name,
        forall|i: int| 0 <= i < position ==> entries[i].0 != name,
    ensures
        find_name(entries, name) == Some(position),
{
    find_name_finds(entries, name);
}

/// Storing a value never makes a name occur twice.
pub proof fn with_entry_distinct<K, V>(entries: Seq<(K, V)>, name: K, value: V)
    requires
        distinct_names(entries),
    ensures
        distinct_names(with_entry(entries, name, value)),
{
    find_name_finds(entries, name);
}

/// A read gives back the last write under the same name.
pub proof fn read_after_write<K, V>(entries: Seq<(K, V)>, name: K, value: V)
    ensures
        value_of(with_entry(entries, name, value), name) == Some(value),
{
    find_name_finds(entries, name);
    let stored = with_entry(entries, name, value);
    match find_name(entries, name) {
        Some(position) => {
            find_name_is(stored, name, position);
        },
        None => {
            find_name_is(stored, name, entries.len() as int);
        },
    }
}

/// A write under one name leaves every other name alone.
pub proof fn write_keeps_others<K, V>(entries: Seq<(K, V)>, name: K, value: V, other: K)
    requires
        other != name,
    ensures
        value_of(with_entry(entries, name, value), other) == value_of(entries, other),
{
    let stored = with_entry(entries, name, value);
    find_name_finds(entries, name);
    find_name_finds(entries, other);
    find_name_finds(stored, other);
    match find_name(entries, other) {
        Some(position) => {
            assert(stored[position] == entries[position]);
            assert forall|i: int| 0 <= i < position implies stored[i].0 != other by {
                assert(stored[i].0 == entries[i].0);
            }
            find_name_is(stored, other, position);
        },
        None => {
            if find_name(stored, other) is Some {
                let position = find_name(stored, other)->Some_0;
                if position < entries.len() {
                    assert(stored[position].0 == entries[position].0);
                }
                assert(false);
            }
        },
    }
}

/// Entries without repeated names are what storing them one after another leaves.
pub proof fn distinct_entries_stand<K, V>(entries: Seq<(K, V)>)
    requires
        distinct_names(entries),
    ensures
        with_entries(Seq::empty(), entries) == entries,
    decreases entries.len(),
{
    if entries.len() > 0 {
        let shorter = entries.drop_last();
        distinct_entries_stand(shorter);
        find_name_finds(shorter, entries.last().0);
        if find_name(shorter, entries.last().0) is Some {
            let position = find_name(shorter, entries.last().0)->Some_0;
            assert(entries[position].0 == entries[entries.len() - 1].0);
        }
        assert(shorter.push((entries.last().0, entries.last().1)) =~= entries);
    } else {
        assert(entries =~= Seq::<(K, V)>::empty());
    }
}

/// A name is found at the same place in entries with the same names.
pub proof fn same_names_same_place<K, A, B>(left: Seq<(K, A)>, right: Seq<(K, B)>, name: K)
    requires
        left.len() == right.len(),
        forall|i: int| 0 <= i < left.len() ==> (#[trigger] left[i]).0 == right[i].0,
    ensures
        find_name(left, name) == find_name(right, name),
{
    find_name_finds(left, name);
    find_name_finds(right, name);
    match find_name(left, name) {
        Some(position) => {
            assert(right[position].0 == name);
            assert forall|i: int| 0 <= i < position implies right[i].0 != name by {
                assert(left[i].0 == right[i].0);
            }
            find_name_is(right, name, position);
        },
        None => {
            if find_name(right, name) is Some {
                let position = find_name(right, name)->Some_0;
                assert(left[position].0 == right[position].0);
            }
        },
    }
}

/// `IndexMap::new`: a map without entries.
#[verifier::external_body]
fn index_new() -> (result: IndexMap<String, usize, RandomState>)
    ensures
        entries_of(result) == Seq::<(Seq<char>, usize)>::empty(),
{
    IndexMap::new()
}

/// `IndexMap::get`: the position stored under a name, if there is one.
#[verifier::external_body]
fn index_get(map: &IndexMap<String, usize, RandomState>, name: &str) -> (result: Option<usize>)
    ensures
        result == value_of(entries_of(*map), name@),
{
    map.get(name).copied()
}

/// `IndexMap::insert`: a known name keeps its place and takes the new position, an unknown name
/// comes last.
#[verifier::external_body]
fn index_insert(map: &mut IndexMap<String, usize, RandomState>, name: String, position: usize)
    ensures
        entries_of(*final(map)) == with_entry(entries_of(*old(map)), name@, position),
{
    map.insert(name, position);
}

/// `IndexMap::get_index`: the name at a place of the iteration order, if the map is that long.
#[verifier::external_body]
fn index_name(map: &IndexMap<String, usize, RandomState>, place: usize) -> (result: Option<&String>)
    ensures
        match result {
            Some(name) => place < entries_of(*map).len() && name@ == entries_of(*map)[place as int].0,
            None => place >= entries_of(*map).len(),
        },
{
    map.get_index(place).map(|entry| entry.0)
}

/// A map from names to values in order of first insertion.
pub struct OrderedMap<V> {
    places: IndexMap<String, usize, RandomState>,
    values: Vec<V>,
}

impl<V> View for OrderedMap<V> {
    type V = Seq<(Seq<char>, V)>;

    closed spec fn view(&self) -> Seq<(Seq<char>, V)> {
        Seq::new(self.values@.len(), |i: int| (entries_of(self.places)[i].0, self.values@[i]))
    }
}

impl<V> OrderedMap<V> {
    /// The name table and the values describe the same entries, and no name occurs twice.
    #[verifier::type_invariant]
    closed spec fn consistent(&self) -> bool {
        let entries = entries_of(self.places);
        &&& entries.len() == self.values@.len()
        &&& distinct_names(entries)
        &&& forall|i: int| 0 <= i < entries.len() ==> #[trigger] entries[i].1 == i
    }

    proof fn places_agree(&self, name: Seq<char>)
        requires
            self.consistent(),
        ensures
            find_name(self@, name) == find_name(entries_of(self.places), name),
    {
        let entries = entries_of(self.places);
        find_name_finds(self@, name);
        find_name_finds(entries, name);
        match find_name(entries, name) {
            Some(position) => {
                assert(self@[position].0 == name);
                find_name_is(self@, name, position);
            },
            None => {
                if find_name(self@, name) is Some {
                    let position = find_name(self@, name)->Some_0;
                    assert(entries[position].0 == name);
                }
            },
        }
    }

    pub fn new() -> (result: Self)
        ensures
            result@ == Seq::<(Seq<char>, V)>::empty(),
    {
        let result = OrderedMap { places: index_new(), values: Vec::new() };
        assert(result@ =~= Seq::<(Seq<char>, V)>::empty());
        result
    }

    /// The number of entries; no name occurs twice among them.
    pub fn len(&self) -> (result: usize)
        ensures
            result == self@.len(),
            distinct_names(self@),
    {
        proof {
            use_type_invariant(self);
        }
        self.values.len()
    }

    pub fn is_empty(&self) -> (result: bool)
        ensures
            result == (self@.len() == 0),
    {
        self.values.len() == 0
    }

    /// Where a name stands.
    pub fn position(&self, name: &str) -> (result: Option<usize>)
        ensures
            match result {
                Some(position) => find_name(self@, name@) == Some(position as int) && position < self@.len(),
                None => find_name(self@, name@) is None,
            },
    {
        proof {
            use_type_invariant(self);
            self.places_agree(name@);
            find_name_finds(entries_of(self.places), name@);
        }
        index_get(&self.places, name)
    }

    pub fn contains(&self, name: &str) -> (result: bool)
        ensures
            result == has_name(self@, name@),
    {
        self.position(name).is_some()
    }

    /// The value under a name.
    pub fn get(&self, name: &str) -> (result: Option<&V>)
        ensures
            match result {
                Some(value) => value_of(self@, name@) == Some(*value),
                None => value_of(self@, name@) is None,
            },
    {
        proof {
            find_name_finds(self@, name@);
        }
        match self.position(name) {
            Some(position) => Some(&self.values[position]),
            None => None,
        }
    }

    /// The name at a place.
    pub fn name_at(&self, place: usize) -> (result: &String)
        requires
            place < self@.len(),
        ensures
            result@ == self@[place as int].0,
    {
        proof {
            use_type_invariant(self);
        }
        index_name(&self.places, place).unwrap()
    }

    /// The value at a place.
    pub fn value_at(&self, place: usize) -> (result: &V)
        requires
            place < self@.len(),
        ensures
            *result == self@[place as int].1,
    {
        &self.values[place]
    }

    /// The map with a value stored under a name.
    fn with(self, name: String, value: V) -> (result: Self)
        ensures
            result@ == with_entry(self@, name@, value),
    {
        proof {
            use_type_invariant(&self);
            self.places_agree(name@);
            find_name_finds(entries_of(self.places), name@);
            with_entry_distinct(entries_of(self.places), name@, self.values@.len() as usize);
        }
        let ghost before = self@;
        let ghost text = name@;
        let found = self.position(name.as_str());
        let OrderedMap { mut places, mut values } = self;
        match found {
            Some(position) => {
                values.set(position, value);
            },
            None => {
                let position: usize = values.len();
                index_insert(&mut places, name, position);
                values.push(value);
            },
        }
        let result = OrderedMap { places, values };
        proof {
            assert(result@ =~= with_entry(before, text, value));
        }
        result
    }

    /// The map with another value at a place, and the value that stood there.
    fn with_replaced(self, place: usize, value: V) -> (result: (Self, V))
        requires
            place < self@.len(),
        ensures
            result.0@ == self@.update(place as int, (self@[place as int].0, value)),
            result.1 == self@[place as int].1,
    {
        proof {
            use_type_invariant(&self);
        }
        let ghost before = self@;
        let OrderedMap { places, mut values } = self;
        let mut other = value;
        core::mem::swap(&mut values[place], &mut other);
        let result = OrderedMap { places, values };
        proof {
            assert(result@ =~= before.update(place as int, (before[place as int].0, value)));
        }
        (result, other)
    }

    /// Puts another value at a place and gives back the one that stood there.
    pub fn replace(&mut self, place: usize, value: V) -> (result: V)
        requires
            place < old(self)@.len(),
        ensures
            final(self)@ == old(self)@.update(place as int, (old(self)@[place as int].0, value)),
            result == old(self)@[place as int].1,
    {
        let mut map = OrderedMap::new();
        core::mem::swap(self, &mut map);
        let (map, other) = map.with_replaced(place, value);
        *self = map;
        other
    }

    /// Stores a value under a name.
    pub fn insert(&mut self, name: String, value: V)
        ensures
            final(self)@ == with_entry(old(self)@, name@, value),
    {
        let mut map = OrderedMap::new();
        core::mem::swap(self, &mut map);
        *self = map.with(name, value);
    }
}

/// The entries of an `IndexMap` from ids to positions, in iteration order.
pub uninterp spec fn id_entries_of(map: IndexMap<usize, usize, RandomState>) -> Seq<(usize, usize)>;

/// `IndexMap::new`: a map without entries.
#[verifier::external_body]
fn id_new() -> (result: IndexMap<usize, usize, RandomState>)
    ensures
        id_entries_of(result) == Seq::<(usize, usize)>::empty(),
{
    IndexMap::new()
}

/// `IndexMap::get`: the position stored under an id, if there is one.
#[verifier::external_body]
fn id_get(map: &IndexMap<usize, usize, RandomState>, id: usize) -> (result: Option<usize>)
    ensures
        result == value_of(id_entries_of(*map), id),
{
    map.get(&id).copied()
}

/// `IndexMap::insert`: a known id keeps its place and takes the new position, an unknown id
/// comes last.
#[verifier::external_body]
fn id_insert(map: &mut IndexMap<usize, usize, RandomState>, id: usize, position: usize)
    ensures
        id_entries_of(*final(map)) == with_entry(id_entries_of(*old(map)), id, position),
{
    map.insert(id, position);
}

/// `IndexMap::get_index`: the id at a place of the iteration order, if the map is that long.
#[verifier::external_body]
fn id_at(map: &IndexMap<usize, usize, RandomState>, place: usize) -> (result: Option<usize>)
    ensures
        match result {
            Some(id) => place < id_entries_of(*map).len() && id == id_entries_of(*map)[place as int].0,
            None => place >= id_entries_of(*map).len(),
        },
{
    map.get_index(place).map(|entry| *entry.0)
}

/// A map from ids to values in order of first insertion.
pub struct IdMap<V> {
    places: IndexMap<usize, usize, RandomState>,
    values: Vec<V>,
}

impl<V> View for IdMap<V> {
    type V = Seq<(usize, V)>;

    closed spec fn view(&self) -> Seq<(usize, V)> {
        Seq::new(self.values@.len(), |i: int| (id_entries_of(self.places)[i].0, self.values@[i]))
    }
}

impl<V> IdMap<V> {
    /// The id table and the values describe the same entries, and no id occurs twice.
    #[verifier::type_invariant]
    closed spec fn consistent(&self) -> bool {
        let entries = id_entries_of(self.places);
        &&& entries.len() == self.values@.len()
        &&& distinct_names(entries)
        &&& forall|i: int| 0 <= i < entries.len() ==> #[trigger] entries[i].1 == i
    }

    proof fn places_agree(&self, id: usize)
        requires
            self.consistent(),
        ensures
            find_name(self@, id) == find_name(id_entries_of(self.places), id),
    {
        let entries = id_entries_of(self.places);
        find_name_finds(self@, id);
        find_name_finds(entries, id);
        match find_name(entries, id) {
            Some(position) => {
                assert(self@[position].0 == id);
                find_name_is(self@, id, position);
            },
            None => {
                if find_name(self@, id) is Some {
                    let position = find_name(self@, id)->Some_0;
                    assert(entries[position].0 == id);
                }
            },
        }
    }

    pub fn new() -> (result: Self)
        ensures
            result@ == Seq::<(usize, V)>::empty(),
    {
        let result = IdMap { places: id_new(), values: Vec::new() };
        assert(result@ =~= Seq::<(usize, V)>::empty());
        result
    }

    /// The number of entries; no id occurs twice among them.
    pub fn len(&self) -> (result: usize)
        ensures
            result == self@.len(),
            distinct_names(self@),
    {
        proof {
            use_type_invariant(self);
        }
        self.values.len()
    }

    pub fn is_empty(&self) -> (result: bool)
        ensures
            result == (self@.len() == 0),
    {
        self.values.len() == 0
    }

    /// Where an id stands.
    pub fn position(&self, id: usize) -> (result: Option<usize>)
        ensures
            match result {
                Some(position) => find_name(self@, id) == Some(position as int) && position < self@.len(),
                None => find_name(self@, id) is None,
            },
    {
        proof {
            use_type_invariant(self);
            self.places_agree(id);
            find_name_finds(id_entries_of(self.places), id);
        }
        id_get(&self.places, id)
    }

    pub fn contains(&self, id: usize) -> (result: bool)
        ensures
            result == has_name(self@, id),
    {
        self.position(id).is_some()
    }

    /// The value under an id.
    pub fn get(&self, id: usize) -> (result: Option<&V>)
        ensures
            match result {
                Some(value) => value_of(self@, id) == Some(*value),
                None => value_of(self@, id) is None,
            },
    {
        proof {
            find_name_finds(self@, id);
        }
        match self.position(id) {
            Some(position) => Some(&self.values[position]),
            None => None,
        }
    }

    /// The id at a place.
    pub fn id_at(&self, place: usize) -> (result: usize)
        requires
            place < self@.len(),
        ensures
            result == self@[place as int].0,
    {
        proof {
            use_type_invariant(self);
        }
        id_at(&self.places, place).unwrap()
    }

    /// The value at a place.
    pub fn value_at(&self, place: usize) -> (result: &V)
        requires
            place < self@.len(),
        ensures
            *result == self@[place as int].1,
    {
        &self.values[place]
    }

    /// The map with a value stored under an id.
    fn with(self, id: usize, value: V) -> (result: Self)
        ensures
            result@ == with_entry(self@, id, value),
    {
        proof {
            use_type_invariant(&self);
            self.places_agree(id);
            find_name_finds(id_entries_of(self.places), id);
            with_entry_distinct(id_entries_of(self.places), id, self.values@.len() as usize);
        }
        let ghost before = self@;
        let found = self.position(id);
        let IdMap { mut places, mut values } = self;
        match found {
            Some(position) => {
                values.set(position, value);
            },
            None => {
                let position: usize = values.len();
                id_insert(&mut places, id, position);
                values.push(value);
            },
        }
        let result = IdMap { places, values };
        proof {
            assert(result@ =~= with_entry(before, id, value));
        }
        result
    }

    /// The map with another value at a place, and the value that stood there.
    fn with_replaced(self, place: usize, value: V) -> (result: (Self, V))
        requires
            place < self@.len(),
        ensures
            result.0@ == self@.update(place as int, (self@[place as int].0, value)),
            result.1 == self@[place as int].1,
    {
        proof {
            use_type_invariant(&self);
        }
        let ghost before = self@;
        let IdMap { places, mut values } = self;
        let mut other = value;
        core::mem::swap(&mut values[place], &mut other);
        let result = IdMap { places, values };
        proof {
            assert(result@ =~= before.update(place as int, (before[place as int].0, value)));
        }
        (result, other)
    }

    /// Puts another value at a place and gives back the one that stood there.
    pub fn replace(&mut self, place: usize, value: V) -> (result: V)
        requires
            place < old(self)@.len(),
        ensures
            final(self)@ == old(self)@.update(place as int, (old(self)@[place as int].0, value)),
            result == old(self)@[place as int].1,
    {
        let mut map = IdMap::new();
        core::mem::swap(self, &mut map);
        let (map, other) = map.with_replaced(place, value);
        *self = map;
        other
    }

    /// Stores a value under an id.
    pub fn insert(&mut self, id: usize, value: V)
        ensures
            final(self)@ == with_entry(old(self)@, id, value),
    {
        let mut map = IdMap::new();
        core::mem::swap(self, &mut map);
        *self = map.with(id, value);
    }
}

/// Of several values that are stored, the last one under a name is read back, and a name under which
/// none is stored keeps what it held.
pub proof fn last_entries_are_read_back<K, V>(entries: Seq<(K, V)>, added: Seq<(K, V)>, name: K)
    ensures
        forall|place: int|
            0 <= place < added.len() && (#[trigger] added[place]).0 == name && (forall|later: int|
                place < later < added.len() ==> (#[trigger] added[later]).0 != name) ==> value_of(
                with_entries(entries, added),
                name,
            ) == Some(added[place].1),
        (forall|place: int| 0 <= place < added.len() ==> (#[trigger] added[place]).0 != name) ==> value_of(
            with_entries(entries, added),
            name,
        ) == value_of(entries, name),
    decreases added.len(),
{
    if added.len() > 0 {
        let fewer = added.drop_last();
        last_entries_are_read_back(entries, fewer, name);
        let stored = with_entries(entries, fewer);
        assert(added[added.len() - 1] == added.last());
        if added.last().0 == name {
            read_after_write(stored, name, added.last().1);
        } else {
            write_keeps_others(stored, added.last().0, added.last().1, name);
            assert forall|place: int| 0 <= place < fewer.len() implies fewer[place] == added[place] by {}
            assert forall|place: int|
                0 <= place < added.len() && (#[trigger] added[place]).0 == name && (forall|later: int|
                    place < later < added.len() ==> (#[trigger] added[later]).0 != name) implies value_of(
                with_entries(entries, added),
                name,
            ) == Some(added[place].1) by {
                assert(fewer[place].0 == name);
                assert forall|later: int| place < later < fewer.len() implies (#[trigger] fewer[later]).0 != name by {
                    assert(added[later].0 != name);
                }
            }
            if forall|place: int| 0 <= place < added.len() ==> (#[trigger] added[place]).0 != name {
                assert forall|place: int| 0 <= place < fewer.len() implies (#[trigger] fewer[place]).0 != name by {
                    assert(added[place].0 != name);
                }
            }
        }
    }
}

} // verus!
