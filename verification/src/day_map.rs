//! A map from orders of a day to values that remembers the order of first insertion.
use crate::order::OrderDir;
use crate::ordered::{
    distinct_names, find_name, find_name_finds, find_name_is, has_name, value_of, with_entry, with_entry_distinct,
};
use crate::saoe::{DayKey, KeyModel};
use indexmap::IndexMap;
use std::collections::hash_map::RandomState;
use vstd::prelude::*;

verus! {

/// A key in plain values: the stock, the seconds and nanoseconds of the day, and whether the order
/// buys.
pub type DayTuple = (String, i64, u32, bool);

/// A key in plain values.
pub type DayModel = (Seq<char>, i64, u32, bool);

/// A key in plain values.
pub open spec fn day_model(key: DayTuple) -> DayModel {
    (key.0@, key.1, key.2, key.3)
}

/// A key of an order in plain values.
pub open spec fn plain_key(key: KeyModel) -> DayModel {
    (key.0, key.1.seconds, key.1.nanos, key.2 == OrderDir::Buy)
}

/// Different orders of a day have different keys.
pub proof fn plain_keys_differ(a: KeyModel, b: KeyModel)
    requires
        plain_key(a) == plain_key(b),
    ensures
        a == b,
{
}

/// A key of an order in plain values.
pub fn to_plain_key(key: &DayKey) -> (result: DayTuple)
    ensures
        day_model(result) == plain_key(key@),
{
    (key.stock_id.clone(), key.day.seconds, key.day.nanos, key.direction == OrderDir::Buy)
}

/// The entries of an `IndexMap` from keys to positions, in iteration order.
pub uninterp spec fn day_entries_of(map: IndexMap<DayTuple, usize, RandomState>) -> Seq<(DayModel, usize)>;

/// `IndexMap::new`: a map without entries.
#[verifier::external_body]
fn day_new() -> (result: IndexMap<DayTuple, usize, RandomState>)
    ensures
        day_entries_of(result) == Seq::<(DayModel, usize)>::empty(),
{
    IndexMap::new()
}

/// `IndexMap::get`: the position stored under a key, if there is one.
#[verifier::external_body]
fn day_get(map: &IndexMap<DayTuple, usize, RandomState>, key: &DayTuple) -> (result: Option<usize>)
    ensures
        result == value_of(day_entries_of(*map), day_model(*key)),
{
    map.get(key).copied()
}

/// `IndexMap::insert`: a known key keeps its place and takes the new position, an unknown key
/// comes last.
#[verifier::external_body]
fn day_insert(map: &mut IndexMap<DayTuple, usize, RandomState>, key: DayTuple, position: usize)
    ensures
        day_entries_of(*final(map)) == with_entry(day_entries_of(*old(map)), day_model(key), position),
{
    map.insert(key, position);
}

/// A map from keys to values in order of first insertion.
pub struct DayMap<V> {
    places: IndexMap<DayTuple, usize, RandomState>,
    values: Vec<V>,
}

impl<V> View for DayMap<V> {
    type V = Seq<(DayModel, V)>;

    closed spec fn view(&self) -> Seq<(DayModel, V)> {
        Seq::new(self.values@.len(), |i: int| (day_entries_of(self.places)[i].0, self.values@[i]))
    }
}

impl<V> DayMap<V> {
    /// The key table and the values describe the same entries, and no key occurs twice.
    #[verifier::type_invariant]
    closed spec fn consistent(&self) -> bool {
        let entries = day_entries_of(self.places);
        &&& entries.len() == self.values@.len()
        &&& distinct_names(entries)
        &&& forall|i: int| 0 <= i < entries.len() ==> #[trigger] entries[i].1 == i
    }

    proof fn places_agree(&self, key: DayModel)
        requires
            self.consistent(),
        ensures
            find_name(self@, key) == find_name(day_entries_of(self.places), key),
    {
        let entries = day_entries_of(self.places);
        find_name_finds(self@, key);
        find_name_finds(entries, key);
        match find_name(entries, key) {
            Some(position) => {
                assert(self@[position].0 == key);
                find_name_is(self@, key, position);
            },
            None => {
                if find_name(self@, key) is Some {
                    let position = find_name(self@, key)->Some_0;
                    assert(entries[position].0 == key);
                }
            },
        }
    }

    pub fn new() -> (result: Self)
        ensures
            result@ == Seq::<(DayModel, V)>::empty(),
    {
        let result = DayMap { places: day_new(), values: Vec::new() };
        assert(result@ =~= Seq::<(DayModel, V)>::empty());
        result
    }

    /// The number of entries; no key occurs twice among them.
    pub fn len(&self) -> (result: usize)
        ensures
            result == self@.len(),
            distinct_names(self@),
    {
        proof {
            use_type_invariant(self);
        }
        self.values.len()
    }

    pub fn is_empty(&self) -> (result: bool)
        ensures
            result == (self@.len() == 0),
    {
        self.values.len() == 0
    }

    /// Where a key stands.
    pub fn position(&self, key: &DayTuple) -> (result: Option<usize>)
        ensures
            match result {
                Some(position) => find_name(self@, day_model(*key)) == Some(position as int) && position < self@.len(),
                None => find_name(self@, day_model(*key)) is None,
            },
    {
        proof {
            use_type_invariant(self);
            self.places_agree(day_model(*key));
            find_name_finds(day_entries_of(self.places), day_model(*key));
        }
        day_get(&self.places, key)
    }

    pub fn contains(&self, key: &DayTuple) -> (result: bool)
        ensures
            result == has_name(self@, day_model(*key)),
    {
        self.position(key).is_some()
    }

    /// The value under a key.
    pub fn get(&self, key: &DayTuple) -> (result: Option<&V>)
        ensures
            match result {
                Some(value) => value_of(self@, day_model(*key)) == Some(*value),
                None => value_of(self@, day_model(*key)) is None,
            },
    {
        proof {
            find_name_finds(self@, day_model(*key));
        }
        match self.position(key) {
            Some(position) => Some(&self.values[position]),
            None => None,
        }
    }

    /// The value at a place.
    pub fn value_at(&self, place: usize) -> (result: &V)
        requires
            place < self@.len(),
        ensures
            *result == self@[place as int].1,
    {
        &self.values[place]
    }

    /// The map with a value stored under a key.
    fn with(self, key: DayTuple, value: V) -> (result: Self)
        ensures
            result@ == with_entry(self@, day_model(key), value),
    {
        proof {
            use_type_invariant(&self);
            self.places_agree(day_model(key));
            find_name_finds(day_entries_of(self.places), day_model(key));
            with_entry_distinct(day_entries_of(self.places), day_model(key), self.values@.len() as usize);
        }
        let ghost before = self@;
        let ghost model = day_model(key);
        let found = self.position(&key);
        let DayMap { mut places, mut values } = self;
        match found {
            Some(position) => {
                values.set(position, value);
            },
            None => {
                let position: usize = values.len();
                day_insert(&mut places, key, position);
                values.push(value);
            },
        }
        let result = DayMap { places, values };
        proof {
            assert(result@ =~= with_entry(before, model, value));
        }
        result
    }

    /// Stores a value under a key.
    pub fn insert(&mut self, key: DayTuple, value: V)
        ensures
            final(self)@ == with_entry(old(self)@, day_model(key), value),
    {
        let mut map = DayMap::new();
        core::mem::swap(self, &mut map);
        *self = map.with(key, value);
    }
}

} // verus!
