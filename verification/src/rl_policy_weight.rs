//! Loading of policy weights with one retry under prefixed names.
use crate::ordered::{names_of, value_of, with_entry, OrderedMap};
use crate::text::{append_chars, from_chars, to_chars};
use vstd::prelude::*;

verus! {

/// Why weights were not loaded, by what follows from it.
#[derive(Debug)]
pub enum PolicyWeightLoadError {
    /// A failure that is worth one retry.
    Runtime(String),
    Other(String),
}

impl PolicyWeightLoadError {
    /// What is said of the failure.
    pub fn message(&self) -> (result: String)
        ensures
            result@ == match self {
                PolicyWeightLoadError::Runtime(message) => message@,
                PolicyWeightLoadError::Other(message) => message@,
            },
    {
        match self {
            PolicyWeightLoadError::Runtime(message) => message.clone(),
            PolicyWeightLoadError::Other(message) => message.clone(),
        }
    }
}

/// Weights by name, with what their owner keeps beside them. The weights are handles: a retry
/// shares them.
pub struct PolicyWeights<W, D> {
    pub weights: OrderedMap<W>,
    pub metadata: D,
}

/// A name behind the prefix of the inner policy.
pub open spec fn prefixed(name: Seq<char>) -> Seq<char> {
    "_actor_critic."@ + name
}

/// The weights after the values under some names were stored under prefixed names as well, one
/// after another. A value is read when its turn comes, so it may be one that was stored before.
pub open spec fn with_prefixes<W>(entries: Seq<(Seq<char>, W)>, names: Seq<Seq<char>>) -> Seq<(Seq<char>, W)>
    decreases names.len(),
{
    if names.len() == 0 {
        entries
    } else {
        let before = with_prefixes(entries, names.drop_last());
        with_entry(before, prefixed(names.last()), value_of(before, names.last())->Some_0)
    }
}

proof fn names_stay<W>(entries: Seq<(Seq<char>, W)>, names: Seq<Seq<char>>)
    ensures
        with_prefixes(entries, names).len() >= entries.len(),
        forall|i: int| 0 <= i < entries.len() ==> (#[trigger] with_prefixes(entries, names)[i]).0 == entries[i].0,
    decreases names.len(),
{
    if names.len() > 0 {
        names_stay(entries, names.drop_last());
        let before = with_prefixes(entries, names.drop_last());
        crate::ordered::find_name_finds(before, prefixed(names.last()));
    }
}

proof fn held_name_is_found<W>(entries: Seq<(Seq<char>, W)>, position: int)
    requires
        0 <= position < entries.len(),
    ensures
        value_of(entries, entries[position].0) is Some,
{
    crate::ordered::find_name_finds(entries, entries[position].0);
}

/// Stores every weight under its prefixed name as well.
fn add_prefixes<W: Copy>(weights: &mut OrderedMap<W>)
    ensures
        final(weights)@ == with_prefixes(old(weights)@, names_of(old(weights)@)),
{
    let ghost entries = weights@;
    let ghost all = names_of(entries);
    let count: usize = weights.len();
    let mut names: Vec<String> = Vec::new();
    let mut i: usize = 0;
    while i < count
        invariant
            i <= count,
            count == weights@.len(),
            weights@ == entries,
            names@.len() == i,
            forall|j: int| 0 <= j < i ==> (#[trigger] names@[j])@ == entries[j].0,
        decreases count - i,
    {
        names.push(weights.name_at(i).clone());
        i += 1;
    }
    let mut k: usize = 0;
    assert(all.take(0) =~= Seq::<Seq<char>>::empty());
    while k < names.len()
        invariant
            k <= names@.len(),
            names@.len() == entries.len(),
            all == names_of(entries),
            forall|j: int| 0 <= j < names@.len() ==> (#[trigger] names@[j])@ == entries[j].0,
            weights@ == with_prefixes(entries, all.take(k as int)),
        decreases names@.len() - k,
    {
        let name = names[k].as_str();
        proof {
            names_stay(entries, all.take(k as int));
            held_name_is_found(weights@, k as int);
            assert(all.take(k + 1).drop_last() =~= all.take(k as int));
            assert(all.take(k + 1).last() == name@);
        }
        let value: W = *weights.get(name).unwrap();
        let mut text = to_chars("_actor_critic.");
        append_chars(&mut text, to_chars(name).as_slice());
        weights.insert(from_chars(text.as_slice()), value);
        k += 1;
    }
    assert(all.take(k as int) =~= all);
}

/// What the owner of a policy does next.
#[derive(Debug)]
pub enum WeightStep {
    /// Load the weights.
    Load,
    Finished,
    Failed(PolicyWeightLoadError),
}

/// A load of weights under way.
#[derive(Debug)]
pub struct PolicyWeightLoad {
    pub retried: bool,
}

impl PolicyWeightLoad {
    /// Begins: the weights are loaded as they are.
    pub fn begin() -> (result: (Self, WeightStep))
        ensures
            !result.0.retried,
            result.1 is Load,
    {
        (PolicyWeightLoad { retried: false }, WeightStep::Load)
    }

    /// Goes on behind a load. A first failure that is worth it brings one retry with the weights
    /// under prefixed names too; nothing that a failed load did is undone.
    pub fn answer<W: Copy, D>(
        &mut self,
        failure: Option<PolicyWeightLoadError>,
        state: &mut PolicyWeights<W, D>,
    ) -> (result: WeightStep)
        ensures
            final(state).metadata == old(state).metadata,
            match failure {
                None => result is Finished && final(state).weights@ == old(state).weights@ && *final(self) == *old(self),
                Some(error) => if error is Runtime && !old(self).retried {
                    &&& result is Load
                    &&& final(self).retried
                    &&& final(state).weights@ == with_prefixes(
                        old(state).weights@,
                        names_of(old(state).weights@),
                    )
                } else {
                    &&& result == WeightStep::Failed(error)
                    &&& final(state).weights@ == old(state).weights@
                    &&& *final(self) == *old(self)
                },
            },
    {
        match failure {
            None => WeightStep::Finished,
            Some(PolicyWeightLoadError::Runtime(message)) => if self.retried {
                WeightStep::Failed(PolicyWeightLoadError::Runtime(message))
            } else {
                self.retried = true;
                add_prefixes(&mut state.weights);
                WeightStep::Load
            },
            Some(error) => WeightStep::Failed(error),
        }
    }
}

/// A retry keeps every name that was there, in its place.
pub proof fn retries_keep_names<W>(entries: Seq<(Seq<char>, W)>)
    ensures
        with_prefixes(entries, names_of(entries)).len() >= entries.len(),
        forall|i: int|
            0 <= i < entries.len() ==> (#[trigger] with_prefixes(entries, names_of(entries))[i]).0 == entries[i].0,
{
    names_stay(entries, names_of(entries));
}

/// The last name to be prefixed is read back under its prefix.
pub proof fn prefixes_are_read_back<W>(entries: Seq<(Seq<char>, W)>, names: Seq<Seq<char>>, name: Seq<char>)
    requires
        value_of(with_prefixes(entries, names), name) is Some,
    ensures
        value_of(with_prefixes(entries, names.push(name)), prefixed(name)) == value_of(
            with_prefixes(entries, names),
            name,
        ),
{
    assert(names.push(name).drop_last() =~= names);
    let before = with_prefixes(entries, names);
    crate::ordered::read_after_write(before, prefixed(name), value_of(before, name)->Some_0);
}

} // verus!
