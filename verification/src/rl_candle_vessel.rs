//! The keywords of an update, as a training vessel hands them on.
use crate::number::{Number, Ticks};
use crate::ordered::{names_of, value_of, OrderedMap};
use crate::rl_policy_batch::minibatch_indices;
use crate::text::same_text;
use rand::rngs::StdRng;
use vstd::prelude::*;

verus! {

/// The value of a keyword.
#[derive(Clone, Copy, Debug, PartialEq)]
pub enum OptionValue<V> {
    Bool(bool),
    /// An integer that is not negative.
    Unsigned(u64),
    /// An integer below zero.
    Negative(i64),
    Float(V),
    /// Anything else.
    Other,
}

/// Why keywords are refused.
#[derive(Clone, Copy, Debug, PartialEq, Eq, Structural)]
pub enum LearnOptionError {
    MissingBatchSize,
    MissingRepeat,
    RepeatNotInteger,
    RepeatTooLarge,
    BatchSizeNotComparable,
    BatchSizeTooSmall,
    BatchSizeTooLarge,
    BatchSizeNotInteger,
}

impl LearnOptionError {
    /// What the refusal says.
    pub fn message(self) -> (result: &'static str)
        ensures
            result@ == match self {
                LearnOptionError::MissingBatchSize => "missing batch_size"@,
                LearnOptionError::MissingRepeat => "missing repeat"@,
                LearnOptionError::RepeatNotInteger => "repeat must be an integer"@,
                LearnOptionError::RepeatTooLarge => "repeat exceeds native index range"@,
                LearnOptionError::BatchSizeNotComparable => "batch_size must be comparable to an integer"@,
                LearnOptionError::BatchSizeTooSmall => "batch_size must be at least one"@,
                LearnOptionError::BatchSizeTooLarge => "batch_size exceeds native index range"@,
                LearnOptionError::BatchSizeNotInteger => "batch_size must be an integer"@,
            },
    {
        match self {
            LearnOptionError::MissingBatchSize => "missing batch_size",
            LearnOptionError::MissingRepeat => "missing repeat",
            LearnOptionError::RepeatNotInteger => "repeat must be an integer",
            LearnOptionError::RepeatTooLarge => "repeat exceeds native index range",
            LearnOptionError::BatchSizeNotComparable => "batch_size must be comparable to an integer",
            LearnOptionError::BatchSizeTooSmall => "batch_size must be at least one",
            LearnOptionError::BatchSizeTooLarge => "batch_size exceeds native index range",
            LearnOptionError::BatchSizeNotInteger => "batch_size must be an integer",
        }
    }
}

/// How often a batch is learned: an integer or a truth value; a negative integer stands for never.
pub open spec fn repeats<V>(value: OptionValue<V>) -> Result<usize, LearnOptionError> {
    match value {
        OptionValue::Bool(flag) => Ok(
            if flag {
                1
            } else {
                0
            },
        ),
        OptionValue::Negative(_) => Ok(0),
        OptionValue::Unsigned(number) => if number <= usize::MAX {
            Ok(number as usize)
        } else {
            Err(LearnOptionError::RepeatTooLarge)
        },
        _ => Err(LearnOptionError::RepeatNotInteger),
    }
}

/// How often a batch is learned.
pub fn repeat_count<V: Copy>(value: OptionValue<V>) -> (result: Result<usize, LearnOptionError>)
    ensures
        result == repeats(value),
{
    match value {
        OptionValue::Bool(flag) => Ok(
            if flag {
                1
            } else {
                0
            },
        ),
        OptionValue::Negative(_) => Ok(0),
        OptionValue::Unsigned(number) => if number <= usize::MAX as u64 {
            Ok(number as usize)
        } else {
            Err(LearnOptionError::RepeatTooLarge)
        },
        _ => Err(LearnOptionError::RepeatNotInteger),
    }
}

/// How large minibatches are. A number with a fraction is refused only once the batch was shuffled
/// for it.
pub open spec fn batch_size_of<V: Number>(value: OptionValue<V>) -> Result<usize, LearnOptionError> {
    match value {
        OptionValue::Bool(flag) => if flag {
            Ok(1)
        } else {
            Err(LearnOptionError::BatchSizeTooSmall)
        },
        OptionValue::Unsigned(number) => if number == 0 {
            Err(LearnOptionError::BatchSizeTooSmall)
        } else if number <= usize::MAX {
            Ok(number as usize)
        } else {
            Err(LearnOptionError::BatchSizeTooLarge)
        },
        OptionValue::Negative(_) => Err(LearnOptionError::BatchSizeTooSmall),
        OptionValue::Float(number) => if V::one_spec().below_spec(number) || V::one_spec().equals_spec(number) {
            Err(LearnOptionError::BatchSizeNotInteger)
        } else {
            Err(LearnOptionError::BatchSizeTooSmall)
        },
        OptionValue::Other => Err(LearnOptionError::BatchSizeNotComparable),
    }
}

/// The size of minibatches and the number of repeats out of keywords. Without repeats the size is
/// not looked at.
pub open spec fn learn_numbers<V: Number>(options: Seq<(Seq<char>, OptionValue<V>)>) -> Result<
    (usize, usize),
    LearnOptionError,
> {
    match value_of(options, "batch_size"@) {
        None => Err(LearnOptionError::MissingBatchSize),
        Some(batch) => match value_of(options, "repeat"@) {
            None => Err(LearnOptionError::MissingRepeat),
            Some(repeat) => match repeats(repeat) {
                Err(error) => Err(error),
                Ok(count) => if count == 0 {
                    Ok((0, 0))
                } else {
                    match batch_size_of(batch) {
                        Ok(size) => Ok((size, count)),
                        Err(error) => Err(error),
                    }
                },
            },
        },
    }
}

/// The size of minibatches and the number of repeats out of keywords, for a batch of a length.
pub fn learn_options<V: Number>(options: &OrderedMap<OptionValue<V>>, length: usize, rng: &mut StdRng) -> (result: Result<
    (usize, usize),
    LearnOptionError,
>)
    ensures
        result == learn_numbers(options@),
        result != Err::<(usize, usize), _>(LearnOptionError::BatchSizeNotInteger) ==> *final(rng) == *old(rng),
{
    let batch = match options.get("batch_size") {
        None => return Err(LearnOptionError::MissingBatchSize),
        Some(batch) => *batch,
    };
    let repeat = match options.get("repeat") {
        None => return Err(LearnOptionError::MissingRepeat),
        Some(repeat) => *repeat,
    };
    let count: usize = match repeat_count(repeat) {
        Ok(count) => count,
        Err(error) => return Err(error),
    };
    if count == 0 {
        return Ok((0, 0));
    }
    match batch {
        OptionValue::Bool(flag) => if flag {
            Ok((1, count))
        } else {
            Err(LearnOptionError::BatchSizeTooSmall)
        },
        OptionValue::Unsigned(number) => if number == 0 {
            Err(LearnOptionError::BatchSizeTooSmall)
        } else if number <= usize::MAX as u64 {
            Ok((number as usize, count))
        } else {
            Err(LearnOptionError::BatchSizeTooLarge)
        },
        OptionValue::Negative(_) => Err(LearnOptionError::BatchSizeTooSmall),
        OptionValue::Float(number) => if V::one().below(number) || V::one().equals(number) {
            let _ = minibatch_indices(length, 1, true, true, rng);
            Err(LearnOptionError::BatchSizeNotInteger)
        } else {
            Err(LearnOptionError::BatchSizeTooSmall)
        },
        OptionValue::Other => Err(LearnOptionError::BatchSizeNotComparable),
    }
}

/// Whether a keyword is one that an update has of its own.
pub open spec fn is_reserved(name: Seq<char>) -> bool {
    name == "sample_size"@ || name == "buffer"@
}

/// The first keyword that an update has of its own.
pub open spec fn first_reserved(names: Seq<Seq<char>>) -> Option<Seq<char>>
    decreases names.len(),
{
    if names.len() == 0 {
        None
    } else if is_reserved(names[0]) {
        Some(names[0])
    } else {
        first_reserved(names.drop_first())
    }
}

/// Refuses keywords that an update has of its own, whatever their values.
pub fn check_keywords<T>(options: &OrderedMap<T>) -> (result: Option<String>)
    ensures
        match result {
            Some(name) => first_reserved(names_of(options@)) == Some(name@),
            None => first_reserved(names_of(options@)) is None,
        },
{
    let length: usize = options.len();
    let ghost names = names_of(options@);
    let mut i: usize = 0;
    assert(names.skip(0) =~= names);
    while i < length
        invariant
            i <= length,
            length == options@.len(),
            names == names_of(options@),
            first_reserved(names) == first_reserved(names.skip(i as int)),
        decreases length - i,
    {
        let name = options.name_at(i);
        proof {
            assert(names.skip(i as int)[0] == name@);
            assert(names.skip(i as int).drop_first() =~= names.skip(i + 1));
        }
        if same_text(name.as_str(), "sample_size") || same_text(name.as_str(), "buffer") {
            return Some(name.clone());
        }
        i += 1;
    }
    assert(names.skip(i as int).len() == 0);
    None
}

/// Without repeats no size of minibatches is refused.
pub proof fn no_repeats_accept_any_size<V: Number>(options: Seq<(Seq<char>, OptionValue<V>)>)
    requires
        value_of(options, "batch_size"@) is Some,
        value_of(options, "repeat"@) is Some,
        repeats(value_of(options, "repeat"@)->Some_0) == Ok::<usize, LearnOptionError>(0),
    ensures
        learn_numbers(options) == Ok::<(usize, usize), LearnOptionError>((0, 0)),
{
}

/// Learning repeats as often as it is told to, over minibatches of the size that it is told. Without a
/// repeat nothing is learned, whatever the size; with one, a size has to be at least one.
pub proof fn options_are_taken_as_told(
    options: OrderedMap<OptionValue<Ticks>>,
    length: usize,
    rng: &mut StdRng,
    result: Result<(usize, usize), LearnOptionError>,
    size: u64,
    repeat: u64,
)
    requires
        call_ensures(learn_options::<Ticks>, (&options, length, rng), result),
        value_of(options@, "batch_size"@) == Some(OptionValue::<Ticks>::Unsigned(size)),
        value_of(options@, "repeat"@) == Some(OptionValue::<Ticks>::Unsigned(repeat)),
        size <= usize::MAX,
        repeat <= usize::MAX,
    ensures
        repeat == 0 ==> result is Ok && result->Ok_0.1 == 0,
        repeat > 0 && size > 0 ==> result is Ok && result->Ok_0.0 == size && result->Ok_0.1 == repeat,
        repeat > 0 && size == 0 ==> result == Err::<(usize, usize), LearnOptionError>(LearnOptionError::BatchSizeTooSmall),
{
}

/// The keywords that an update has of its own are refused wherever they stand, and no others.
pub proof fn own_keywords_are_refused<T>(options: OrderedMap<T>, result: Option<String>, place: int)
    requires
        call_ensures(check_keywords::<T>, (&options,), result),
        0 <= place < options@.len(),
    ensures
        options@[place].0 == "buffer"@ || options@[place].0 == "sample_size"@ ==> result is Some,
        result is Some ==> result->Some_0@ == "buffer"@ || result->Some_0@ == "sample_size"@,
{
    let names = names_of(options@);
    assert(names[place] == options@[place].0);
    reserved_names_are_found(names, place);
}

proof fn reserved_names_are_found(names: Seq<Seq<char>>, place: int)
    requires
        0 <= place < names.len(),
    ensures
        is_reserved(names[place]) ==> first_reserved(names) is Some,
        first_reserved(names) is Some ==> is_reserved(first_reserved(names)->Some_0),
    decreases names.len(),
{
    reveal_with_fuel(first_reserved, 2);
    if !is_reserved(names[0]) && names.len() > 1 {
        let rest = names.drop_first();
        if place > 0 {
            assert(rest[place - 1] == names[place]);
            reserved_names_are_found(rest, place - 1);
        } else {
            reserved_names_are_found(rest, 0);
        }
    }
}

} // verus!
