//! Discrete distributions: what is a distribution, and how actions are taken from it.
use crate::number::Ticks;
use crate::risk_analysis::Statistic;
use vstd::prelude::*;

verus! {

/// Whether a policy learns or is evaluated.
#[derive(Clone, Copy, Debug, PartialEq, Eq, Structural)]
pub enum TrainingPolicyMode {
    Train,
    Evaluation,
}

/// Why a distribution cannot be made or used.
#[derive(Clone, Copy, Debug, PartialEq, Eq, Structural)]
pub enum CategoricalError {
    NotSimplex,
    OutsideSupport,
    NoEvents,
}

impl CategoricalError {
    /// What is said of the failure.
    pub fn message(self) -> (result: &'static str)
        ensures
            result@ == match self {
                CategoricalError::NotSimplex => "categorical probabilities are not a simplex"@,
                CategoricalError::OutsideSupport => "categorical action is outside integer support"@,
                CategoricalError::NoEvents => "cannot sample an empty categorical event space"@,
            },
    {
        match self {
            CategoricalError::NotSimplex => "categorical probabilities are not a simplex",
            CategoricalError::OutsideSupport => "categorical action is outside integer support",
            CategoricalError::NoEvents => "cannot sample an empty categorical event space",
        }
    }
}

/// A number that can stand for an action.
pub trait ActionNumber: Statistic {
    /// The index that the value is cut to, where it is one.
    open spec fn index_spec(self) -> Option<usize> {
        arbitrary()
    }

    fn index(self) -> (result: Option<usize>)
        ensures
            result == self.index_spec(),
    ;
}

impl ActionNumber for Ticks {
    open spec fn index_spec(self) -> Option<usize> {
        match self.0 {
            Some(value) => if 0 <= value <= usize::MAX {
                Some(value as usize)
            } else {
                None
            },
            None => None,
        }
    }

    fn index(self) -> (result: Option<usize>) {
        match self.0 {
            Some(value) => if value >= 0 && value as u64 <= usize::MAX as u64 {
                Some(value as usize)
            } else {
                None
            },
            None => None,
        }
    }
}

/// Whether normalized probabilities are a distribution: none is negative, and every row adds up to
/// one. Both are given as flags that are zero where it does not hold. No row at all is one.
pub fn check_simplex(nonnegative: &Vec<u8>, normalized: &Vec<u8>) -> (result: Result<(), CategoricalError>)
    ensures
        result == if nonnegative@.contains(0) || normalized@.contains(0) {
            Err::<(), CategoricalError>(CategoricalError::NotSimplex)
        } else {
            Ok(())
        },
{
    if holds_zero(nonnegative) || holds_zero(normalized) {
        Err(CategoricalError::NotSimplex)
    } else {
        Ok(())
    }
}

fn holds_zero(flags: &Vec<u8>) -> (result: bool)
    ensures
        result == flags@.contains(0),
{
    let mut i: usize = 0;
    while i < flags.len()
        invariant
            i <= flags@.len(),
            forall|j: int| 0 <= j < i ==> flags@[j] != 0,
        decreases flags@.len() - i,
    {
        if flags[i] == 0 {
            assert(flags@[i as int] == 0);
            return true;
        }
        i += 1;
    }
    false
}

/// Whether a value is one of the actions: a whole number below the number of events.
pub open spec fn supports<V: ActionNumber>(value: V, events: usize) -> bool {
    value.whole() && match value.index_spec() {
        Some(index) => index < events,
        None => false,
    }
}

/// Whether all values are actions.
pub open spec fn all_supported<V: ActionNumber>(values: Seq<V>, events: usize) -> bool {
    forall|i: int| 0 <= i < values.len() ==> supports(#[trigger] values[i], events)
}

/// Holds actions against the events of a distribution.
pub fn check_support<V: ActionNumber>(actions: &Vec<V>, events: usize) -> (result: Result<(), CategoricalError>)
    ensures
        result == if forall|i: int| 0 <= i < actions@.len() ==> supports(#[trigger] actions@[i], events) {
            Ok::<(), CategoricalError>(())
        } else {
            Err(CategoricalError::OutsideSupport)
        },
        result is Ok <==> all_supported(actions@, events),
{
    let mut i: usize = 0;
    while i < actions.len()
        invariant
            i <= actions@.len(),
            forall|j: int| 0 <= j < i ==> supports(#[trigger] actions@[j], events),
        decreases actions@.len() - i,
    {
        let inside = actions[i].is_whole() && match actions[i].index() {
            Some(index) => index < events,
            None => false,
        };
        if !inside {
            assert(!supports(actions@[i as int], events));
            return Err(CategoricalError::OutsideSupport);
        }
        i += 1;
    }
    Ok(())
}

/// How actions are taken.
#[derive(Clone, Copy, Debug, PartialEq, Eq, Structural)]
pub enum ActionChoice {
    /// The action of the greatest raw value.
    Greatest,
    /// A random action of the distribution.
    Sample,
}

/// How actions are taken: training always samples, and so does an evaluation that is not asked to
/// be deterministic.
pub fn action_choice(mode: TrainingPolicyMode, deterministic_eval: bool) -> (result: ActionChoice)
    ensures
        result == if deterministic_eval && mode == TrainingPolicyMode::Evaluation {
            ActionChoice::Greatest
        } else {
            ActionChoice::Sample
        },
{
    if deterministic_eval && mode == TrainingPolicyMode::Evaluation {
        ActionChoice::Greatest
    } else {
        ActionChoice::Sample
    }
}

/// The rows of flat probabilities, one for each draw: the place of each and the one behind it.
pub fn sample_rows(probabilities: usize, events: usize) -> (result: Result<Vec<(usize, usize)>, CategoricalError>)
    requires
        events == 0 || probabilities % events == 0,
    ensures
        if events == 0 {
            result == Err::<Vec<(usize, usize)>, CategoricalError>(CategoricalError::NoEvents)
        } else {
            result matches Ok(rows) && rows@.len() * events == probabilities && forall|i: int|
                0 <= i < rows@.len() ==> (#[trigger] rows@[i]).0 == i * events && rows@[i].1 == (i + 1) * events
        },
{
    if events == 0 {
        return Err(CategoricalError::NoEvents);
    }
    let mut rows: Vec<(usize, usize)> = Vec::new();
    let mut start: usize = 0;
    let ghost count = probabilities as int / events as int;
    proof {
        assert(probabilities as int == count * events as int) by (nonlinear_arith)
            requires
                count == probabilities as int / events as int,
                probabilities as int % events as int == 0,
                events > 0,
        ;
    }
    while start < probabilities
        invariant
            events > 0,
            start == rows@.len() * events,
            probabilities as int == count * events as int,
            rows@.len() <= count,
            start <= probabilities,
            forall|i: int|
                0 <= i < rows@.len() ==> (#[trigger] rows@[i]).0 == i * events && rows@[i].1 == (i + 1) * events,
        decreases probabilities - start,
    {
        proof {
            let done = rows@.len() as int;
            assert(done < count) by (nonlinear_arith)
                requires
                    done * events < count * events,
                    events > 0,
            ;
            assert((done + 1) * events <= count * events) by (nonlinear_arith)
                requires
                    done < count,
                    events > 0,
            ;
            assert((done + 1) * events == done * events + events) by (nonlinear_arith);
        }
        let end: usize = start + events;
        rows.push((start, end));
        start = end;
    }
    Ok(rows)
}

/// Whole numbers from zero to below the number of events are its actions, and one other value has all
/// of them refused.
pub proof fn actions_lie_below_the_events(actions: Vec<Ticks>, events: usize, result: Result<(), CategoricalError>)
    requires
        call_ensures(check_support::<Ticks>, (&actions, events), result),
    ensures
        result is Ok <==> forall|i: int|
            0 <= i < actions@.len() ==> (#[trigger] actions@[i]).0 is Some && 0 <= actions@[i].0->Some_0 < events,
{
    if result is Ok {
        assert forall|i: int| 0 <= i < actions@.len() implies (#[trigger] actions@[i]).0 is Some && 0
            <= actions@[i].0->Some_0 < events by {
            assert(all_supported(actions@, events));
            assert(supports(actions@[i], events));
        }
    } else {
        let i = choose|i: int| 0 <= i < actions@.len() && !supports(#[trigger] actions@[i], events);
        assert(!(actions@[i].0 is Some && 0 <= actions@[i].0->Some_0 < events));
    }
}

/// Rows of flat probabilities lie end to end from the first place to the last, each as long as there
/// are events.
pub proof fn rows_lie_end_to_end(
    probabilities: usize,
    events: usize,
    result: Result<Vec<(usize, usize)>, CategoricalError>,
    place: int,
)
    requires
        call_ensures(sample_rows, (probabilities, events), result),
        events > 0,
        probabilities % events == 0,
    ensures
        result is Ok,
        probabilities > 0 ==> result->Ok_0@.len() > 0 && result->Ok_0@[0].0 == 0 && result->Ok_0@.last().1 == probabilities,
        probabilities == 0 ==> result->Ok_0@.len() == 0,
        0 <= place < result->Ok_0@.len() ==> result->Ok_0@[place].1 - result->Ok_0@[place].0 == events,
        0 < place < result->Ok_0@.len() ==> result->Ok_0@[place].0 == result->Ok_0@[place - 1].1,
{
    let rows = result->Ok_0@;
    let (length, width) = (rows.len() as int, events as int);
    assert(0 * width == 0 && (place + 1) * width == place * width + width) by (nonlinear_arith);
    if length == 0 {
        assert(length * width == 0) by (nonlinear_arith)
            requires
                length == 0,
        ;
    } else {
        assert(length * width > 0) by (nonlinear_arith)
            requires
                length > 0,
                width > 0,
        ;
        assert(rows[length - 1].1 == (length - 1 + 1) * width);
        assert(rows[0].0 == 0 * width);
    }
    if 0 < place < length {
        assert(rows[place - 1].1 == (place - 1 + 1) * width);
        assert(rows[place].0 == place * width);
    }
}

/// Training always samples; an evaluation does unless it is to be deterministic.
pub proof fn training_always_samples(mode: TrainingPolicyMode, deterministic_eval: bool, result: ActionChoice)
    requires
        call_ensures(action_choice, (mode, deterministic_eval), result),
    ensures
        mode == TrainingPolicyMode::Train ==> result == ActionChoice::Sample,
        !deterministic_eval ==> result == ActionChoice::Sample,
        mode == TrainingPolicyMode::Evaluation && deterministic_eval ==> result == ActionChoice::Greatest,
{
}

/// One flag that is down refuses a distribution, and nothing else does.
pub proof fn one_flag_refuses(nonnegative: Vec<u8>, normalized: Vec<u8>, result: Result<(), CategoricalError>)
    requires
        call_ensures(check_simplex, (&nonnegative, &normalized), result),
    ensures
        result is Ok <==> (forall|i: int| 0 <= i < nonnegative@.len() ==> #[trigger] nonnegative@[i] != 0) && (forall|i: int|
            0 <= i < normalized@.len() ==> #[trigger] normalized@[i] != 0),
{
}

} // verus!
