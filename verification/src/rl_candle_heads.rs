//! Shapes and parameters of the heads over recurrent features.
use crate::ordered::{value_of, with_entries, with_entries_push, OrderedMap};
use crate::rl_candle_network::DType;
use crate::text::{append_chars, from_chars, to_chars};
use vstd::prelude::*;

verus! {

/// Why attention cannot be computed, or a head not be copied.
#[derive(Clone, Copy, Debug, PartialEq, Eq, Structural)]
pub enum HeadError {
    IncompatibleDimensions,
    TypeMismatch,
    /// A rebuilt extractor does not hold the parameters it was given.
    ParametersNotRetained,
}

impl HeadError {
    /// What is said of the failure.
    pub fn message(self) -> (result: &'static str)
        ensures
            result@ == match self {
                HeadError::IncompatibleDimensions => "incompatible attention einsum dimensions"@,
                HeadError::TypeMismatch => "attention tensor dtype mismatch"@,
                HeadError::ParametersNotRetained => "rebuilt feature extractor did not retain copied parameters"@,
            },
    {
        match self {
            HeadError::IncompatibleDimensions => "incompatible attention einsum dimensions",
            HeadError::TypeMismatch => "attention tensor dtype mismatch",
            HeadError::ParametersNotRetained => "rebuilt feature extractor did not retain copied parameters",
        }
    }
}

/// The common extent of two dimensions: they are equal, or one of them is one.
pub open spec fn common_extent(left: usize, right: usize) -> Option<usize> {
    if left == right || right == 1 {
        Some(left)
    } else if left == 1 {
        Some(right)
    } else {
        None
    }
}

/// The common extent of two dimensions.
pub fn broadcast_extent(left: usize, right: usize) -> (result: Result<usize, HeadError>)
    ensures
        match common_extent(left, right) {
            Some(extent) => result == Ok::<usize, HeadError>(extent),
            None => result == Err::<usize, HeadError>(HeadError::IncompatibleDimensions),
        },
{
    if left == right || right == 1 {
        Ok(left)
    } else if left == 1 {
        Ok(right)
    } else {
        Err(HeadError::IncompatibleDimensions)
    }
}

/// Which of two dimensions comes first does not matter to their common extent.
pub proof fn common_extent_is_symmetric(left: usize, right: usize)
    ensures
        common_extent(left, right) == common_extent(right, left),
{
}

/// How a product of two stacks of matrices is computed.
#[derive(Clone, Copy, Debug, PartialEq, Eq, Structural)]
pub enum ContractPath {
    /// Without products: a dimension is zero.
    Empty,
    /// In a wider type, then rounded.
    Widened,
    Direct,
}

/// A product of two stacks of matrices.
#[derive(Clone, Copy, Debug, PartialEq, Eq, Structural)]
pub struct ContractPlan {
    pub batch: usize,
    pub rows: usize,
    pub inner: usize,
    pub columns: usize,
    pub path: ContractPath,
}

/// Plans the product of two stacks of matrices, given by their three dimensions.
pub fn plan_contract(
    left: (usize, usize, usize),
    left_type: DType,
    right: (usize, usize, usize),
    right_type: DType,
) -> (result: Result<ContractPlan, HeadError>)
    ensures
        match (common_extent(left.0, right.0), common_extent(left.2, right.1)) {
            (Some(batch), Some(inner)) => if left_type != right_type {
                result == Err::<ContractPlan, HeadError>(HeadError::TypeMismatch)
            } else {
                result == Ok::<ContractPlan, HeadError>(
                    ContractPlan {
                        batch,
                        rows: left.1,
                        inner,
                        columns: right.2,
                        path: if batch == 0 || left.1 == 0 || inner == 0 || right.2 == 0 {
                            ContractPath::Empty
                        } else if left_type.reduced_spec() {
                            ContractPath::Widened
                        } else {
                            ContractPath::Direct
                        },
                    },
                )
            },
            _ => result == Err::<ContractPlan, HeadError>(HeadError::IncompatibleDimensions),
        },
{
    let batch: usize = match broadcast_extent(left.0, right.0) {
        Ok(batch) => batch,
        Err(error) => return Err(error),
    };
    let inner: usize = match broadcast_extent(left.2, right.1) {
        Ok(inner) => inner,
        Err(error) => return Err(error),
    };
    if left_type != right_type {
        return Err(HeadError::TypeMismatch);
    }
    let path = if batch == 0 || left.1 == 0 || inner == 0 || right.2 == 0 {
        ContractPath::Empty
    } else if left_type.is_reduced() {
        ContractPath::Widened
    } else {
        ContractPath::Direct
    };
    Ok(ContractPlan { batch, rows: left.1, inner, columns: right.2, path })
}

/// A name behind that of a component.
pub open spec fn component_name(component: Seq<char>, name: Seq<char>) -> Seq<char> {
    component + "."@ + name
}

/// Entries under the names of a component.
pub open spec fn component_entries<T>(component: Seq<char>, entries: Seq<(Seq<char>, T)>) -> Seq<(Seq<char>, T)> {
    entries.map_values(|entry: (Seq<char>, T)| (component_name(component, entry.0), entry.1))
}

fn write_component_name(component: &str, name: &str) -> (result: String)
    ensures
        result@ == component_name(component@, name@),
{
    let mut text = to_chars(component);
    append_chars(&mut text, to_chars(".").as_slice());
    append_chars(&mut text, to_chars(name).as_slice());
    from_chars(text.as_slice())
}

/// Registers the parameters of a component under its name.
pub fn register_component<T: Copy>(target: &mut OrderedMap<T>, component: &str, parameters: &OrderedMap<T>)
    ensures
        final(target)@ == with_entries(old(target)@, component_entries(component@, parameters@)),
{
    let ghost before = target@;
    let ghost named = component_entries(component@, parameters@);
    let length: usize = parameters.len();
    let mut i: usize = 0;
    assert(named.take(0) =~= Seq::empty());
    while i < length
        invariant
            i <= length,
            length == parameters@.len(),
            named == component_entries(component@, parameters@),
            target@ == with_entries(before, named.take(i as int)),
        decreases length - i,
    {
        let name = write_component_name(component, parameters.name_at(i).as_str());
        let value: T = *parameters.value_at(i);
        proof {
            with_entries_push(before, named.take(i as int), name@, value);
            assert(named.take(i + 1) =~= named.take(i as int).push((name@, value)));
        }
        target.insert(name, value);
        i += 1;
    }
    assert(named.take(i as int) =~= named);
}

/// The parameters of a head: those of its extractor under the name of the extractor, then its own.
pub fn all_parameters<T: Copy>(extractor: &OrderedMap<T>, head: &OrderedMap<T>) -> (result: OrderedMap<T>)
    ensures
        result@ == with_entries(
            with_entries(Seq::empty(), component_entries("extractor"@, extractor@)),
            head@,
        ),
{
    let mut parameters: OrderedMap<T> = OrderedMap::new();
    register_component(&mut parameters, "extractor", extractor);
    let ghost before = parameters@;
    let length: usize = head.len();
    let mut i: usize = 0;
    assert(head@.take(0) =~= Seq::empty());
    while i < length
        invariant
            i <= length,
            length == head@.len(),
            parameters@ == with_entries(before, head@.take(i as int)),
        decreases length - i,
    {
        let name = head.name_at(i).clone();
        let value: T = *head.value_at(i);
        proof {
            with_entries_push(before, head@.take(i as int), name@, value);
            assert(head@.take(i + 1) =~= head@.take(i as int).push((name@, value)));
        }
        parameters.insert(name, value);
        i += 1;
    }
    assert(head@.take(i as int) =~= head@);
    parameters
}

/// The name of a parameter of the extractor, without the name of the extractor.
pub fn extractor_name(name: &str) -> (result: Option<String>)
    ensures
        match result {
            Some(rest) => name@ == "extractor."@ + rest@,
            None => !("extractor."@).is_prefix_of(name@),
        },
{
    let chars = to_chars(name);
    let prefix = to_chars("extractor.");
    if chars.len() < prefix.len() {
        return None;
    }
    let mut i: usize = 0;
    while i < prefix.len()
        invariant
            i <= prefix@.len() <= chars@.len(),
            chars@ == name@,
            prefix@ == "extractor."@,
            forall|j: int| 0 <= j < i ==> chars@[j] == prefix@[j],
        decreases prefix@.len() - i,
    {
        if chars[i] != prefix[i] {
            assert(chars@.take(prefix@.len() as int)[i as int] == chars@[i as int]);
            return None;
        }
        i += 1;
    }
    let rest = crate::text::sub_chars(chars.as_slice(), prefix.len(), chars.len());
    let text = from_chars(rest.as_slice());
    assert(name@ =~= "extractor."@ + text@);
    Some(text)
}

/// Whether a rebuilt head holds exactly the parameters it was given, by identity.
pub open spec fn retains(rebuilt: Seq<(Seq<char>, u64)>, given: Seq<(Seq<char>, u64)>) -> bool {
    rebuilt.len() == given.len() && forall|i: int|
        0 <= i < rebuilt.len() ==> value_of(given, (#[trigger] rebuilt[i]).0) == Some(rebuilt[i].1)
}

/// Holds a rebuilt head against the parameters it was given.
pub fn check_rebuilt(rebuilt: &OrderedMap<u64>, given: &OrderedMap<u64>) -> (result: Result<(), HeadError>)
    ensures
        result == if retains(rebuilt@, given@) {
            Ok::<(), HeadError>(())
        } else {
            Err(HeadError::ParametersNotRetained)
        },
{
    let length: usize = rebuilt.len();
    if length != given.len() {
        return Err(HeadError::ParametersNotRetained);
    }
    let mut i: usize = 0;
    while i < length
        invariant
            i <= length,
            length == rebuilt@.len(),
            length == given@.len(),
            forall|j: int| 0 <= j < i ==> value_of(given@, (#[trigger] rebuilt@[j]).0) == Some(rebuilt@[j].1),
        decreases length - i,
    {
        let held = match given.get(rebuilt.name_at(i).as_str()) {
            Some(id) => *id == *rebuilt.value_at(i),
            None => false,
        };
        if !held {
            assert(value_of(given@, rebuilt@[i as int].0) != Some(rebuilt@[i as int].1));
            return Err(HeadError::ParametersNotRetained);
        }
        i += 1;
    }
    Ok(())
}

/// Two dimensions have a common extent where they are the same or one of them is one: then it is the
/// other one.
pub proof fn ones_are_stretched(left: usize, right: usize, result: Result<usize, HeadError>)
    requires
        call_ensures(broadcast_extent, (left, right), result),
    ensures
        left == right ==> result == Ok::<usize, HeadError>(left),
        left == 1 ==> result == Ok::<usize, HeadError>(right),
        right == 1 ==> result == Ok::<usize, HeadError>(left),
        left != right && left != 1 && right != 1 ==> result == Err::<usize, HeadError>(HeadError::IncompatibleDimensions),
{
}

/// A contraction keeps the rows of its first and the columns of its second factor; what lies between
/// is of a common extent, and so are the batches.
pub proof fn contractions_keep_rows_and_columns(
    left: (usize, usize, usize),
    left_type: DType,
    right: (usize, usize, usize),
    right_type: DType,
    result: Result<ContractPlan, HeadError>,
    batch: Result<usize, HeadError>,
    inner: Result<usize, HeadError>,
)
    requires
        call_ensures(plan_contract, (left, left_type, right, right_type), result),
        call_ensures(broadcast_extent, (left.0, right.0), batch),
        call_ensures(broadcast_extent, (left.2, right.1), inner),
    ensures
        result is Ok <==> batch is Ok && inner is Ok && left_type == right_type,
        result is Ok ==> ({
            let plan = result->Ok_0;
            &&& plan.rows == left.1 && plan.columns == right.2
            &&& batch == Ok::<usize, HeadError>(plan.batch) && inner == Ok::<usize, HeadError>(plan.inner)
            &&& plan.path == ContractPath::Empty <==> plan.batch == 0 || plan.rows == 0 || plan.inner == 0 || plan.columns
                == 0
            &&& plan.path == ContractPath::Widened ==> left_type == DType::F16 || left_type == DType::BF16
            &&& plan.path == ContractPath::Direct ==> left_type != DType::F16 && left_type != DType::BF16
        }),
{
}

} // verus!
