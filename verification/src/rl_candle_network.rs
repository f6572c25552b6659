//! The parameters and shapes of recurrent features.
use crate::integer::decimal_digits;
use crate::text::{append_chars, decimal_chars, from_chars, to_chars};
use vstd::prelude::*;

verus! {

/// The type of a tensor's values.
#[derive(Clone, Copy, Debug, PartialEq, Eq, Structural)]
pub enum DType {
    U8,
    U32,
    I64,
    BF16,
    F16,
    F32,
    F64,
    /// A type that policies do not compute with.
    Other,
}

impl DType {
    /// Whether values of the type are rounded further than those they are computed with.
    pub open spec fn reduced_spec(self) -> bool {
        self == DType::F16 || self == DType::BF16
    }

    /// Whether values of the type have fractions.
    pub open spec fn float_spec(self) -> bool {
        self == DType::F16 || self == DType::BF16 || self == DType::F32 || self == DType::F64
    }

    pub fn is_reduced(self) -> (result: bool)
        ensures
            result == self.reduced_spec(),
    {
        self == DType::F16 || self == DType::BF16
    }

    pub fn is_float(self) -> (result: bool)
        ensures
            result == self.float_spec(),
    {
        self == DType::F16 || self == DType::BF16 || self == DType::F32 || self == DType::F64
    }

    /// The type that sums of values of this type are held in.
    pub fn accumulation(self) -> (result: DType)
        ensures
            result == if self.reduced_spec() {
                DType::F32
            } else {
                self
            },
    {
        if self.is_reduced() {
            DType::F32
        } else {
            self
        }
    }
}

#[derive(Clone, Copy, Debug, PartialEq, Eq, Structural)]
pub enum RecurrentKind {
    Rnn,
    Lstm,
    Gru,
}

#[derive(Clone, Copy, Debug, PartialEq, Eq, Structural)]
pub struct RecurrentConfig {
    pub data_dim: usize,
    pub hidden_dim: usize,
    pub output_dim: usize,
    pub kind: RecurrentKind,
    pub layers: usize,
}

impl RecurrentConfig {
    pub fn new(data_dim: usize) -> (result: Self)
        ensures
            result == (RecurrentConfig {
                data_dim,
                hidden_dim: 64,
                output_dim: 32,
                kind: RecurrentKind::Gru,
                layers: 1,
            }),
    {
        RecurrentConfig { data_dim, hidden_dim: 64, output_dim: 32, kind: RecurrentKind::Gru, layers: 1 }
    }
}

/// Why features cannot be built or computed.
#[derive(Clone, Copy, Debug, PartialEq, Eq, Structural)]
pub enum NetworkError {
    /// The width of the gates is not a number of the machine.
    GateOverflow,
    /// There are no hidden values or no layers.
    EmptyDimension,
    /// The width of the joined features is not a number of the machine.
    SourceOverflow,
    /// The input of a layer has no dimension.
    ScalarInput,
    /// The input of a layer does not fit its weights.
    InputMismatch,
    /// There is no step in a sequence.
    EmptySequence,
    /// There are more steps than an index can tell apart.
    LongSequence,
    /// There is not one index for each sequence.
    IndexCount,
    /// An index lies outside its sequence.
    IndexRange,
}

impl NetworkError {
    /// What is said of the failure.
    pub fn message(self) -> (result: &'static str)
        ensures
            result@ == match self {
                NetworkError::GateOverflow => "recurrent gate dimension overflow"@,
                NetworkError::EmptyDimension => "hidden_dim and layers must be positive"@,
                NetworkError::SourceOverflow => "source feature dimension overflow"@,
                NetworkError::ScalarInput => "linear input must have a dimension"@,
                NetworkError::InputMismatch => "linear input and weight shape/dtype mismatch"@,
                NetworkError::EmptySequence => "recurrent sequence must not be empty"@,
                NetworkError::LongSequence => "out of range integral type conversion attempted"@,
                NetworkError::IndexCount => "step indices must match batch size"@,
                NetworkError::IndexRange => "step index out of range"@,
            },
    {
        match self {
            NetworkError::GateOverflow => "recurrent gate dimension overflow",
            NetworkError::EmptyDimension => "hidden_dim and layers must be positive",
            NetworkError::SourceOverflow => "source feature dimension overflow",
            NetworkError::ScalarInput => "linear input must have a dimension",
            NetworkError::InputMismatch => "linear input and weight shape/dtype mismatch",
            NetworkError::EmptySequence => "recurrent sequence must not be empty",
            NetworkError::LongSequence => "out of range integral type conversion attempted",
            NetworkError::IndexCount => "step indices must match batch size",
            NetworkError::IndexRange => "step index out of range",
        }
    }
}

// ---- parameters -------------------------------------------------------------------------------

/// A parameter: its name, its shape, and the width by which its first values are bounded.
#[derive(Debug)]
pub struct ParameterSpec {
    pub name: String,
    pub shape: Vec<usize>,
    pub fan_in: usize,
}

/// A parameter.
pub type ParameterModel = (Seq<char>, Seq<usize>, usize);

impl View for ParameterSpec {
    type V = ParameterModel;

    open spec fn view(&self) -> ParameterModel {
        (self.name@, self.shape@, self.fan_in)
    }
}

/// Several parameters.
pub open spec fn parameter_models(list: Seq<ParameterSpec>) -> Seq<ParameterModel> {
    Seq::new(list.len(), |i: int| list[i]@)
}

/// How many gates a cell has.
pub open spec fn gates(kind: RecurrentKind) -> int {
    match kind {
        RecurrentKind::Rnn => 1,
        RecurrentKind::Lstm => 4,
        RecurrentKind::Gru => 3,
    }
}

/// The name of a parameter of a layer.
pub open spec fn layer_name(stack: Seq<char>, parameter: Seq<char>, layer: nat) -> Seq<char> {
    stack + "."@ + parameter + "_l"@ + decimal_digits(layer)
}

/// The parameters of one layer of a stack.
pub open spec fn layer_parameters(stack: Seq<char>, width: usize, hidden: usize, layer: nat) -> Seq<ParameterModel> {
    seq![
        (layer_name(stack, "weight_ih"@, layer), seq![width, hidden], hidden),
        (layer_name(stack, "weight_hh"@, layer), seq![width, hidden], hidden),
        (layer_name(stack, "bias_ih"@, layer), seq![width], hidden),
        (layer_name(stack, "bias_hh"@, layer), seq![width], hidden),
    ]
}

/// The parameters of the first layers of a stack.
pub open spec fn stack_parameters(stack: Seq<char>, width: usize, hidden: usize, layers: nat) -> Seq<ParameterModel>
    decreases layers,
{
    if layers == 0 {
        Seq::empty()
    } else {
        stack_parameters(stack, width, hidden, (layers - 1) as nat) + layer_parameters(
            stack,
            width,
            hidden,
            (layers - 1) as nat,
        )
    }
}

/// The parameters of a linear layer.
pub open spec fn linear_parameters(name: Seq<char>, input: usize, output: usize) -> Seq<ParameterModel> {
    seq![(name + ".weight"@, seq![output, input], input), (name + ".bias"@, seq![output], input)]
}

/// The parameters of recurrent features in the order in which they are registered. One of the
/// stacks takes no part in the computation.
pub open spec fn feature_parameters(config: RecurrentConfig) -> Seq<ParameterModel> {
    let width = (config.hidden_dim * gates(config.kind)) as usize;
    let hidden = config.hidden_dim;
    let layers = config.layers as nat;
    stack_parameters("raw_rnn"@, width, hidden, layers) + stack_parameters("prev_rnn"@, width, hidden, layers)
        + stack_parameters("pri_rnn"@, width, hidden, layers) + linear_parameters("raw_fc.0"@, config.data_dim, hidden)
        + linear_parameters("pri_fc.0"@, 2, hidden) + linear_parameters("dire_fc.0"@, 2, hidden) + linear_parameters(
        "dire_fc.2"@,
        hidden,
        hidden,
    ) + linear_parameters("fc.0"@, (3 * hidden) as usize, hidden) + linear_parameters(
        "fc.2"@,
        hidden,
        config.output_dim,
    )
}

/// Why features cannot be built.
pub open spec fn feature_failure(config: RecurrentConfig) -> Option<NetworkError> {
    if config.hidden_dim == 0 || config.layers == 0 {
        Some(NetworkError::EmptyDimension)
    } else if config.hidden_dim * 3 > usize::MAX {
        Some(NetworkError::SourceOverflow)
    } else if config.hidden_dim * gates(config.kind) > usize::MAX {
        Some(NetworkError::GateOverflow)
    } else {
        None
    }
}

fn add_parameter(list: &mut Vec<ParameterSpec>, name: Vec<char>, shape: Vec<usize>, fan_in: usize)
    ensures
        parameter_models(final(list)@) == parameter_models(old(list)@).push((name@, shape@, fan_in)),
{
    list.push(ParameterSpec { name: from_chars(name.as_slice()), shape, fan_in });
    assert(parameter_models(list@) =~= parameter_models(old(list)@).push((name@, shape@, fan_in)));
}

fn write_layer_name(stack: &str, parameter: &str, layer: usize) -> (result: Vec<char>)
    ensures
        result@ == layer_name(stack@, parameter@, layer as nat),
{
    let mut name = to_chars(stack);
    append_chars(&mut name, to_chars(".").as_slice());
    append_chars(&mut name, to_chars(parameter).as_slice());
    append_chars(&mut name, to_chars("_l").as_slice());
    append_chars(&mut name, decimal_chars(layer).as_slice());
    name
}

fn matrix(rows: usize, columns: usize) -> (result: Vec<usize>)
    ensures
        result@ == seq![rows, columns],
{
    let mut shape: Vec<usize> = Vec::new();
    shape.push(rows);
    shape.push(columns);
    assert(shape@ =~= seq![rows, columns]);
    shape
}

fn vector(length: usize) -> (result: Vec<usize>)
    ensures
        result@ == seq![length],
{
    let mut shape: Vec<usize> = Vec::new();
    shape.push(length);
    assert(shape@ =~= seq![length]);
    shape
}

fn add_stack(list: &mut Vec<ParameterSpec>, stack: &str, width: usize, hidden: usize, layers: usize)
    ensures
        parameter_models(final(list)@) == parameter_models(old(list)@) + stack_parameters(
            stack@,
            width,
            hidden,
            layers as nat,
        ),
{
    let ghost before = parameter_models(list@);
    let mut layer: usize = 0;
    assert(before + stack_parameters(stack@, width, hidden, 0) =~= before);
    while layer < layers
        invariant
            layer <= layers,
            parameter_models(list@) == before + stack_parameters(stack@, width, hidden, layer as nat),
        decreases layers - layer,
    {
        let ghost so_far = parameter_models(list@);
        add_parameter(list, write_layer_name(stack, "weight_ih", layer), matrix(width, hidden), hidden);
        add_parameter(list, write_layer_name(stack, "weight_hh", layer), matrix(width, hidden), hidden);
        add_parameter(list, write_layer_name(stack, "bias_ih", layer), vector(width), hidden);
        add_parameter(list, write_layer_name(stack, "bias_hh", layer), vector(width), hidden);
        proof {
            let added = layer_parameters(stack@, width, hidden, layer as nat);
            assert(parameter_models(list@) =~= so_far + added);
            assert(before + stack_parameters(stack@, width, hidden, layer as nat) + added =~= before + (
            stack_parameters(stack@, width, hidden, layer as nat) + added));
        }
        layer += 1;
    }
}

/// Adds the parameters of a linear layer.
pub fn add_linear(list: &mut Vec<ParameterSpec>, name: &str, input: usize, output: usize)
    ensures
        parameter_models(final(list)@) == parameter_models(old(list)@) + linear_parameters(name@, input, output),
{
    let ghost before = parameter_models(list@);
    let mut weight = to_chars(name);
    append_chars(&mut weight, to_chars(".weight").as_slice());
    add_parameter(list, weight, matrix(output, input), input);
    let mut bias = to_chars(name);
    append_chars(&mut bias, to_chars(".bias").as_slice());
    add_parameter(list, bias, vector(output), input);
    assert(parameter_models(list@) =~= before + linear_parameters(name@, input, output));
}

/// The parameters of recurrent features in the order in which they are registered.
pub fn plan_features(config: RecurrentConfig) -> (result: Result<Vec<ParameterSpec>, NetworkError>)
    ensures
        match feature_failure(config) {
            Some(error) => result == Err::<Vec<ParameterSpec>, NetworkError>(error),
            None => result matches Ok(list) && parameter_models(list@) == feature_parameters(config),
        },
{
    if config.hidden_dim == 0 || config.layers == 0 {
        return Err(NetworkError::EmptyDimension);
    }
    let hidden: usize = config.hidden_dim;
    let sources: usize = match hidden.checked_mul(3) {
        Some(sources) => sources,
        None => return Err(NetworkError::SourceOverflow),
    };
    let count: usize = match config.kind {
        RecurrentKind::Rnn => 1,
        RecurrentKind::Lstm => 4,
        RecurrentKind::Gru => 3,
    };
    let width: usize = match hidden.checked_mul(count) {
        Some(width) => width,
        None => return Err(NetworkError::GateOverflow),
    };
    let mut list: Vec<ParameterSpec> = Vec::new();
    assert(parameter_models(list@) =~= Seq::<ParameterModel>::empty());
    add_stack(&mut list, "raw_rnn", width, hidden, config.layers);
    let ghost raw = stack_parameters("raw_rnn"@, width, hidden, config.layers as nat);
    assert(Seq::<ParameterModel>::empty() + raw =~= raw);
    add_stack(&mut list, "prev_rnn", width, hidden, config.layers);
    add_stack(&mut list, "pri_rnn", width, hidden, config.layers);
    add_linear(&mut list, "raw_fc.0", config.data_dim, hidden);
    add_linear(&mut list, "pri_fc.0", 2, hidden);
    add_linear(&mut list, "dire_fc.0", 2, hidden);
    add_linear(&mut list, "dire_fc.2", hidden, hidden);
    add_linear(&mut list, "fc.0", sources, hidden);
    add_linear(&mut list, "fc.2", hidden, config.output_dim);
    Ok(list)
}

/// There are four parameters for each layer of the three stacks and two for each of the six linear
/// layers.
pub proof fn parameters_are_counted(config: RecurrentConfig)
    ensures
        feature_parameters(config).len() == 12 * config.layers + 12,
{
    let width = (config.hidden_dim * gates(config.kind)) as usize;
    stack_is_counted("raw_rnn"@, width, config.hidden_dim, config.layers as nat);
    stack_is_counted("prev_rnn"@, width, config.hidden_dim, config.layers as nat);
    stack_is_counted("pri_rnn"@, width, config.hidden_dim, config.layers as nat);
}

proof fn stack_is_counted(stack: Seq<char>, width: usize, hidden: usize, layers: nat)
    ensures
        stack_parameters(stack, width, hidden, layers).len() == 4 * layers,
    decreases layers,
{
    if layers > 0 {
        stack_is_counted(stack, width, hidden, (layers - 1) as nat);
    }
}

// ---- shapes -----------------------------------------------------------------------------------

/// The product of dimensions.
pub open spec fn extent(dims: Seq<usize>) -> nat
    decreases dims.len(),
{
    if dims.len() == 0 {
        1
    } else {
        extent(dims.drop_last()) * dims.last() as nat
    }
}

/// How a linear layer is computed.
#[derive(Clone, Copy, Debug, PartialEq, Eq, Structural)]
pub enum LinearPath {
    /// Without products: there are no rows, no inputs or no outputs.
    Empty,
    /// In a wider type, then rounded.
    Widened,
    Direct,
}

/// The computation of a linear layer: the rows of the flat input, and the shape of the output.
#[derive(Debug)]
pub struct LinearPlan {
    pub rows: usize,
    pub channels: usize,
    pub path: LinearPath,
    pub output: Vec<usize>,
}

/// Plans a linear layer on an input, whose leading dimensions are kept.
pub fn plan_linear(
    input: &Vec<usize>,
    input_type: DType,
    weight_inputs: usize,
    weight_outputs: usize,
    weight_type: DType,
) -> (result: Result<LinearPlan, NetworkError>)
    requires
        input@.len() > 0 ==> extent(input@.drop_last()) <= usize::MAX,
    ensures
        if input@.len() == 0 {
            result == Err::<LinearPlan, NetworkError>(NetworkError::ScalarInput)
        } else if input@.last() != weight_inputs || input_type != weight_type {
            result == Err::<LinearPlan, NetworkError>(NetworkError::InputMismatch)
        } else {
            result matches Ok(plan) && plan.rows == extent(input@.drop_last()) && plan.channels == weight_inputs
                && plan.output@ == input@.drop_last().push(weight_outputs) && plan.path == if plan.rows == 0
                || weight_inputs == 0 || weight_outputs == 0 {
                LinearPath::Empty
            } else if input_type.reduced_spec() {
                LinearPath::Widened
            } else {
                LinearPath::Direct
            }
        },
{
    let rank: usize = input.len();
    if rank == 0 {
        return Err(NetworkError::ScalarInput);
    }
    let channels: usize = input[rank - 1];
    if channels != weight_inputs || input_type != weight_type {
        return Err(NetworkError::InputMismatch);
    }
    let ghost leading = input@.drop_last();
    let mut zero = false;
    let mut output: Vec<usize> = Vec::new();
    let mut k: usize = 0;
    while k < rank - 1
        invariant
            k <= rank - 1,
            rank == input@.len(),
            rank > 0,
            leading == input@.drop_last(),
            output@ == leading.take(k as int),
            zero == exists|j: int| 0 <= j < k && leading[j] == 0,
        decreases rank - 1 - k,
    {
        if input[k] == 0 {
            zero = true;
            assert(leading[k as int] == 0);
        }
        output.push(input[k]);
        k += 1;
        assert(output@ =~= leading.take(k as int));
    }
    assert(output@ =~= leading);
    let rows: usize = if zero {
        proof {
            zero_extent(leading);
        }
        0
    } else {
        multiply(input, rank - 1)
    };
    output.push(weight_outputs);
    let path = if rows == 0 || channels == 0 || weight_outputs == 0 {
        LinearPath::Empty
    } else if input_type.is_reduced() {
        LinearPath::Widened
    } else {
        LinearPath::Direct
    };
    Ok(LinearPlan { rows, channels, path, output })
}

proof fn zero_extent(dims: Seq<usize>)
    requires
        exists|j: int| 0 <= j < dims.len() && dims[j] == 0,
    ensures
        extent(dims) == 0,
    decreases dims.len(),
{
    let j = choose|j: int| 0 <= j < dims.len() && dims[j] == 0;
    if j < dims.len() - 1 {
        assert(dims.drop_last()[j] == 0);
        zero_extent(dims.drop_last());
    }
    let shorter = extent(dims.drop_last());
    let last = dims.last() as nat;
    assert(shorter * last == 0) by (nonlinear_arith)
        requires
            shorter == 0 || last == 0,
    ;
}

/// Dimensions that are not zero have a product no smaller than that of the first of them.
proof fn extent_grows(dims: Seq<usize>, count: int)
    requires
        0 <= count <= dims.len(),
        forall|j: int| 0 <= j < dims.len() ==> (#[trigger] dims[j]) > 0,
    ensures
        extent(dims.take(count)) <= extent(dims),
    decreases dims.len() - count,
{
    if count < dims.len() {
        extent_grows(dims, count + 1);
        assert(dims.take(count + 1).drop_last() =~= dims.take(count));
        let shorter = extent(dims.take(count));
        let last = dims[count] as nat;
        assert(dims.take(count + 1).last() == dims[count]);
        assert(shorter <= shorter * last) by (nonlinear_arith)
            requires
                last >= 1,
        ;
    } else {
        assert(dims.take(count) =~= dims);
    }
}

fn multiply(dims: &Vec<usize>, count: usize) -> (result: usize)
    requires
        count <= dims@.len(),
        extent(dims@.take(count as int)) <= usize::MAX,
        forall|j: int| 0 <= j < count ==> dims@.take(count as int)[j] != 0,
    ensures
        result == extent(dims@.take(count as int)),
{
    let ghost all = dims@.take(count as int);
    let mut product: usize = 1;
    let mut k: usize = 0;
    while k < count
        invariant
            k <= count <= dims@.len(),
            all == dims@.take(count as int),
            extent(all) <= usize::MAX,
            forall|j: int| 0 <= j < count ==> all[j] != 0,
            product == extent(all.take(k as int)),
        decreases count - k,
    {
        proof {
            assert forall|j: int| 0 <= j < all.len() implies (#[trigger] all[j]) > 0 by {}
            extent_grows(all, k + 1);
            assert(all.take(k + 1).drop_last() =~= all.take(k as int));
            assert(all.take(k + 1).last() == dims@[k as int]);
        }
        product = product * dims[k];
        k += 1;
    }
    assert(all.take(k as int) =~= all);
    product
}

/// The step that an index stands for: a negative one counts from the end.
pub open spec fn counted_step(index: i64, length: int) -> int {
    if index < 0 {
        index + length
    } else {
        index as int
    }
}

/// Whether an index lies in a sequence.
pub open spec fn step_within(index: i64, length: int) -> bool {
    0 <= counted_step(index, length) < length
}

/// Whether all indices lie in a sequence.
pub open spec fn all_within(indices: Seq<i64>, length: int) -> bool {
    forall|i: int| 0 <= i < indices.len() ==> step_within(#[trigger] indices[i], length)
}

/// The steps that indices stand for, one for each sequence of a length.
pub fn normalize_steps(indices: &Vec<i64>, batch: usize, length: usize) -> (result: Result<Vec<i64>, NetworkError>)
    ensures
        if length > i64::MAX {
            result == Err::<Vec<i64>, NetworkError>(NetworkError::LongSequence)
        } else if indices@.len() != batch {
            result == Err::<Vec<i64>, NetworkError>(NetworkError::IndexCount)
        } else if forall|i: int| 0 <= i < indices@.len() ==> step_within(#[trigger] indices@[i], length as int) {
            result matches Ok(steps) && steps@ == Seq::new(
                indices@.len(),
                |i: int| counted_step(indices@[i], length as int) as i64,
            )
        } else {
            result == Err::<Vec<i64>, NetworkError>(NetworkError::IndexRange)
        },
        result is Ok <==> length <= i64::MAX && indices@.len() == batch && all_within(indices@, length as int),
{
    if length as u64 > i64::MAX as u64 {
        return Err(NetworkError::LongSequence);
    }
    if indices.len() != batch {
        return Err(NetworkError::IndexCount);
    }
    let limit: i64 = length as i64;
    let mut steps: Vec<i64> = Vec::new();
    let mut i: usize = 0;
    while i < indices.len()
        invariant
            i <= indices@.len(),
            limit == length,
            limit >= 0,
            indices@.len() == batch,
            length <= i64::MAX,
            steps@ == Seq::new(i as nat, |i: int| counted_step(indices@[i], length as int) as i64),
            forall|j: int| 0 <= j < i ==> step_within(#[trigger] indices@[j], length as int),
        decreases indices@.len() - i,
    {
        let step: i64 = if indices[i] < 0 {
            indices[i] + limit
        } else {
            indices[i]
        };
        if step < 0 || step >= limit {
            assert(!step_within(indices@[i as int], length as int));
            return Err(NetworkError::IndexRange);
        }
        steps.push(step);
        i += 1;
        assert(steps@ =~= Seq::new(i as nat, |i: int| counted_step(indices@[i], length as int) as i64));
    }
    Ok(steps)
}

/// Looks at the length of sequences before they are computed.
pub fn check_sequence(length: usize) -> (result: Result<(), NetworkError>)
    ensures
        result == if length == 0 {
            Err::<(), NetworkError>(NetworkError::EmptySequence)
        } else {
            Ok(())
        },
{
    if length == 0 {
        Err(NetworkError::EmptySequence)
    } else {
        Ok(())
    }
}

/// Steps lie in the sequence: an index from zero on is the step itself, a negative one counts back from
/// the end, and an index beyond either end is refused.
pub proof fn steps_lie_in_the_sequence(
    indices: Vec<i64>,
    batch: usize,
    length: usize,
    result: Result<Vec<i64>, NetworkError>,
    place: int,
)
    requires
        call_ensures(normalize_steps, (&indices, batch, length), result),
        0 <= place < indices@.len(),
    ensures
        indices@[place] >= length || indices@[place] < -length ==> result is Err,
        indices@.len() != batch ==> result is Err,
        result is Ok ==> result->Ok_0@.len() == batch && 0 <= result->Ok_0@[place] < length,
        result is Ok && indices@[place] >= 0 ==> result->Ok_0@[place] == indices@[place],
        result is Ok && indices@[place] < 0 ==> result->Ok_0@[place] - indices@[place] == length,
{
    if result is Ok {
        assert(all_within(indices@, length as int));
        assert(step_within(indices@[place], length as int));
    }
}

/// A linear layer works row by row: the rows and their width make up the whole input, and only the
/// width changes.
pub proof fn rows_make_up_the_input(
    input: Vec<usize>,
    input_type: DType,
    weight_inputs: usize,
    weight_outputs: usize,
    weight_type: DType,
    result: Result<LinearPlan, NetworkError>,
)
    requires
        call_ensures(plan_linear, (&input, input_type, weight_inputs, weight_outputs, weight_type), result),
        input@.len() > 0,
        extent(input@.drop_last()) <= usize::MAX,
        result is Ok,
    ensures
        input_type == weight_type,
        result->Ok_0.rows * result->Ok_0.channels == extent(input@),
        result->Ok_0.rows * weight_outputs == extent(result->Ok_0.output@),
        result->Ok_0.output@.len() == input@.len(),
        result->Ok_0.path == LinearPath::Empty <==> extent(input@) == 0 || weight_outputs == 0,
        result->Ok_0.path == LinearPath::Widened ==> input_type == DType::F16 || input_type == DType::BF16,
        result->Ok_0.path == LinearPath::Direct ==> input_type != DType::F16 && input_type != DType::BF16,
{
    let plan = result->Ok_0;
    assert(plan.output@.drop_last() =~= input@.drop_last());
    let (rows, width) = (plan.rows as int, weight_inputs as int);
    assert(rows == 0 || width == 0 <==> rows * width == 0) by (nonlinear_arith);
}

/// The first weights of a stack stand for its gates: one for a plain cell, three for a gated one and
/// four for one with a long memory, each as wide as the hidden state.
pub proof fn gates_widen_the_weights(config: RecurrentConfig, result: Result<Vec<ParameterSpec>, NetworkError>)
    requires
        call_ensures(plan_features, (config,), result),
        result is Ok,
    ensures
        config.hidden_dim > 0 && config.layers > 0,
        result->Ok_0@.len() == 12 * config.layers + 12,
        result->Ok_0@[0].shape@.len() == 2 && result->Ok_0@[0].shape@[1] == config.hidden_dim,
        config.kind == RecurrentKind::Rnn ==> result->Ok_0@[0].shape@[0] == config.hidden_dim,
        config.kind == RecurrentKind::Gru ==> result->Ok_0@[0].shape@[0] == 3 * config.hidden_dim,
        config.kind == RecurrentKind::Lstm ==> result->Ok_0@[0].shape@[0] == 4 * config.hidden_dim,
{
    parameters_are_counted(config);
    let models = parameter_models(result->Ok_0@);
    let width = (config.hidden_dim * gates(config.kind)) as usize;
    assert(models.len() == result->Ok_0@.len());
    assert(models[0] == result->Ok_0@[0]@);
    stack_is_counted("raw_rnn"@, width, config.hidden_dim, config.layers as nat);
    first_layers_come_first("raw_rnn"@, width, config.hidden_dim, config.layers as nat);
}

proof fn first_layers_come_first(stack: Seq<char>, width: usize, hidden: usize, layers: nat)
    requires
        layers > 0,
    ensures
        stack_parameters(stack, width, hidden, layers).len() == 4 * layers,
        stack_parameters(stack, width, hidden, layers)[0].1 == seq![width, hidden],
    decreases layers,
{
    stack_is_counted(stack, width, hidden, layers);
    stack_is_counted(stack, width, hidden, (layers - 1) as nat);
    if layers > 1 {
        first_layers_come_first(stack, width, hidden, (layers - 1) as nat);
    }
}

} // verus!
