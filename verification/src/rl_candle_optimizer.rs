//! Which parameters an optimizer updates, and when it begins with each.
use crate::number::{Number, Ticks};
use crate::rl_candle_network::DType;
use crate::rl_candle_ppo::TensorForm;
use crate::trade_report::first_seen;
use vstd::prelude::*;

verus! {

/// Why an optimizer refuses.
#[derive(Clone, Copy, Debug, PartialEq, Eq, Structural)]
pub enum OptimizerError {
    LearningRate,
    WeightDecay,
    NoParameters,
    /// A parameter is no live variable of a floating-point type.
    NotLiveFloat,
    /// A gradient does not fit its parameter.
    GradientMismatch,
}

impl OptimizerError {
    /// What is said of the failure.
    pub fn message(self) -> (result: &'static str)
        ensures
            result@ == match self {
                OptimizerError::LearningRate => "invalid learning rate"@,
                OptimizerError::WeightDecay => "invalid weight decay"@,
                OptimizerError::NoParameters => "optimizer requires parameters"@,
                OptimizerError::NotLiveFloat => "Adam requires live floating-point variables"@,
                OptimizerError::GradientMismatch => "gradient shape, dtype or device does not match parameter"@,
            },
    {
        match self {
            OptimizerError::LearningRate => "invalid learning rate",
            OptimizerError::WeightDecay => "invalid weight decay",
            OptimizerError::NoParameters => "optimizer requires parameters",
            OptimizerError::NotLiveFloat => "Adam requires live floating-point variables",
            OptimizerError::GradientMismatch => "gradient shape, dtype or device does not match parameter",
        }
    }
}

/// A parameter that is offered to an optimizer.
#[derive(Clone, Copy, Debug, PartialEq, Eq, Structural)]
pub struct OfferedParameter {
    pub id: u64,
    pub live: bool,
    pub dtype: DType,
}

impl OfferedParameter {
    pub open spec fn accepted(self) -> bool {
        self.live && self.dtype.float_spec()
    }
}

/// Whether a rate is one: not negative and not missing.
pub open spec fn is_rate<V: Number>(value: V) -> bool {
    !value.below_spec(V::zero_spec()) && !value.missing()
}

fn accepts_rate<V: Number>(value: V) -> (result: bool)
    ensures
        result == is_rate(value),
{
    !value.below(V::zero()) && !value.is_missing()
}

/// The identities of parameters.
pub open spec fn ids_of(parameters: Seq<OfferedParameter>) -> Seq<u64> {
    parameters.map_values(|parameter: OfferedParameter| parameter.id)
}

/// The positions of the parameters that no earlier one has the identity of.
pub open spec fn fresh_positions(parameters: Seq<OfferedParameter>) -> Seq<usize>
    decreases parameters.len(),
{
    if parameters.len() == 0 {
        Seq::empty()
    } else {
        let earlier = fresh_positions(parameters.drop_last());
        if ids_of(parameters.drop_last()).contains(parameters.last().id) {
            earlier
        } else {
            earlier.push((parameters.len() - 1) as usize)
        }
    }
}

/// An optimizer over parameters: where each of them stands among those that were offered, and
/// whether it was begun with.
#[derive(Debug)]
pub struct CandleAdam<V> {
    pub positions: Vec<usize>,
    pub begun: Vec<bool>,
    pub learning_rate: V,
    pub weight_decay: V,
}

fn occurs_before(parameters: &Vec<OfferedParameter>, place: usize) -> (result: bool)
    requires
        place < parameters@.len(),
    ensures
        result == ids_of(parameters@.take(place as int)).contains(parameters@[place as int].id),
{
    let ghost ids = ids_of(parameters@.take(place as int));
    let mut j: usize = 0;
    while j < place
        invariant
            j <= place < parameters@.len(),
            ids == ids_of(parameters@.take(place as int)),
            forall|k: int| 0 <= k < j ==> (#[trigger] ids[k]) != parameters@[place as int].id,
        decreases place - j,
    {
        if parameters[j].id == parameters[place].id {
            assert(ids[j as int] == parameters@[place as int].id);
            return true;
        }
        j += 1;
    }
    false
}

/// How many of some flags hold.
pub open spec fn held(flags: Seq<bool>) -> nat
    decreases flags.len(),
{
    if flags.len() == 0 {
        0
    } else {
        held(flags.drop_last()) + if flags.last() {
            1nat
        } else {
            0nat
        }
    }
}

/// What an optimizer does about a parameter with a gradient.
#[derive(Clone, Copy, Debug, PartialEq, Eq, Structural)]
pub struct AdamStep {
    pub position: usize,
    /// The optimizer begins with the parameter.
    pub begins: bool,
    /// The parameter has values to update.
    pub updates: bool,
}

/// A parameter at the time of a step: how many values it has, and whether it has a gradient.
#[derive(Clone, Copy, Debug, PartialEq, Eq, Structural)]
pub struct StepInput {
    pub values: usize,
    pub has_gradient: bool,
}

/// What a step does, up to a place.
pub open spec fn steps_of(positions: Seq<usize>, begun: Seq<bool>, inputs: Seq<StepInput>, count: nat) -> Seq<AdamStep>
    decreases count,
{
    if count == 0 {
        Seq::empty()
    } else {
        let earlier = steps_of(positions, begun, inputs, (count - 1) as nat);
        if inputs[count - 1].has_gradient {
            earlier.push(
                AdamStep {
                    position: positions[count - 1],
                    begins: !begun[count - 1],
                    updates: inputs[count - 1].values != 0,
                },
            )
        } else {
            earlier
        }
    }
}

impl<V: Number> CandleAdam<V> {
    /// There is one mark for each parameter.
    pub open spec fn wf(&self) -> bool {
        self.begun@.len() == self.positions@.len()
    }

    /// Takes live parameters of floating-point types, each once, in the order in which they first
    /// come up.
    pub fn new(parameters: &Vec<OfferedParameter>, learning_rate: V, weight_decay: V) -> (result: Result<
        Self,
        OptimizerError,
    >)
        ensures
            if !is_rate(learning_rate) {
                result == Err::<Self, OptimizerError>(OptimizerError::LearningRate)
            } else if !is_rate(weight_decay) {
                result == Err::<Self, OptimizerError>(OptimizerError::WeightDecay)
            } else if parameters@.len() == 0 {
                result == Err::<Self, OptimizerError>(OptimizerError::NoParameters)
            } else if exists|i: int| 0 <= i < parameters@.len() && !(#[trigger] parameters@[i]).accepted() {
                result == Err::<Self, OptimizerError>(OptimizerError::NotLiveFloat)
            } else {
                result matches Ok(optimizer) && optimizer.wf() && optimizer.positions@ == fresh_positions(parameters@)
                    && optimizer.begun@ == Seq::new(fresh_positions(parameters@).len(), |i: int| false)
                    && optimizer.learning_rate == learning_rate && optimizer.weight_decay == weight_decay
            },
    {
        if !accepts_rate(learning_rate) {
            return Err(OptimizerError::LearningRate);
        }
        if !accepts_rate(weight_decay) {
            return Err(OptimizerError::WeightDecay);
        }
        if parameters.len() == 0 {
            return Err(OptimizerError::NoParameters);
        }
        let mut positions: Vec<usize> = Vec::new();
        let mut begun: Vec<bool> = Vec::new();
        let mut i: usize = 0;
        assert(parameters@.take(0) =~= Seq::empty());
        while i < parameters.len()
            invariant
                i <= parameters@.len(),
                forall|j: int| 0 <= j < i ==> (#[trigger] parameters@[j]).accepted(),
                positions@ == fresh_positions(parameters@.take(i as int)),
                begun@ == Seq::new(positions@.len(), |i: int| false),
                is_rate(learning_rate),
                is_rate(weight_decay),
                parameters@.len() > 0,
            decreases parameters@.len() - i,
        {
            proof {
                assert(parameters@.take(i + 1).drop_last() =~= parameters@.take(i as int));
                assert(parameters@.take(i + 1).last() == parameters@[i as int]);
            }
            if !parameters[i].live || !parameters[i].dtype.is_float() {
                assert(!parameters@[i as int].accepted());
                return Err(OptimizerError::NotLiveFloat);
            }
            if !occurs_before(parameters, i) {
                positions.push(i);
                begun.push(false);
                assert(begun@ =~= Seq::new(positions@.len(), |i: int| false));
            }
            i += 1;
        }
        assert(parameters@.take(i as int) =~= parameters@);
        Ok(CandleAdam { positions, begun, learning_rate, weight_decay })
    }

    /// With how many parameters the optimizer has begun.
    pub fn initialized_parameter_count(&self) -> (result: usize)
        ensures
            result == held(self.begun@),
    {
        let mut count: usize = 0;
        let mut i: usize = 0;
        assert(self.begun@.take(0) =~= Seq::empty());
        while i < self.begun.len()
            invariant
                i <= self.begun@.len(),
                count <= i,
                count == held(self.begun@.take(i as int)),
            decreases self.begun@.len() - i,
        {
            proof {
                assert(self.begun@.take(i + 1).drop_last() =~= self.begun@.take(i as int));
                assert(self.begun@.take(i + 1).last() == self.begun@[i as int]);
            }
            if self.begun[i] {
                count += 1;
            }
            i += 1;
        }
        assert(self.begun@.take(i as int) =~= self.begun@);
        count
    }

    /// Whether weights decay.
    pub fn decays(&self) -> (result: bool)
        ensures
            result == !self.weight_decay.equals_spec(V::zero_spec()),
    {
        !self.weight_decay.equals(V::zero())
    }

    /// Takes another rate, for the parameters begun with and the others alike.
    pub fn set_learning_rate(&mut self, learning_rate: V) -> (result: Result<(), OptimizerError>)
        ensures
            final(self).positions@ == old(self).positions@,
            final(self).begun@ == old(self).begun@,
            final(self).weight_decay == old(self).weight_decay,
            if is_rate(learning_rate) {
                result is Ok && final(self).learning_rate == learning_rate
            } else {
                result == Err::<(), OptimizerError>(OptimizerError::LearningRate) && final(self).learning_rate
                    == old(self).learning_rate
            },
    {
        if !accepts_rate(learning_rate) {
            return Err(OptimizerError::LearningRate);
        }
        self.learning_rate = learning_rate;
        Ok(())
    }

    /// What a step does, once its gradients fit: it begins with parameters that have a gradient for
    /// the first time, and leaves those without one alone.
    pub fn step(&mut self, inputs: &Vec<StepInput>) -> (result: Vec<AdamStep>)
        requires
            old(self).wf(),
            inputs@.len() == old(self).positions@.len(),
        ensures
            final(self).wf(),
            final(self).positions@ == old(self).positions@,
            final(self).learning_rate == old(self).learning_rate,
            final(self).weight_decay == old(self).weight_decay,
            result@ == steps_of(old(self).positions@, old(self).begun@, inputs@, inputs@.len()),
            final(self).begun@ == Seq::new(
                old(self).begun@.len(),
                |i: int| old(self).begun@[i] || inputs@[i].has_gradient,
            ),
    {
        let ghost before = self.begun@;
        let mut steps: Vec<AdamStep> = Vec::new();
        let mut i: usize = 0;
        while i < inputs.len()
            invariant
                i <= inputs@.len(),
                inputs@.len() == self.positions@.len(),
                self.positions@ == old(self).positions@,
                self.learning_rate == old(self).learning_rate,
                self.weight_decay == old(self).weight_decay,
                before == old(self).begun@,
                before.len() == inputs@.len(),
                self.begun@.len() == before.len(),
                forall|j: int| i <= j < before.len() ==> #[trigger] self.begun@[j] == before[j],
                forall|j: int| 0 <= j < i ==> #[trigger] self.begun@[j] == (before[j] || inputs@[j].has_gradient),
                steps@ == steps_of(self.positions@, before, inputs@, i as nat),
            decreases inputs@.len() - i,
        {
            if inputs[i].has_gradient {
                steps.push(
                    AdamStep {
                        position: self.positions[i],
                        begins: !self.begun[i],
                        updates: inputs[i].values != 0,
                    },
                );
                self.begun.set(i, true);
            }
            assert(self.begun@[i as int] == (before[i as int] || inputs@[i as int].has_gradient));
            i += 1;
        }
        assert(self.begun@ =~= Seq::new(before.len(), |i: int| before[i] || inputs@[i].has_gradient));
        steps
    }
}

/// The type that the norms of gradients of two types are added in.
pub open spec fn joined_type(left: DType, right: DType) -> DType {
    if left == DType::F64 || right == DType::F64 {
        DType::F64
    } else if left == right {
        left
    } else {
        DType::F32
    }
}

/// The type that the norms of gradients are added in.
pub open spec fn norm_type(types: Seq<DType>) -> DType
    decreases types.len(),
{
    if types.len() <= 1 {
        types[0]
    } else {
        joined_type(norm_type(types.drop_last()), types.last())
    }
}

/// The type that the norms of gradients are added in; none without gradients.
pub fn gradient_norm_type(types: &Vec<DType>) -> (result: Option<DType>)
    ensures
        result == if types@.len() == 0 {
            None
        } else {
            Some(norm_type(types@))
        },
{
    if types.len() == 0 {
        return None;
    }
    let mut joined: DType = types[0];
    let mut i: usize = 1;
    assert(types@.take(1)[0] == types@[0]);
    while i < types.len()
        invariant
            1 <= i <= types@.len(),
            joined == norm_type(types@.take(i as int)),
        decreases types@.len() - i,
    {
        proof {
            assert(types@.take(i + 1).drop_last() =~= types@.take(i as int));
            assert(types@.take(i + 1).last() == types@[i as int]);
        }
        joined = if joined == DType::F64 || types[i] == DType::F64 {
            DType::F64
        } else if joined == types[i] {
            joined
        } else {
            DType::F32
        };
        i += 1;
    }
    assert(types@.take(i as int) =~= types@);
    Some(joined)
}

/// Whether a gradient has the form of its parameter.
pub open spec fn fits_parameter(gradient: TensorForm, parameter: TensorForm) -> bool {
    gradient.dims@ == parameter.dims@ && gradient.dtype == parameter.dtype && gradient.device == parameter.device
}

fn same_dims(left: &Vec<usize>, right: &Vec<usize>) -> (result: bool)
    ensures
        result == (left@ == right@),
{
    if left.len() != right.len() {
        return false;
    }
    let mut i: usize = 0;
    while i < left.len()
        invariant
            i <= left@.len(),
            left@.len() == right@.len(),
            forall|j: int| 0 <= j < i ==> left@[j] == right@[j],
        decreases left@.len() - i,
    {
        if left[i] != right[i] {
            return false;
        }
        i += 1;
    }
    assert(left@ =~= right@);
    true
}

/// Whether all gradients have the forms of their parameters.
pub open spec fn all_fit(parameters: Seq<TensorForm>, gradients: Seq<Option<TensorForm>>) -> bool {
    forall|i: int|
        0 <= i < gradients.len() && (#[trigger] gradients[i]) is Some ==> fits_parameter(
            gradients[i]->Some_0,
            parameters[i],
        )
}

/// Holds all gradients against their parameters before any of them is used.
pub fn validate_gradients(parameters: &Vec<TensorForm>, gradients: &Vec<Option<TensorForm>>) -> (result: Result<
    (),
    OptimizerError,
>)
    requires
        parameters@.len() == gradients@.len(),
    ensures
        result == if forall|i: int|
            0 <= i < gradients@.len() && (#[trigger] gradients@[i]) is Some ==> fits_parameter(
                gradients@[i]->Some_0,
                parameters@[i],
            ) {
            Ok::<(), OptimizerError>(())
        } else {
            Err(OptimizerError::GradientMismatch)
        },
        result is Ok <==> all_fit(parameters@, gradients@),
{
    let mut i: usize = 0;
    while i < gradients.len()
        invariant
            i <= gradients@.len(),
            parameters@.len() == gradients@.len(),
            forall|j: int|
                0 <= j < i && (#[trigger] gradients@[j]) is Some ==> fits_parameter(
                    gradients@[j]->Some_0,
                    parameters@[j],
                ),
        decreases gradients@.len() - i,
    {
        match &gradients[i] {
            Some(gradient) => {
                let parameter = &parameters[i];
                if !same_dims(&gradient.dims, &parameter.dims) || gradient.dtype != parameter.dtype || gradient.device
                    != parameter.device {
                    assert(gradients@[i as int] is Some && !fits_parameter(
                        gradients@[i as int]->Some_0,
                        parameters@[i as int],
                    ));
                    return Err(OptimizerError::GradientMismatch);
                }
            },
            None => {},
        }
        i += 1;
    }
    Ok(())
}

/// The parameters that an optimizer takes have the identities that were offered, each once.
pub proof fn shared_parameters_count_once(parameters: Seq<OfferedParameter>)
    requires
        parameters.len() <= usize::MAX,
    ensures
        Seq::new(fresh_positions(parameters).len(), |i: int| parameters[fresh_positions(parameters)[i] as int].id)
            == first_seen(ids_of(parameters)),
        forall|i: int|
            0 <= i < fresh_positions(parameters).len() ==> (#[trigger] fresh_positions(parameters)[i]) < parameters.len(),
    decreases parameters.len(),
{
    let ids = ids_of(parameters);
    if parameters.len() > 0 {
        let shorter = parameters.drop_last();
        shared_parameters_count_once(shorter);
        assert(ids.drop_last() =~= ids_of(shorter));
        crate::trade_report::first_seen_members(ids_of(shorter));
        let before = fresh_positions(shorter);
        let after = fresh_positions(parameters);
        assert forall|i: int| 0 <= i < before.len() implies parameters[(#[trigger] before[i]) as int].id
            == shorter[before[i] as int].id by {}
        let chosen = Seq::new(after.len(), |i: int| parameters[after[i] as int].id);
        let earlier = Seq::new(before.len(), |i: int| shorter[before[i] as int].id);
        if ids_of(shorter).contains(parameters.last().id) {
            assert(chosen =~= earlier);
        } else {
            assert(chosen =~= earlier.push(parameters.last().id));
        }
        assert(chosen =~= first_seen(ids));
    } else {
        assert(Seq::new(0, |i: int| parameters[fresh_positions(parameters)[i] as int].id) =~= first_seen(ids));
    }
}

/// A parameter without a gradient is not begun with.
pub proof fn absent_gradients_begin_nothing(positions: Seq<usize>, begun: Seq<bool>, inputs: Seq<StepInput>, count: nat)
    requires
        count <= inputs.len(),
        forall|i: int| 0 <= i < count ==> !(#[trigger] inputs[i]).has_gradient,
    ensures
        steps_of(positions, begun, inputs, count) == Seq::<AdamStep>::empty(),
    decreases count,
{
    if count > 0 {
        assert(!inputs[count - 1].has_gradient);
        absent_gradients_begin_nothing(positions, begun, inputs, (count - 1) as nat);
    }
}

/// A parameter is taken at the first place at which it is offered and at no other.
pub proof fn parameters_are_taken_once<V: Number>(
    parameters: Vec<OfferedParameter>,
    learning_rate: V,
    weight_decay: V,
    result: Result<CandleAdam<V>, OptimizerError>,
    place: usize,
)
    requires
        call_ensures(CandleAdam::<V>::new, (&parameters, learning_rate, weight_decay), result),
        result is Ok,
        place < parameters@.len(),
    ensures
        result->Ok_0.positions@.contains(place) <==> forall|earlier: int|
            0 <= earlier < place ==> (#[trigger] parameters@[earlier]).id != parameters@[place as int].id,
        forall|i: int, j: int|
            0 <= i < j < result->Ok_0.positions@.len() ==> result->Ok_0.positions@[i] < result->Ok_0.positions@[j],
        forall|i: int| 0 <= i < result->Ok_0.begun@.len() ==> !#[trigger] result->Ok_0.begun@[i],
        result->Ok_0.learning_rate == learning_rate && result->Ok_0.weight_decay == weight_decay,
{
    assert(parameters@.len() == parameters.len());
    first_places_are_fresh(parameters@, place);
}

proof fn first_places_are_fresh(parameters: Seq<OfferedParameter>, place: usize)
    requires
        parameters.len() <= usize::MAX,
    ensures
        fresh_positions(parameters).contains(place) <==> place < parameters.len() && forall|earlier: int|
            0 <= earlier < place ==> (#[trigger] parameters[earlier]).id != parameters[place as int].id,
        forall|i: int, j: int|
            0 <= i < j < fresh_positions(parameters).len() ==> fresh_positions(parameters)[i] < fresh_positions(
                parameters,
            )[j],
        forall|i: int|
            0 <= i < fresh_positions(parameters).len() ==> #[trigger] fresh_positions(parameters)[i] < parameters.len(),
    decreases parameters.len(),
{
    if parameters.len() > 0 {
        let fewer = parameters.drop_last();
        first_places_are_fresh(fewer, place);
        let last = parameters.len() - 1;
        let earlier = fresh_positions(fewer);
        let ids = ids_of(fewer);
        let known = ids.contains(parameters.last().id);
        if known {
            let k = choose|k: int| 0 <= k < ids.len() && ids[k] == parameters.last().id;
            assert(parameters[k].id == parameters[last].id);
        } else {
            assert forall|k: int| 0 <= k < last implies (#[trigger] parameters[k]).id != parameters[last].id by {
                assert(ids[k] == parameters[k].id);
            }
            let after = earlier.push(last as usize);
            assert(after == fresh_positions(parameters));
            if place == last {
                assert(after[earlier.len() as int] == place);
            }
            if earlier.contains(place) {
                let k = choose|k: int| 0 <= k < earlier.len() && earlier[k] == place;
                assert(after[k] == place);
            }
        }
        if place < last {
            assert(parameters[place as int] == fewer[place as int]);
            assert forall|k: int| 0 <= k < place implies parameters[k] == fewer[k] by {}
            if forall|k: int| 0 <= k < place ==> (#[trigger] parameters[k]).id != parameters[place as int].id {
                assert forall|k: int| 0 <= k < place implies (#[trigger] fewer[k]).id != fewer[place as int].id by {
                    assert(parameters[k].id != parameters[place as int].id);
                }
            }
            if forall|k: int| 0 <= k < place ==> (#[trigger] fewer[k]).id != fewer[place as int].id {
                assert forall|k: int| 0 <= k < place implies (#[trigger] parameters[k]).id != parameters[place as int].id by {
                    assert(fewer[k].id != fewer[place as int].id);
                }
            }
        }
    }
}

/// A rate that is below zero or missing is refused wherever it is given, and every other one is taken.
pub proof fn rates_are_not_negative(
    optimizer: &mut CandleAdam<Ticks>,
    learning_rate: Ticks,
    result: Result<(), OptimizerError>,
)
    requires
        call_ensures(CandleAdam::<Ticks>::set_learning_rate, (optimizer, learning_rate), result),
    ensures
        result is Ok <==> learning_rate.0 is Some && learning_rate.0->Some_0 >= 0,
        result is Ok ==> final(optimizer).learning_rate == learning_rate,
        result is Err ==> final(optimizer).learning_rate == old(optimizer).learning_rate,
{
}

/// A step is for the parameters with a gradient, in their order. One that it begins with was not begun
/// before and is after it; none is ever forgotten.
pub proof fn gradients_begin_parameters<V: Number>(
    optimizer: &mut CandleAdam<V>,
    inputs: Vec<StepInput>,
    result: Vec<AdamStep>,
    place: int,
    step: int,
)
    requires
        call_ensures(CandleAdam::<V>::step, (optimizer, &inputs), result),
        old(optimizer).wf(),
        inputs@.len() == old(optimizer).positions@.len(),
        0 <= place < inputs@.len(),
    ensures
        final(optimizer).begun@[place] <==> old(optimizer).begun@[place] || inputs@[place].has_gradient,
        inputs@[place].has_gradient ==> exists|i: int|
            0 <= i < result@.len() && (#[trigger] result@[i]).position == old(optimizer).positions@[place]
                && result@[i].begins == !old(optimizer).begun@[place] && result@[i].updates == (inputs@[place].values
                > 0),
        result@.len() == inputs@.filter(|input: StepInput| input.has_gradient).len(),
{
    steps_follow_gradients(old(optimizer).positions@, old(optimizer).begun@, inputs@, inputs@.len(), place);
    assert(inputs@.take(inputs@.len() as int) =~= inputs@);
}

proof fn steps_follow_gradients(
    positions: Seq<usize>,
    begun: Seq<bool>,
    inputs: Seq<StepInput>,
    count: nat,
    place: int,
)
    requires
        count <= inputs.len(),
        0 <= place < inputs.len(),
    ensures
        place < count && inputs[place].has_gradient ==> exists|i: int|
            0 <= i < steps_of(positions, begun, inputs, count).len() && (#[trigger] steps_of(
                positions,
                begun,
                inputs,
                count,
            )[i]).position == positions[place] && steps_of(positions, begun, inputs, count)[i].begins == !begun[place]
                && steps_of(positions, begun, inputs, count)[i].updates == (inputs[place].values > 0),
        steps_of(positions, begun, inputs, count).len() == inputs.take(count as int).filter(
            |input: StepInput| input.has_gradient,
        ).len(),
    decreases count,
{
    reveal(Seq::filter);
    if count > 0 {
        let before = (count - 1) as nat;
        steps_follow_gradients(positions, begun, inputs, before, place);
        assert(inputs.take(count as int).drop_last() =~= inputs.take(before as int));
        let earlier = steps_of(positions, begun, inputs, before);
        let after = steps_of(positions, begun, inputs, count);
        if place < before && inputs[place].has_gradient {
            let i = choose|i: int|
                0 <= i < earlier.len() && (#[trigger] earlier[i]).position == positions[place] && earlier[i].begins
                    == !begun[place] && earlier[i].updates == (inputs[place].values > 0);
            assert(after[i] == earlier[i]);
        }
        if place == before && inputs[place].has_gradient {
            assert(after[earlier.len() as int].position == positions[place]);
        }
    }
}

/// As many parameters are begun with as flags say so: one more flag is one more parameter.
pub proof fn begun_parameters_are_counted<V: Number>(optimizer: CandleAdam<V>, result: usize)
    requires
        call_ensures(CandleAdam::<V>::initialized_parameter_count, (&optimizer,), result),
    ensures
        result == optimizer.begun@.filter(|begun: bool| begun).len(),
{
    flags_are_counted(optimizer.begun@);
}

proof fn flags_are_counted(flags: Seq<bool>)
    ensures
        held(flags) == flags.filter(|flag: bool| flag).len(),
    decreases flags.len(),
{
    reveal(Seq::filter);
    if flags.len() > 0 {
        flags_are_counted(flags.drop_last());
    }
}

/// Norms are added in double precision where one gradient has it; otherwise in the type that all
/// gradients share, or in single precision where they differ.
pub proof fn norms_are_added_in_a_common_type(types: Vec<DType>, result: Option<DType>, place: int)
    requires
        call_ensures(gradient_norm_type, (&types,), result),
        0 <= place < types@.len(),
    ensures
        result is Some,
        types@[place] == DType::F64 ==> result == Some(DType::F64),
        (forall|i: int| 0 <= i < types@.len() ==> #[trigger] types@[i] == types@[0]) ==> result == Some(types@[0]),
        (forall|i: int| 0 <= i < types@.len() ==> #[trigger] types@[i] != DType::F64) && types@[place] != types@[0] ==> result
            == Some(DType::F32),
{
    common_types_hold(types@, place);
}

proof fn common_types_hold(types: Seq<DType>, place: int)
    requires
        0 <= place < types.len(),
    ensures
        types[place] == DType::F64 ==> norm_type(types) == DType::F64,
        (forall|i: int| 0 <= i < types.len() ==> #[trigger] types[i] == types[0]) ==> norm_type(types) == types[0],
        (forall|i: int| 0 <= i < types.len() ==> #[trigger] types[i] != DType::F64) ==> norm_type(types) != DType::F64 && (
        norm_type(types) == DType::F32 || norm_type(types) == types[0]),
        (forall|i: int| 0 <= i < types.len() ==> #[trigger] types[i] != DType::F64) && types[place] != types[0] ==> norm_type(
            types,
        ) == DType::F32,
    decreases types.len(),
{
    if types.len() > 1 {
        let fewer = types.drop_last();
        let last = types.len() - 1;
        common_types_hold(fewer, 0);
        if place < last {
            common_types_hold(fewer, place);
        }
        assert(types[last] == types.last());
        if forall|i: int| 0 <= i < types.len() ==> #[trigger] types[i] == types[0] {
            assert forall|i: int| 0 <= i < fewer.len() implies #[trigger] fewer[i] == fewer[0] by {
                assert(types[i] == types[0]);
            }
        }
        if forall|i: int| 0 <= i < types.len() ==> #[trigger] types[i] != DType::F64 {
            assert forall|i: int| 0 <= i < fewer.len() implies #[trigger] fewer[i] != DType::F64 by {
                assert(types[i] != DType::F64);
            }
        }
    }
}

/// A gradient has to have the shape, the type and the device of its parameter; one that has not stops a
/// step, and one that is absent does not.
pub proof fn gradients_fit_their_parameters(
    parameters: Vec<TensorForm>,
    gradients: Vec<Option<TensorForm>>,
    result: Result<(), OptimizerError>,
    place: int,
)
    requires
        call_ensures(validate_gradients, (&parameters, &gradients), result),
        parameters@.len() == gradients@.len(),
        0 <= place < gradients@.len(),
    ensures
        result is Ok && gradients@[place] is Some ==> gradients@[place]->Some_0.dims@ == parameters@[place].dims@
            && gradients@[place]->Some_0.dtype == parameters@[place].dtype && gradients@[place]->Some_0.device
            == parameters@[place].device,
        (forall|i: int| 0 <= i < gradients@.len() ==> #[trigger] gradients@[i] is None) ==> result is Ok,
{
    if result is Ok {
        assert(all_fit(parameters@, gradients@));
        assert(gradients@[place] is Some ==> fits_parameter(gradients@[place]->Some_0, parameters@[place]));
    } else {
        assert(!all_fit(parameters@, gradients@));
    }
}

} // verus!
