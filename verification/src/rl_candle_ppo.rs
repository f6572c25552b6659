//! What a loss of proximal policy optimization is computed of.
use crate::integer::decimal_digits;
use crate::number::{Number, Ticks};
use crate::rl_candle_network::DType;
use crate::text::{append_chars, decimal_chars, from_chars, to_chars};
use vstd::prelude::*;

verus! {

/// The weights and limits of a loss.
#[derive(Clone, Copy, Debug, PartialEq)]
pub struct PpoLossConfig<V> {
    pub eps_clip: V,
    pub value_clip: bool,
    pub normalize_advantage: bool,
    pub value_weight: V,
    pub entropy_weight: V,
    pub dual_clip: Option<V>,
}

/// A tensor by its shape, its type and its device.
#[derive(Debug)]
pub struct TensorForm {
    pub dims: Vec<usize>,
    pub dtype: DType,
    pub device: usize,
}

/// The forms of a minibatch.
pub struct PpoBatchForm<'a> {
    pub probabilities: &'a TensorForm,
    pub values: &'a TensorForm,
    pub actions: &'a TensorForm,
    pub old_log_prob: &'a TensorForm,
    pub advantages: &'a TensorForm,
    pub returned: &'a TensorForm,
    /// Looked at only where values are clipped.
    pub old_values: Option<&'a TensorForm>,
}

/// Why a loss cannot be computed.
#[derive(Clone, Debug, PartialEq, Eq)]
pub enum PpoLossError {
    /// The second limit does not exceed one.
    DualClip,
    /// The probabilities, of these dimensions, are no table.
    Rank(Vec<usize>),
    EmptyBatch,
    /// A field of numbers does not fit the batch.
    FieldMismatch,
    /// The actions are no list of the batch.
    ActionShape,
    /// Values are clipped, and there are no old ones.
    MissingOldValues,
    OldValueMismatch,
}

/// What a failure says.
pub enum LossFailure {
    DualClip,
    Rank(Seq<usize>),
    EmptyBatch,
    FieldMismatch,
    ActionShape,
    MissingOldValues,
    OldValueMismatch,
}

impl View for PpoLossError {
    type V = LossFailure;

    open spec fn view(&self) -> LossFailure {
        match self {
            PpoLossError::DualClip => LossFailure::DualClip,
            PpoLossError::Rank(dims) => LossFailure::Rank(dims@),
            PpoLossError::EmptyBatch => LossFailure::EmptyBatch,
            PpoLossError::FieldMismatch => LossFailure::FieldMismatch,
            PpoLossError::ActionShape => LossFailure::ActionShape,
            PpoLossError::MissingOldValues => LossFailure::MissingOldValues,
            PpoLossError::OldValueMismatch => LossFailure::OldValueMismatch,
        }
    }
}

/// Numbers in decimal digits, set apart by a comma and a blank.
pub open spec fn listed(dims: Seq<usize>) -> Seq<char>
    decreases dims.len(),
{
    if dims.len() == 0 {
        Seq::empty()
    } else if dims.len() == 1 {
        decimal_digits(dims[0] as nat)
    } else {
        listed(dims.drop_last()) + ", "@ + decimal_digits(dims.last() as nat)
    }
}

/// What is said of a failure.
pub open spec fn loss_text(failure: LossFailure) -> Seq<char> {
    match failure {
        LossFailure::DualClip => "PPO dual clip must be greater than one"@,
        LossFailure::Rank(dims) => "unexpected rank, expected: 2, got: "@ + decimal_digits(dims.len()) + " (["@ + listed(
            dims,
        ) + "])"@,
        LossFailure::EmptyBatch => "PPO requires a nonempty discrete minibatch"@,
        LossFailure::FieldMismatch => "PPO float fields must match batch, dtype and device"@,
        LossFailure::ActionShape => "PPO actions must be a batch vector"@,
        LossFailure::MissingOldValues => "PPO value clipping requires old values"@,
        LossFailure::OldValueMismatch => "PPO old values must match values shape, dtype and device"@,
    }
}

fn list_dims(dims: &Vec<usize>) -> (result: Vec<char>)
    ensures
        result@ == listed(dims@),
{
    let mut text: Vec<char> = Vec::new();
    let mut i: usize = 0;
    while i < dims.len()
        invariant
            i <= dims@.len(),
            text@ == listed(dims@.take(i as int)),
        decreases dims@.len() - i,
    {
        let ghost before = dims@.take(i as int);
        let ghost after = dims@.take(i + 1);
        assert(after.drop_last() =~= before && after.last() == dims@[i as int]);
        if i > 0 {
            append_chars(&mut text, to_chars(", ").as_slice());
        }
        append_chars(&mut text, decimal_chars(dims[i]).as_slice());
        assert(text@ =~= listed(after));
        i += 1;
    }
    assert(dims@.take(i as int) =~= dims@);
    text
}

impl PpoLossError {
    /// What is said of the failure.
    pub fn message(&self) -> (result: String)
        ensures
            result@ == loss_text(self@),
    {
        let text: &str = match self {
            PpoLossError::Rank(dims) => {
                let mut text = to_chars("unexpected rank, expected: 2, got: ");
                append_chars(&mut text, decimal_chars(dims.len()).as_slice());
                append_chars(&mut text, to_chars(" ([").as_slice());
                append_chars(&mut text, list_dims(dims).as_slice());
                append_chars(&mut text, to_chars("])").as_slice());
                return from_chars(text.as_slice());
            },
            PpoLossError::DualClip => "PPO dual clip must be greater than one",
            PpoLossError::EmptyBatch => "PPO requires a nonempty discrete minibatch",
            PpoLossError::FieldMismatch => "PPO float fields must match batch, dtype and device",
            PpoLossError::ActionShape => "PPO actions must be a batch vector",
            PpoLossError::MissingOldValues => "PPO value clipping requires old values",
            PpoLossError::OldValueMismatch => "PPO old values must match values shape, dtype and device",
        };
        text.to_string()
    }
}

/// Whether a tensor is a list of a length, of a type and on a device.
pub open spec fn is_column(form: TensorForm, length: usize, dtype: DType, device: usize) -> bool {
    form.dims@ == seq![length] && form.dtype == dtype && form.device == device
}

/// Whether the second limit exceeds one, where there is one.
pub open spec fn dual_clip_valid<V: Number>(dual_clip: Option<V>) -> bool {
    match dual_clip {
        Some(dual) => V::one_spec().below_spec(dual),
        None => true,
    }
}

/// Why the forms of a minibatch do not fit.
pub open spec fn batch_failure(batch: PpoBatchForm) -> Option<LossFailure> {
    let table = *batch.probabilities;
    if table.dims@.len() != 2 {
        Some(LossFailure::Rank(table.dims@))
    } else if table.dims@[0] == 0 || table.dims@[1] == 0 {
        Some(LossFailure::EmptyBatch)
    } else if !(is_column(*batch.values, table.dims@[0], table.dtype, table.device) && is_column(
        *batch.old_log_prob,
        table.dims@[0],
        table.dtype,
        table.device,
    ) && is_column(*batch.advantages, table.dims@[0], table.dtype, table.device) && is_column(
        *batch.returned,
        table.dims@[0],
        table.dtype,
        table.device,
    )) {
        Some(LossFailure::FieldMismatch)
    } else if batch.actions.dims@ != seq![table.dims@[0]] {
        Some(LossFailure::ActionShape)
    } else {
        None
    }
}

/// Why the old values do not fit, where values are clipped.
pub open spec fn old_value_failure(batch: PpoBatchForm, value_clip: bool) -> Option<LossFailure> {
    if !value_clip {
        None
    } else {
        match batch.old_values {
            None => Some(LossFailure::MissingOldValues),
            Some(old) => if old.dims@ != batch.values.dims@ || old.dtype != batch.probabilities.dtype || old.device
                != batch.values.device {
                Some(LossFailure::OldValueMismatch)
            } else {
                None
            },
        }
    }
}

fn is_list(dims: &Vec<usize>, length: usize) -> (result: bool)
    ensures
        result == (dims@ == seq![length]),
{
    if dims.len() == 1 && dims[0] == length {
        assert(dims@ =~= seq![length]);
        true
    } else {
        assert(seq![length].len() == 1 && seq![length][0] == length);
        false
    }
}

fn fits_batch(form: &TensorForm, length: usize, dtype: DType, device: usize) -> (result: bool)
    ensures
        result == is_column(*form, length, dtype, device),
{
    is_list(&form.dims, length) && form.dtype == dtype && form.device == device
}

fn same_dims(left: &Vec<usize>, right: &Vec<usize>) -> (result: bool)
    ensures
        result == (left@ == right@),
{
    if left.len() != right.len() {
        return false;
    }
    let mut i: usize = 0;
    while i < left.len()
        invariant
            i <= left@.len(),
            left@.len() == right@.len(),
            forall|j: int| 0 <= j < i ==> left@[j] == right@[j],
        decreases left@.len() - i,
    {
        if left[i] != right[i] {
            return false;
        }
        i += 1;
    }
    assert(left@ =~= right@);
    true
}

fn copy_dims(dims: &Vec<usize>) -> (result: Vec<usize>)
    ensures
        result@ == dims@,
{
    let mut list: Vec<usize> = Vec::new();
    let mut i: usize = 0;
    while i < dims.len()
        invariant
            i <= dims@.len(),
            list@ == dims@.take(i as int),
        decreases dims@.len() - i,
    {
        list.push(dims[i]);
        i += 1;
        assert(list@ =~= dims@.take(i as int));
    }
    assert(dims@.take(i as int) =~= dims@);
    list
}

impl<V: Number> PpoLossConfig<V> {
    /// Whether the second limit exceeds one. It is looked at before anything else.
    pub fn check_dual_clip(&self) -> (result: Result<(), PpoLossError>)
        ensures
            match result {
                Ok(_) => dual_clip_valid(self.dual_clip),
                Err(error) => !dual_clip_valid(self.dual_clip) && error@ == LossFailure::DualClip,
            },
    {
        match self.dual_clip {
            Some(dual) => if V::one().below(dual) {
                Ok(())
            } else {
                Err(PpoLossError::DualClip)
            },
            None => Ok(()),
        }
    }

    /// Holds the forms of a minibatch against each other.
    pub fn check_batch(&self, batch: &PpoBatchForm) -> (result: Result<(), PpoLossError>)
        ensures
            match result {
                Ok(_) => batch_failure(*batch) is None,
                Err(error) => batch_failure(*batch) == Some(error@),
            },
    {
        let table = batch.probabilities;
        if table.dims.len() != 2 {
            return Err(PpoLossError::Rank(copy_dims(&table.dims)));
        }
        let length: usize = table.dims[0];
        if length == 0 || table.dims[1] == 0 {
            return Err(PpoLossError::EmptyBatch);
        }
        if !fits_batch(batch.values, length, table.dtype, table.device) || !fits_batch(
            batch.old_log_prob,
            length,
            table.dtype,
            table.device,
        ) || !fits_batch(batch.advantages, length, table.dtype, table.device) || !fits_batch(
            batch.returned,
            length,
            table.dtype,
            table.device,
        ) {
            return Err(PpoLossError::FieldMismatch);
        }
        if !is_list(&batch.actions.dims, length) {
            return Err(PpoLossError::ActionShape);
        }
        Ok(())
    }

    /// Holds the old values against the values. They are looked at once the part of the policy is
    /// computed, and only where values are clipped.
    pub fn check_old_values(&self, batch: &PpoBatchForm) -> (result: Result<(), PpoLossError>)
        ensures
            match result {
                Ok(_) => old_value_failure(*batch, self.value_clip) is None,
                Err(error) => old_value_failure(*batch, self.value_clip) == Some(error@),
            },
    {
        if !self.value_clip {
            return Ok(());
        }
        match batch.old_values {
            None => Err(PpoLossError::MissingOldValues),
            Some(old) => if !same_dims(&old.dims, &batch.values.dims) || old.dtype != batch.probabilities.dtype
                || old.device != batch.values.device {
                Err(PpoLossError::OldValueMismatch)
            } else {
                Ok(())
            },
        }
    }
}

/// The type that the part of the policy is computed in: probabilities are compared in single
/// precision, and only advantages in double precision widen them.
pub fn surrogate_type(dtype: DType) -> (result: DType)
    ensures
        result == if dtype == DType::F64 {
            DType::F64
        } else {
            DType::F32
        },
{
    if dtype == DType::F64 {
        DType::F64
    } else {
        DType::F32
    }
}

/// A second limit of one or less is refused, and so is one that is missing; every greater one, and none
/// at all, will do.
pub proof fn second_limits_exceed_one(config: PpoLossConfig<Ticks>, result: Result<(), PpoLossError>)
    requires
        call_ensures(PpoLossConfig::<Ticks>::check_dual_clip, (&config,), result),
    ensures
        config.dual_clip is None ==> result is Ok,
        config.dual_clip matches Some(dual) ==> (result is Ok <==> dual.0 is Some && dual.0->Some_0 > 1),
{
}

/// The fields of a batch that fits hold one number for each row of its probabilities, of which there is
/// at least one, all of one type and on one device.
pub proof fn fitting_batches_have_one_length(
    config: PpoLossConfig<Ticks>,
    batch: PpoBatchForm,
    result: Result<(), PpoLossError>,
)
    requires
        call_ensures(PpoLossConfig::<Ticks>::check_batch, (&config, &batch), result),
    ensures
        result is Ok <==> {
            let rows = batch.probabilities.dims@;
            &&& rows.len() == 2 && rows[0] > 0 && rows[1] > 0
            &&& batch.values.dims@ == rows.take(1) && batch.old_log_prob.dims@ == rows.take(1)
            &&& batch.advantages.dims@ == rows.take(1) && batch.returned.dims@ == rows.take(1)
            &&& batch.actions.dims@ == rows.take(1)
            &&& batch.values.dtype == batch.probabilities.dtype && batch.old_log_prob.dtype == batch.probabilities.dtype
            &&& batch.advantages.dtype == batch.probabilities.dtype && batch.returned.dtype == batch.probabilities.dtype
            &&& batch.values.device == batch.probabilities.device && batch.old_log_prob.device
                == batch.probabilities.device
            &&& batch.advantages.device == batch.probabilities.device && batch.returned.device
                == batch.probabilities.device
        },
{
    let rows = batch.probabilities.dims@;
    if rows.len() == 2 {
        assert(rows.take(1) =~= seq![rows[0]]);
    }
}

/// Old values are only looked at where values are clipped; then they are needed, and have the form of
/// the values.
pub proof fn only_clipped_values_need_old_ones(
    config: PpoLossConfig<Ticks>,
    batch: PpoBatchForm,
    result: Result<(), PpoLossError>,
)
    requires
        call_ensures(PpoLossConfig::<Ticks>::check_old_values, (&config, &batch), result),
    ensures
        !config.value_clip ==> result is Ok,
        config.value_clip && batch.old_values is None ==> result is Err && result->Err_0@ == LossFailure::MissingOldValues,
        config.value_clip && result is Ok ==> batch.old_values is Some && batch.old_values->Some_0.dims@
            == batch.values.dims@ && batch.old_values->Some_0.dtype == batch.probabilities.dtype
            && batch.old_values->Some_0.device == batch.values.device,
        config.value_clip && batch.old_values is Some && result is Err ==> result->Err_0@ == LossFailure::OldValueMismatch && (
        batch.old_values->Some_0.dims@ != batch.values.dims@ || batch.old_values->Some_0.dtype
            != batch.probabilities.dtype || batch.old_values->Some_0.device != batch.values.device),
{
}

} // verus!
