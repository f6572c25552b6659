//! Action values: masks, greatest actions, exploration, and the batch that is learned.
use crate::number::{ticks, Number, Ticks};
use crate::rl_candle_network::{counted_step, DType};
use vstd::prelude::*;

verus! {

/// Why action values cannot be used.
#[derive(Clone, Copy, Debug, PartialEq, Eq, Structural)]
pub enum DqnError {
    /// There are no actions to choose from.
    NoActions,
    /// The actions are no list of integers of the batch.
    ActionShape,
    /// There are more actions than an index can tell apart.
    ActionCount,
    /// The mask does not fit the scores.
    MaskShape,
    /// The batch has no returns.
    MissingReturns,
}

impl DqnError {
    /// What is said of the failure.
    pub fn message(self) -> (result: &'static str)
        ensures
            result@ == match self {
                DqnError::NoActions => "DQN argmax requires actions"@,
                DqnError::ActionShape => "DQN actions must be an I64 batch vector"@,
                DqnError::ActionCount => "action count exceeds I64"@,
                DqnError::MaskShape => "DQN exploration mask does not broadcast"@,
                DqnError::MissingReturns => "DQN batch lacks returns"@,
            },
    {
        match self {
            DqnError::NoActions => "DQN argmax requires actions",
            DqnError::ActionShape => "DQN actions must be an I64 batch vector",
            DqnError::ActionCount => "action count exceeds I64",
            DqnError::MaskShape => "DQN exploration mask does not broadcast",
            DqnError::MissingReturns => "DQN batch lacks returns",
        }
    }
}

// ---- masks ------------------------------------------------------------------------------------

/// How a mask is turned around.
#[derive(Clone, Copy, Debug, PartialEq, Eq, Structural)]
pub enum MaskComplement {
    /// In unsigned bytes, wrapping.
    Bytes,
    /// In unsigned words, wrapping.
    Words,
    /// In signed integers, wrapping; a single unsigned value is widened first.
    Integers,
    /// In double precision: a single value of less precision is widened first.
    Doubles,
    /// In the type of the mask.
    Direct,
}

/// How a mask is turned around.
pub fn mask_complement(dtype: DType, single: bool) -> (result: MaskComplement)
    ensures
        result == match dtype {
            DType::U8 => if single {
                MaskComplement::Integers
            } else {
                MaskComplement::Bytes
            },
            DType::U32 => if single {
                MaskComplement::Integers
            } else {
                MaskComplement::Words
            },
            DType::I64 => MaskComplement::Integers,
            DType::F16 => if single {
                MaskComplement::Doubles
            } else {
                MaskComplement::Direct
            },
            DType::F32 => if single {
                MaskComplement::Doubles
            } else {
                MaskComplement::Direct
            },
            _ => MaskComplement::Direct,
        },
{
    match dtype {
        DType::U8 => if single {
            MaskComplement::Integers
        } else {
            MaskComplement::Bytes
        },
        DType::U32 => if single {
            MaskComplement::Integers
        } else {
            MaskComplement::Words
        },
        DType::I64 => MaskComplement::Integers,
        DType::F16 => if single {
            MaskComplement::Doubles
        } else {
            MaskComplement::Direct
        },
        DType::F32 => if single {
            MaskComplement::Doubles
        } else {
            MaskComplement::Direct
        },
        _ => MaskComplement::Direct,
    }
}

/// One minus a byte, wrapping.
pub open spec fn byte_complement(value: u8) -> u8 {
    if value <= 1 {
        (1 - value) as u8
    } else {
        (257 - value) as u8
    }
}

/// One minus a word, wrapping.
pub open spec fn word_complement(value: u32) -> u32 {
    if value <= 1 {
        (1 - value) as u32
    } else {
        (0x1_0000_0001 - value) as u32
    }
}

/// One minus a signed integer, wrapping.
pub open spec fn integer_complement(value: i64) -> i64 {
    if value > i64::MIN + 1 {
        (1 - value) as i64
    } else if value == i64::MIN + 1 {
        i64::MIN
    } else {
        (i64::MIN + 1) as i64
    }
}

/// A mask of bytes turned around.
pub fn complement_bytes(mask: &Vec<u8>) -> (result: Vec<u8>)
    ensures
        result@ == mask@.map_values(|value: u8| byte_complement(value)),
{
    let mut values: Vec<u8> = Vec::new();
    let ghost all = mask@.map_values(|value: u8| byte_complement(value));
    let mut i: usize = 0;
    while i < mask.len()
        invariant
            i <= mask@.len(),
            all == mask@.map_values(|value: u8| byte_complement(value)),
            values@ == all.take(i as int),
        decreases mask@.len() - i,
    {
        let value: u8 = mask[i];
        values.push(
            if value <= 1 {
                1 - value
            } else {
                (257 - value as u16) as u8
            },
        );
        i += 1;
        assert(values@ =~= all.take(i as int));
    }
    assert(values@ =~= all);
    values
}

/// A mask of words turned around.
pub fn complement_words(mask: &Vec<u32>) -> (result: Vec<u32>)
    ensures
        result@ == mask@.map_values(|value: u32| word_complement(value)),
{
    let mut values: Vec<u32> = Vec::new();
    let ghost all = mask@.map_values(|value: u32| word_complement(value));
    let mut i: usize = 0;
    while i < mask.len()
        invariant
            i <= mask@.len(),
            all == mask@.map_values(|value: u32| word_complement(value)),
            values@ == all.take(i as int),
        decreases mask@.len() - i,
    {
        let value: u32 = mask[i];
        values.push(
            if value <= 1 {
                1 - value
            } else {
                (0x1_0000_0001u64 - value as u64) as u32
            },
        );
        i += 1;
        assert(values@ =~= all.take(i as int));
    }
    assert(values@ =~= all);
    values
}

/// A mask of signed integers turned around.
pub fn complement_integers(mask: &Vec<i64>) -> (result: Vec<i64>)
    ensures
        result@ == mask@.map_values(|value: i64| integer_complement(value)),
{
    let mut values: Vec<i64> = Vec::new();
    let ghost all = mask@.map_values(|value: i64| integer_complement(value));
    let mut i: usize = 0;
    while i < mask.len()
        invariant
            i <= mask@.len(),
            all == mask@.map_values(|value: i64| integer_complement(value)),
            values@ == all.take(i as int),
        decreases mask@.len() - i,
    {
        let value: i64 = mask[i];
        values.push(
            if value > i64::MIN + 1 {
                1 - value
            } else if value == i64::MIN + 1 {
                i64::MIN
            } else {
                i64::MIN + 1
            },
        );
        i += 1;
        assert(values@ =~= all.take(i as int));
    }
    assert(values@ =~= all);
    values
}

/// Turning a mask around twice gives it back.
pub proof fn complements_undo_themselves(byte: u8, word: u32, integer: i64)
    ensures
        byte_complement(byte_complement(byte)) == byte,
        word_complement(word_complement(word)) == word,
        integer_complement(integer_complement(integer)) == integer,
{
}

// ---- greatest actions -------------------------------------------------------------------------

/// The first missing value of a row, or the first greatest one, among the first values.
pub open spec fn greatest<V: Number>(row: Seq<V>, count: nat) -> int
    decreases count,
{
    if count <= 1 {
        0
    } else {
        let best = greatest(row, (count - 1) as nat);
        if !row[best].missing() && (row[count - 1].missing() || row[best].below_spec(row[count - 1])) {
            count - 1
        } else {
            best
        }
    }
}

/// The first missing value of a row, or the first greatest one.
pub fn row_argmax<V: Number>(row: &Vec<V>) -> (result: usize)
    requires
        row@.len() > 0,
    ensures
        result == greatest(row@, row@.len()),
        result < row@.len(),
{
    let mut best: usize = 0;
    let mut i: usize = 1;
    while i < row.len()
        invariant
            1 <= i <= row@.len(),
            best < i,
            best == greatest(row@, i as nat),
        decreases row@.len() - i,
    {
        if !row[best].is_missing() && (row[i].is_missing() || row[best].below(row[i])) {
            best = i;
        }
        i += 1;
    }
    best
}

/// A row with a missing value is led by its first missing value.
pub proof fn missing_values_lead<V: Number>(row: Seq<V>, count: nat, place: int)
    requires
        0 <= place < count <= row.len(),
        row[place].missing(),
        forall|i: int| 0 <= i < place ==> !(#[trigger] row[i]).missing(),
    ensures
        greatest(row, count) == place,
    decreases count,
{
    greatest_is_within(row, (count - 1) as nat);
    if count > 1 {
        if place < count - 1 {
            missing_values_lead(row, (count - 1) as nat, place);
        } else {
            let best = greatest(row, (count - 1) as nat);
            assert(!row[best].missing());
        }
    }
}

proof fn greatest_is_within<V: Number>(row: Seq<V>, count: nat)
    ensures
        0 <= greatest(row, count),
        count > 0 ==> greatest(row, count) < count,
    decreases count,
{
    if count > 1 {
        greatest_is_within(row, (count - 1) as nat);
    }
}

/// The greatest action of each row.
pub fn action_argmax<V: Number>(rows: &Vec<Vec<V>>, columns: usize) -> (result: Result<Vec<i64>, DqnError>)
    requires
        columns <= i64::MAX,
        forall|i: int| 0 <= i < rows@.len() ==> (#[trigger] rows@[i])@.len() == columns,
    ensures
        if columns == 0 {
            result == Err::<Vec<i64>, DqnError>(DqnError::NoActions)
        } else {
            result matches Ok(actions) && actions@ == Seq::new(
                rows@.len(),
                |i: int| greatest(rows@[i]@, columns as nat) as i64,
            )
        },
{
    if columns == 0 {
        return Err(DqnError::NoActions);
    }
    let mut actions: Vec<i64> = Vec::new();
    let mut i: usize = 0;
    while i < rows.len()
        invariant
            0 < columns <= i64::MAX,
            forall|i: int| 0 <= i < rows@.len() ==> (#[trigger] rows@[i])@.len() == columns,
            i <= rows@.len(),
            actions@ == Seq::new(i as nat, |i: int| greatest(rows@[i]@, columns as nat) as i64),
        decreases rows@.len() - i,
    {
        actions.push(row_argmax(&rows[i]) as i64);
        i += 1;
        assert(actions@ =~= Seq::new(i as nat, |i: int| greatest(rows@[i]@, columns as nat) as i64));
    }
    Ok(actions)
}

// ---- values of actions ------------------------------------------------------------------------

/// The columns that actions stand for: a negative one counts from the end. Whether a column exists
/// is left to the reader of the values.
pub fn action_columns(actions: &Vec<i64>, integers: bool, rows: usize, columns: usize) -> (result: Result<
    Vec<i64>,
    DqnError,
>)
    ensures
        if !integers || actions@.len() != rows {
            result == Err::<Vec<i64>, DqnError>(DqnError::ActionShape)
        } else if columns > i64::MAX {
            result == Err::<Vec<i64>, DqnError>(DqnError::ActionCount)
        } else {
            result matches Ok(places) && places@ == Seq::new(
                actions@.len(),
                |i: int| counted_step(actions@[i], columns as int) as i64,
            )
        },
{
    if !integers || actions.len() != rows {
        return Err(DqnError::ActionShape);
    }
    if columns as u64 > i64::MAX as u64 {
        return Err(DqnError::ActionCount);
    }
    let width: i64 = columns as i64;
    let mut places: Vec<i64> = Vec::new();
    let mut i: usize = 0;
    while i < actions.len()
        invariant
            i <= actions@.len(),
            width == columns,
            width >= 0,
            columns <= i64::MAX,
            places@ == Seq::new(i as nat, |i: int| counted_step(actions@[i], columns as int) as i64),
        decreases actions@.len() - i,
    {
        let place: i64 = if actions[i] < 0 {
            actions[i] + width
        } else {
            actions[i]
        };
        places.push(place);
        i += 1;
        assert(places@ =~= Seq::new(i as nat, |i: int| counted_step(actions@[i], columns as int) as i64));
    }
    Ok(places)
}

/// Whose actions a target is read at.
#[derive(Clone, Copy, Debug, PartialEq, Eq, Structural)]
pub enum TargetActions {
    /// Those that the online model chose.
    Online,
    /// The greatest of the target itself, masked or not.
    Greatest,
}

/// Whose actions a target is read at.
pub fn target_actions(is_double: bool) -> (result: TargetActions)
    ensures
        result == if is_double {
            TargetActions::Online
        } else {
            TargetActions::Greatest
        },
{
    if is_double {
        TargetActions::Online
    } else {
        TargetActions::Greatest
    }
}

/// The type that squared errors and their weights are multiplied in. A single weight and weights
/// without fractions do not widen the errors.
pub fn product_type(errors: DType, weights: DType, single: bool) -> (result: DType)
    ensures
        result == if single || !weights.float_spec() || errors == weights {
            errors
        } else if errors == DType::F64 || weights == DType::F64 {
            DType::F64
        } else {
            DType::F32
        },
{
    if single || !weights.is_float() || errors == weights {
        errors
    } else if errors == DType::F64 || weights == DType::F64 {
        DType::F64
    } else {
        DType::F32
    }
}

/// A batch that is learned: its returns, and the priorities that go back to the buffer.
#[derive(Debug)]
pub struct DqnBatch<R, W> {
    pub returned: Option<R>,
    pub weight: Option<W>,
}

impl<R, W> DqnBatch<R, W> {
    /// Begins to learn: the old priorities leave the batch, whatever comes.
    pub fn take_weight(&mut self) -> (result: Option<W>)
        ensures
            result == old(self).weight,
            final(self).weight is None,
            final(self).returned == old(self).returned,
    {
        let mut taken: Option<W> = None;
        core::mem::swap(&mut self.weight, &mut taken);
        taken
    }

    /// The returns, once the model was evaluated.
    pub fn require_returns(&self) -> (result: Result<&R, DqnError>)
        ensures
            match self.returned {
                Some(found) => result matches Ok(held) && *held == found,
                None => result == Err::<&R, DqnError>(DqnError::MissingReturns),
            },
    {
        match &self.returned {
            Some(found) => Ok(found),
            None => Err(DqnError::MissingReturns),
        }
    }

    /// Gives the batch its new priorities, before anything is updated by the loss.
    pub fn publish(&mut self, errors: W)
        ensures
            final(self).weight == Some(errors),
            final(self).returned == old(self).returned,
    {
        self.weight = Some(errors);
    }
}

// ---- exploration ------------------------------------------------------------------------------

/// Whether a mask of a shape can be spread over scores of a shape.
pub open spec fn spreads(mask: (usize, usize), scores: (usize, usize)) -> bool {
    (mask.0 == 1 || mask.0 == scores.0) && (mask.1 == 1 || mask.1 == scores.1)
}

/// A place of a mask that is spread.
pub open spec fn spread_place(extent: int, place: int) -> int {
    if extent == 1 {
        0
    } else {
        place
    }
}

/// A row of scores under a mask of a number of rows.
pub open spec fn masked_row<V: Number>(row: Seq<V>, mask: Seq<Vec<V>>, place: int) -> Seq<V> {
    Seq::new(
        row.len(),
        |j: int|
            {
                let masks = mask[spread_place(mask.len() as int, place)]@;
                row[j].plus_spec(masks[spread_place(masks.len() as int, j)])
            },
    )
}

/// A table of numbers whose rows are equally long.
#[derive(Debug)]
pub struct ScoreTable<V> {
    pub rows: Vec<Vec<V>>,
    pub columns: usize,
}

impl<V> ScoreTable<V> {
    pub open spec fn wf(&self) -> bool {
        forall|i: int| 0 <= i < self.rows@.len() ==> (#[trigger] self.rows@[i])@.len() == self.columns
    }
}

/// The action that exploration gives a row.
pub open spec fn explored<V: Number>(action: i64, selected: bool, row: Seq<V>, columns: nat) -> i64 {
    if selected {
        greatest(row, columns) as i64
    } else {
        action
    }
}

/// The scores of a row under the mask, where there is one.
pub open spec fn scored<V: Number>(scores: ScoreTable<V>, mask: Option<ScoreTable<V>>, place: int) -> Seq<V> {
    match mask {
        Some(table) => masked_row(scores.rows@[place]@, table.rows@, place),
        None => scores.rows@[place]@,
    }
}

fn mask_row<V: Number>(row: &Vec<V>, mask: &ScoreTable<V>, place: usize, rows: usize) -> (result: Vec<V>)
    requires
        mask.wf(),
        place < rows,
        spreads((mask.rows@.len() as usize, mask.columns), (rows, row@.len() as usize)),
        mask.rows@.len() <= usize::MAX,
        row@.len() <= usize::MAX,
    ensures
        result@ == masked_row(row@, mask.rows@, place as int),
{
    let mask_place: usize = if mask.rows.len() == 1 {
        0
    } else {
        place
    };
    let masks = &mask.rows[mask_place];
    let mut values: Vec<V> = Vec::new();
    let mut j: usize = 0;
    while j < row.len()
        invariant
            j <= row@.len(),
            mask_place == spread_place(mask.rows@.len() as int, place as int),
            masks == mask.rows@[mask_place as int],
            masks@.len() == mask.columns,
            mask.columns == 1 || mask.columns == row@.len(),
            values@ == masked_row(row@, mask.rows@, place as int).take(j as int),
        decreases row@.len() - j,
    {
        let column: usize = if masks.len() == 1 {
            0
        } else {
            j
        };
        values.push(row[j].plus(masks[column]));
        j += 1;
        assert(values@ =~= masked_row(row@, mask.rows@, place as int).take(j as int));
    }
    assert(values@ =~= masked_row(row@, mask.rows@, place as int));
    values
}

/// Gives selected rows the action of their greatest score under the mask. The draws were made
/// before, for all rows alike.
pub fn dqn_exploration<V: Number>(
    actions: &Vec<i64>,
    selected: &Vec<bool>,
    scores: &ScoreTable<V>,
    mask: &Option<ScoreTable<V>>,
) -> (result: Result<Vec<i64>, DqnError>)
    requires
        scores.wf(),
        scores.columns <= i64::MAX,
        selected@.len() == actions@.len(),
        scores.rows@.len() == actions@.len(),
        mask is Some ==> mask->Some_0.wf(),
    ensures
        if mask is Some && !spreads(
            (mask->Some_0.rows@.len() as usize, mask->Some_0.columns),
            (actions@.len() as usize, scores.columns),
        ) {
            result == Err::<Vec<i64>, DqnError>(DqnError::MaskShape)
        } else if scores.columns == 0 {
            result == Err::<Vec<i64>, DqnError>(DqnError::NoActions)
        } else {
            result matches Ok(chosen) && chosen@ == Seq::new(
                actions@.len(),
                |i: int| explored(actions@[i], selected@[i], scored(*scores, *mask, i), scores.columns as nat),
            )
        },
{
    let count: usize = actions.len();
    if let Some(table) = mask {
        let rows: usize = table.rows.len();
        if !((rows == 1 || rows == count) && (table.columns == 1 || table.columns == scores.columns)) {
            return Err(DqnError::MaskShape);
        }
    }
    if scores.columns == 0 {
        return Err(DqnError::NoActions);
    }
    let mut chosen: Vec<i64> = Vec::new();
    let mut i: usize = 0;
    while i < count
        invariant
            i <= count,
            count == actions@.len(),
            scores.wf(),
            0 < scores.columns <= i64::MAX,
            selected@.len() == count,
            scores.rows@.len() == count,
            mask is Some ==> mask->Some_0.wf() && mask->Some_0.rows@.len() <= usize::MAX && spreads(
                (mask->Some_0.rows@.len() as usize, mask->Some_0.columns),
                (count, scores.columns),
            ),
            chosen@ == Seq::new(
                i as nat,
                |i: int| explored(actions@[i], selected@[i], scored(*scores, *mask, i), scores.columns as nat),
            ),
        decreases count - i,
    {
        let row = &scores.rows[i];
        assert(row@.len() == scores.columns);
        let best: usize = match mask {
            Some(table) => {
                let values = mask_row(row, table, i, count);
                row_argmax(&values)
            },
            None => row_argmax(row),
        };
        let action: i64 = if selected[i] {
            best as i64
        } else {
            actions[i]
        };
        chosen.push(action);
        i += 1;
        assert(chosen@ =~= Seq::new(
            i as nat,
            |i: int| explored(actions@[i], selected@[i], scored(*scores, *mask, i), scores.columns as nat),
        ));
    }
    Ok(chosen)
}

// ---- laws -------------------------------------------------------------------------------------

/// A mask and its complement add up to one, in the numbers that a value of their size can hold.
pub proof fn complements_add_up_to_one(
    bytes: Vec<u8>,
    words: Vec<u32>,
    integers: Vec<i64>,
    turned_bytes: Vec<u8>,
    turned_words: Vec<u32>,
    turned_integers: Vec<i64>,
)
    requires
        call_ensures(complement_bytes, (&bytes,), turned_bytes),
        call_ensures(complement_words, (&words,), turned_words),
        call_ensures(complement_integers, (&integers,), turned_integers),
    ensures
        turned_bytes@.len() == bytes@.len(),
        turned_words@.len() == words@.len(),
        turned_integers@.len() == integers@.len(),
        forall|i: int| 0 <= i < bytes@.len() ==> (#[trigger] turned_bytes@[i] + bytes@[i]) % 0x100 == 1,
        forall|i: int| 0 <= i < words@.len() ==> (#[trigger] turned_words@[i] + words@[i]) % 0x1_0000_0000 == 1,
        forall|i: int|
            0 <= i < integers@.len() ==> (#[trigger] turned_integers@[i] + integers@[i]) % 0x1_0000_0000_0000_0000 == 1,
{
}

/// The greatest of some whole numbers is not below any of them, and above every earlier one.
proof fn greatest_is_greatest(row: Seq<Ticks>, count: nat)
    requires
        0 < count <= row.len(),
        forall|i: int| 0 <= i < row.len() ==> (#[trigger] row[i]).0 is Some,
    ensures
        0 <= greatest(row, count) < count,
        forall|i: int| 0 <= i < count ==> (#[trigger] row[i]).0->Some_0 <= row[greatest(row, count)].0->Some_0,
        forall|i: int|
            0 <= i < greatest(row, count) ==> (#[trigger] row[i]).0->Some_0 < row[greatest(row, count)].0->Some_0,
    decreases count,
{
    if count > 1 {
        greatest_is_greatest(row, (count - 1) as nat);
    }
}

/// Whether a place is the first that holds a greatest value of a row: no value lies above it, and
/// every earlier one lies below it. A missing value counts as the greatest.
pub open spec fn leads(row: Seq<Ticks>, place: int) -> bool {
    &&& 0 <= place < row.len()
    &&& row[place].0 is None ==> forall|i: int| 0 <= i < place ==> (#[trigger] row[i]).0 is Some
    &&& row[place].0 is Some ==> forall|i: int|
        0 <= i < row.len() ==> (#[trigger] row[i]).0 is Some && row[i].0->Some_0 <= row[place].0->Some_0 && (i < place
            ==> row[i].0->Some_0 < row[place].0->Some_0)
}

/// A row has one leading place.
proof fn greatest_leads(row: Seq<Ticks>)
    requires
        row.len() > 0,
    ensures
        leads(row, greatest(row, row.len())),
{
    if exists|i: int| 0 <= i < row.len() && (#[trigger] row[i]).0 is None {
        let some = choose|i: int| 0 <= i < row.len() && (#[trigger] row[i]).0 is None;
        let first = first_missing(row, some);
        missing_values_lead(row, row.len(), first);
    } else {
        greatest_is_greatest(row, row.len());
    }
}

/// The first missing value at or before a missing one.
proof fn first_missing(row: Seq<Ticks>, place: int) -> (first: int)
    requires
        0 <= place < row.len(),
        row[place].0 is None,
    ensures
        0 <= first <= place,
        row[first].0 is None,
        forall|i: int| 0 <= i < first ==> (#[trigger] row[i]).0 is Some,
    decreases place,
{
    if exists|i: int| 0 <= i < place && (#[trigger] row[i]).0 is None {
        let earlier = choose|i: int| 0 <= i < place && (#[trigger] row[i]).0 is None;
        first_missing(row, earlier)
    } else {
        place
    }
}

/// The action of a row is the first that no other one exceeds.
pub proof fn greatest_actions_lead_their_rows(
    row: Vec<Ticks>,
    place: usize,
    rows: Vec<Vec<Ticks>>,
    columns: usize,
    actions: Result<Vec<i64>, DqnError>,
)
    requires
        row@.len() > 0,
        call_ensures(row_argmax::<Ticks>, (&row,), place),
        call_ensures(action_argmax::<Ticks>, (&rows, columns), actions),
        columns <= i64::MAX,
        forall|i: int| 0 <= i < rows@.len() ==> (#[trigger] rows@[i])@.len() == columns,
    ensures
        leads(row@, place as int),
        actions is Err <==> columns == 0,
        actions is Ok ==> actions->Ok_0@.len() == rows@.len() && forall|i: int|
            0 <= i < rows@.len() ==> leads((#[trigger] rows@[i])@, actions->Ok_0@[i] as int),
{
    greatest_leads(row@);
    if columns > 0 {
        assert forall|i: int| 0 <= i < rows@.len() implies leads((#[trigger] rows@[i])@, actions->Ok_0@[i] as int) by {
            greatest_leads(rows@[i]@);
        }
    }
}

/// The values of a number of actions are read at themselves; an action below zero counts from the end.
pub proof fn negative_actions_count_from_the_end(
    actions: Vec<i64>,
    rows: usize,
    columns: usize,
    places: Result<Vec<i64>, DqnError>,
    row: int,
)
    requires
        call_ensures(action_columns, (&actions, true, rows, columns), places),
        actions@.len() == rows,
        columns <= i64::MAX,
        0 <= row < rows,
        -columns <= actions@[row] < columns,
    ensures
        places is Ok && places->Ok_0@.len() == rows,
        0 <= places->Ok_0@[row] < columns,
        places->Ok_0@[row] == actions@[row] || places->Ok_0@[row] == actions@[row] + columns,
{
}

/// A double target reads the actions of the online model, and a single one its own greatest.
pub proof fn doubles_ask_the_online_model(is_double: bool, chosen: TargetActions)
    requires
        call_ensures(target_actions, (is_double,), chosen),
    ensures
        chosen == TargetActions::Online <==> is_double,
        chosen == TargetActions::Greatest <==> !is_double,
{
}

/// Errors and weights are multiplied in no narrower type than that of the errors; a weight only
/// widens them, and with weights of their own type or without fractions they stay as they are.
pub proof fn weights_never_narrow_errors(errors: DType, weights: DType, single: bool, result: DType, same: DType)
    requires
        call_ensures(product_type, (errors, weights, single), result),
        call_ensures(product_type, (errors, errors, single), same),
        errors.float_spec(),
    ensures
        same == errors,
        errors == DType::F64 ==> result == DType::F64,
        errors == DType::F32 ==> result == DType::F32 || result == DType::F64,
        result == DType::F64 ==> errors == DType::F64 || weights == DType::F64,
        weights == DType::F64 && !single ==> result == DType::F64,
        single || !weights.float_spec() ==> result == errors,
        result.float_spec(),
{
}

/// A score under the mask at a place, where there is one. A mask of one row or one column counts for
/// all of them.
pub open spec fn masked_score(
    scores: ScoreTable<Ticks>,
    mask: Option<ScoreTable<Ticks>>,
    row: int,
    column: int,
) -> Ticks {
    let score = scores.rows@[row]@[column];
    match mask {
        None => score,
        Some(table) => {
            let from = if table.rows@.len() == 1 {
                0
            } else {
                row
            };
            let at = if table.columns == 1 {
                0
            } else {
                column
            };
            let added = table.rows@[from]@[at];
            match (score.0, added.0) {
                (Some(a), Some(b)) => ticks(a + b),
                _ => Ticks(None),
            }
        },
    }
}

/// Exploration gives the selected rows the action that leads their scores under the mask, and leaves
/// every other row its own action.
pub proof fn exploration_takes_the_leading_scores(
    actions: Vec<i64>,
    selected: Vec<bool>,
    scores: ScoreTable<Ticks>,
    mask: Option<ScoreTable<Ticks>>,
    result: Result<Vec<i64>, DqnError>,
    row: int,
)
    requires
        call_ensures(dqn_exploration::<Ticks>, (&actions, &selected, &scores, &mask), result),
        result is Ok,
        scores.wf(),
        scores.columns <= i64::MAX,
        selected@.len() == actions@.len(),
        scores.rows@.len() == actions@.len(),
        mask is Some ==> mask->Some_0.wf() && mask->Some_0.rows@.len() <= usize::MAX,
        actions@.len() <= usize::MAX,
        0 <= row < actions@.len(),
    ensures
        result->Ok_0@.len() == actions@.len(),
        !selected@[row] ==> result->Ok_0@[row] == actions@[row],
        selected@[row] ==> leads(
            Seq::new(scores.columns as nat, |j: int| masked_score(scores, mask, row, j)),
            result->Ok_0@[row] as int,
        ),
{
    assert(scores.rows@[row]@.len() == scores.columns);
    let shown = Seq::new(scores.columns as nat, |j: int| masked_score(scores, mask, row, j));
    match mask {
        Some(table) => {
            let from = if table.rows@.len() == 1 {
                0
            } else {
                row
            };
            assert(table.rows@[from]@.len() == table.columns);
        },
        None => {},
    }
    assert(scored(scores, mask, row) =~= shown);
    greatest_leads(shown);
}

} // verus!
