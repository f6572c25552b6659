//! Histories of metrics, and the table that each of them is written as.
use crate::integer::{decimal_digits, Integer};
use crate::metric_snapshot::texts;
use crate::ordered::{distinct_names, find_name_finds, names_of, same_names_same_place, value_of, OrderedMap};
use crate::rl_checkpoint_format::{FloatFormat, NoFloats, ScalarModel, TrainingMetricScalar};
use crate::rl_trainer_driver::RlTrainerHook;
use crate::rl_trainer_state::{Duplicate, RlTrainerState, RlTrainerStateError};
use crate::text::{decimal_chars, from_chars, sentence, text_result, to_chars, TextResult};
use crate::trade_report::{first_seen, first_seen_push, push_unseen};
use std::sync::Arc;
use vstd::prelude::*;

verus! {

/// The metrics of one record by name.
pub type RlMetricRecord<M> = OrderedMap<M>;

/// Why metrics were not written.
#[derive(Debug)]
pub enum RlMetricsWriterError {
    Runtime(RlTrainerStateError),
    MissingMetrics,
    Directory(String),
    Table(String),
}

/// What is said of a failure.
pub open spec fn writer_words(error: RlMetricsWriterError) -> Seq<char> {
    match error {
        RlMetricsWriterError::Runtime(error) => crate::rl_trainer_state::state_words(error),
        RlMetricsWriterError::MissingMetrics => "trainer metrics have not been initialized"@,
        RlMetricsWriterError::Directory(message) => "metrics directory creation failed: "@ + message@,
        RlMetricsWriterError::Table(message) => "metrics table persistence failed: "@ + message@,
    }
}

impl RlMetricsWriterError {
    /// What is said of the failure.
    pub fn message(&self) -> (result: String)
        ensures
            result@ == writer_words(*self),
    {
        match self {
            RlMetricsWriterError::Runtime(error) => error.message(),
            RlMetricsWriterError::MissingMetrics => "trainer metrics have not been initialized".to_owned(),
            RlMetricsWriterError::Directory(message) => sentence("metrics directory creation failed: ", message.as_str(), "", ""),
            RlMetricsWriterError::Table(message) => sentence("metrics table persistence failed: ", message.as_str(), "", ""),
        }
    }
}

/// Whether a name begins with the prefix of validations.
pub open spec fn is_validation(name: Seq<char>) -> bool {
    "val/"@.is_prefix_of(name)
}

/// The entries of a validation, or the others.
pub open spec fn selected<M>(entries: Seq<(Seq<char>, M)>, validation: bool) -> Seq<(Seq<char>, M)>
    decreases entries.len(),
{
    if entries.len() == 0 {
        Seq::empty()
    } else if is_validation(entries.last().0) == validation {
        selected(entries.drop_last(), validation).push(entries.last())
    } else {
        selected(entries.drop_last(), validation)
    }
}

fn begins_with(name: &str, prefix: &str) -> (result: bool)
    ensures
        result == prefix@.is_prefix_of(name@),
{
    let whole = to_chars(name);
    let start = to_chars(prefix);
    if whole.len() < start.len() {
        return false;
    }
    let mut i: usize = 0;
    while i < start.len()
        invariant
            i <= start@.len() <= whole@.len(),
            whole@ == name@,
            start@ == prefix@,
            forall|j: int| 0 <= j < i ==> whole@[j] == start@[j],
        decreases start@.len() - i,
    {
        if whole[i] != start[i] {
            assert(whole@.take(start@.len() as int)[i as int] == whole@[i as int]);
            return false;
        }
        i += 1;
    }
    assert(whole@.take(start@.len() as int) =~= start@);
    true
}

/// The entries of a validation, or the others.
fn select<M: Duplicate>(metrics: &RlMetricRecord<M>, validation: bool) -> (result: RlMetricRecord<M>)
    ensures
        result@ == selected(metrics@, validation),
{
    let mut record: RlMetricRecord<M> = OrderedMap::new();
    let length: usize = metrics.len();
    let mut i: usize = 0;
    assert(metrics@.take(0) =~= Seq::empty());
    while i < length
        invariant
            i <= length,
            length == metrics@.len(),
            distinct_names(metrics@),
            record@ == selected(metrics@.take(i as int), validation),
            forall|k: int|
                0 <= k < record@.len() ==> exists|j: int| 0 <= j < i && metrics@[j].0 == (#[trigger] record@[k]).0,
        decreases length - i,
    {
        proof {
            assert(metrics@.take(i + 1).drop_last() =~= metrics@.take(i as int));
            assert(metrics@.take(i + 1).last() == metrics@[i as int]);
        }
        let ghost before = record@;
        let name = metrics.name_at(i);
        if begins_with(name.as_str(), "val/") == validation {
            let ghost text = name@;
            proof {
                find_name_finds(before, text);
                if crate::ordered::has_name(before, text) {
                    let place = crate::ordered::find_name(before, text)->Some_0;
                    let j = choose|j: int| 0 <= j < i && metrics@[j].0 == before[place].0;
                    assert(metrics@[j].0 == metrics@[i as int].0);
                }
            }
            record.insert(name.clone(), metrics.value_at(i).duplicate());
            proof {
                assert(record@ == before.push(metrics@[i as int]));
                assert forall|k: int| 0 <= k < record@.len() implies exists|j: int|
                    0 <= j < i + 1 && metrics@[j].0 == (#[trigger] record@[k]).0 by {
                    if k < before.len() {
                        let j = choose|j: int| 0 <= j < i && metrics@[j].0 == before[k].0;
                        assert(metrics@[j].0 == record@[k].0);
                    } else {
                        assert(metrics@[i as int].0 == record@[k].0);
                    }
                }
            }
        }
        i += 1;
    }
    assert(metrics@.take(i as int) =~= metrics@);
    record
}

/// The entries of several records.
pub open spec fn record_models<M>(records: Seq<RlMetricRecord<M>>) -> Seq<Seq<(Seq<char>, M)>> {
    Seq::new(records.len(), |i: int| records[i]@)
}

/// The histories of metrics.
pub struct RlMetricsWriter<M> {
    pub dirpath: String,
    pub train_records: Vec<RlMetricRecord<M>>,
    pub valid_records: Vec<RlMetricRecord<M>>,
}

/// A table that is to be rewritten in the directory of a writer.
#[derive(Clone, Copy, Debug, PartialEq, Eq, Structural)]
pub enum MetricsTable {
    Train,
    Validation,
}

impl MetricsTable {
    /// The name of the file.
    pub fn filename(self) -> (result: &'static str)
        ensures
            result@ == match self {
                MetricsTable::Train => "train_result.csv"@,
                MetricsTable::Validation => "validation_result.csv"@,
            },
    {
        match self {
            MetricsTable::Train => "train_result.csv",
            MetricsTable::Validation => "validation_result.csv",
        }
    }
}

impl<M: Duplicate> RlMetricsWriter<M> {
    /// A writer without records, once its directory was made.
    pub fn new(dirpath: String, directory: Result<(), String>) -> (result: Result<Self, RlMetricsWriterError>)
        ensures
            match directory {
                Ok(()) => result matches Ok(writer) && writer.dirpath@ == dirpath@ && writer.train_records@.len() == 0
                    && writer.valid_records@.len() == 0,
                Err(message) => result == Err::<Self, _>(RlMetricsWriterError::Directory(message)),
            },
    {
        match directory {
            Ok(()) => Ok(RlMetricsWriter { dirpath, train_records: Vec::new(), valid_records: Vec::new() }),
            Err(message) => Err(RlMetricsWriterError::Directory(message)),
        }
    }

    /// Adds the metrics of the trainer to a history. The table of that history is written next; a
    /// failure there keeps the record.
    pub fn record(&mut self, trainer: &RlTrainerState<M>, validation: bool) -> (result: Result<
        MetricsTable,
        RlMetricsWriterError,
    >)
        ensures
            final(self).dirpath == old(self).dirpath,
            match trainer@.metrics {
                None => {
                    &&& result == Err::<MetricsTable, _>(RlMetricsWriterError::MissingMetrics)
                    &&& final(self).train_records@ == old(self).train_records@
                    &&& final(self).valid_records@ == old(self).valid_records@
                },
                Some(metrics) => if validation {
                    &&& result == Ok::<_, RlMetricsWriterError>(MetricsTable::Validation)
                    &&& record_models(final(self).valid_records@) == record_models(old(self).valid_records@).push(
                        selected(metrics, true),
                    )
                    &&& final(self).train_records@ == old(self).train_records@
                } else {
                    &&& result == Ok::<_, RlMetricsWriterError>(MetricsTable::Train)
                    &&& record_models(final(self).train_records@) == record_models(old(self).train_records@).push(
                        selected(metrics, false),
                    )
                    &&& final(self).valid_records@ == old(self).valid_records@
                },
            },
    {
        let record = match &trainer.metrics {
            Some(metrics) => select(metrics, validation),
            None => return Err(RlMetricsWriterError::MissingMetrics),
        };
        let ghost said = record@;
        if validation {
            let ghost before = self.valid_records@;
            self.valid_records.push(record);
            assert(record_models(self.valid_records@) =~= record_models(before).push(said));
            Ok(MetricsTable::Validation)
        } else {
            let ghost before = self.train_records@;
            self.train_records.push(record);
            assert(record_models(self.train_records@) =~= record_models(before).push(said));
            Ok(MetricsTable::Train)
        }
    }

    /// Adds the metrics of training.
    pub fn on_train_end(&mut self, trainer: &RlTrainerState<M>) -> (result: Result<MetricsTable, RlMetricsWriterError>)
        ensures
            final(self).dirpath == old(self).dirpath,
            final(self).valid_records@ == old(self).valid_records@,
            match trainer@.metrics {
                None => result == Err::<MetricsTable, _>(RlMetricsWriterError::MissingMetrics)
                    && final(self).train_records@ == old(self).train_records@,
                Some(metrics) => result == Ok::<_, RlMetricsWriterError>(MetricsTable::Train) && record_models(
                    final(self).train_records@,
                ) == record_models(old(self).train_records@).push(selected(metrics, false)),
            },
    {
        self.record(trainer, false)
    }

    /// Adds the metrics of a validation under their prefixed names.
    pub fn on_validate_end(&mut self, trainer: &RlTrainerState<M>) -> (result: Result<
        MetricsTable,
        RlMetricsWriterError,
    >)
        ensures
            final(self).dirpath == old(self).dirpath,
            final(self).train_records@ == old(self).train_records@,
            match trainer@.metrics {
                None => result == Err::<MetricsTable, _>(RlMetricsWriterError::MissingMetrics)
                    && final(self).valid_records@ == old(self).valid_records@,
                Some(metrics) => result == Ok::<_, RlMetricsWriterError>(MetricsTable::Validation) && record_models(
                    final(self).valid_records@,
                ) == record_models(old(self).valid_records@).push(selected(metrics, true)),
            },
    {
        self.record(trainer, true)
    }
}

/// The history that a hook adds to, if it is one.
pub fn recorded_history(hook: RlTrainerHook) -> (result: Option<MetricsTable>)
    ensures
        result == match hook {
            RlTrainerHook::TrainEnd => Some(MetricsTable::Train),
            RlTrainerHook::ValidateEnd => Some(MetricsTable::Validation),
            _ => None,
        },
{
    match hook {
        RlTrainerHook::TrainEnd => Some(MetricsTable::Train),
        RlTrainerHook::ValidateEnd => Some(MetricsTable::Validation),
        _ => None,
    }
}

/// The two histories share the metrics out between them: each metric goes to exactly one.
pub proof fn histories_share_metrics<M>(entries: Seq<(Seq<char>, M)>)
    ensures
        selected(entries, true).len() + selected(entries, false).len() == entries.len(),
    decreases entries.len(),
{
    if entries.len() > 0 {
        histories_share_metrics(entries.drop_last());
    }
}

// ---- the table --------------------------------------------------------------------------------

/// How values are written into cells.
pub trait CellText: FloatFormat {
    /// Whether the number is none.
    open spec fn undefined(&self) -> bool {
        arbitrary()
    }

    /// The text of a number.
    open spec fn written(&self) -> Seq<char> {
        arbitrary()
    }

    /// The text of a value.
    open spec fn rendered(value: ScalarModel<Self>) -> TextResult {
        arbitrary()
    }

    fn is_undefined(&self) -> (result: bool)
        ensures
            result == self.undefined(),
    ;

    fn write(&self) -> (result: String)
        ensures
            result@ == self.written(),
    ;

    fn render(value: &TrainingMetricScalar<Self>) -> (result: Result<String, String>)
        ensures
            text_result(result) == Self::rendered(value@),
    ;
}

impl CellText for NoFloats {
    open spec fn undefined(&self) -> bool {
        true
    }

    open spec fn written(&self) -> Seq<char> {
        Seq::empty()
    }

    open spec fn rendered(value: ScalarModel<Self>) -> TextResult {
        match value {
            ScalarModel::Text(text) => Ok(text),
            ScalarModel::Integer(number) => Ok(crate::integer::decimal_text(number)),
            ScalarModel::Boolean(flag) => Ok(
                if flag {
                    "True"@
                } else {
                    "False"@
                },
            ),
            _ => Ok(""@),
        }
    }

    fn is_undefined(&self) -> (result: bool) {
        true
    }

    fn write(&self) -> (result: String) {
        String::new()
    }

    fn render(value: &TrainingMetricScalar<Self>) -> (result: Result<String, String>) {
        match value {
            TrainingMetricScalar::Text(text) => Ok(text.clone()),
            TrainingMetricScalar::Integer(number) => Ok(number.text()),
            TrainingMetricScalar::Boolean(flag) => Ok(
                if *flag {
                    "True".to_owned()
                } else {
                    "False".to_owned()
                },
            ),
            _ => Ok("".to_owned()),
        }
    }
}

/// A metric that can be written into a table.
pub trait RlMetricsCsvValue<F> {
    /// The value as it is written.
    open spec fn scalar(&self) -> ScalarModel<F> {
        arbitrary()
    }

    fn csv_scalar(&self) -> (result: TrainingMetricScalar<F>)
        ensures
            result@ == self.scalar(),
    ;
}

impl<F: Copy> RlMetricsCsvValue<F> for TrainingMetricScalar<F> {
    open spec fn scalar(&self) -> ScalarModel<F> {
        self@
    }

    fn csv_scalar(&self) -> (result: TrainingMetricScalar<F>) {
        match self {
            TrainingMetricScalar::Integer(number) => TrainingMetricScalar::Integer(number.copied()),
            TrainingMetricScalar::Float(number) => TrainingMetricScalar::Float(*number),
            TrainingMetricScalar::Text(text) => TrainingMetricScalar::Text(text.clone()),
            TrainingMetricScalar::Boolean(flag) => TrainingMetricScalar::Boolean(*flag),
            TrainingMetricScalar::Null => TrainingMetricScalar::Null,
            TrainingMetricScalar::Custom => TrainingMetricScalar::Custom,
        }
    }
}

impl<F: Copy> RlMetricsCsvValue<F> for Option<F> {
    open spec fn scalar(&self) -> ScalarModel<F> {
        match self {
            Some(number) => ScalarModel::Float(*number),
            None => ScalarModel::Null,
        }
    }

    fn csv_scalar(&self) -> (result: TrainingMetricScalar<F>) {
        match self {
            Some(number) => TrainingMetricScalar::Float(*number),
            None => TrainingMetricScalar::Null,
        }
    }
}

/// A shared value is written as the value itself.
impl<F: Copy> RlMetricsCsvValue<F> for Arc<TrainingMetricScalar<F>> {
    open spec fn scalar(&self) -> ScalarModel<F> {
        (**self)@
    }

    fn csv_scalar(&self) -> (result: TrainingMetricScalar<F>) {
        (**self).csv_scalar()
    }
}

/// What one row holds.
pub type RowModel<F> = Seq<(Seq<char>, ScalarModel<F>)>;

/// A row as it is written.
pub open spec fn row_model<F, M: RlMetricsCsvValue<F>>(entries: Seq<(Seq<char>, M)>) -> RowModel<F> {
    Seq::new(entries.len(), |i: int| (entries[i].0, entries[i].1.scalar()))
}

/// Rows as they are written.
pub open spec fn row_models<F, M: RlMetricsCsvValue<F>>(records: Seq<RlMetricRecord<M>>) -> Seq<RowModel<F>> {
    Seq::new(records.len(), |i: int| row_model::<F, M>(records[i]@))
}

/// The names of all rows, one row after another.
pub open spec fn all_names<F>(rows: Seq<RowModel<F>>) -> Seq<Seq<char>>
    decreases rows.len(),
{
    if rows.len() == 0 {
        Seq::empty()
    } else {
        all_names(rows.drop_last()) + names_of(rows.last())
    }
}

/// The columns of a table, in the order in which their names first came up.
pub open spec fn columns_of<F>(rows: Seq<RowModel<F>>) -> Seq<Seq<char>> {
    first_seen(all_names(rows))
}

/// The values of a column; none where a row lacks the name.
pub open spec fn column_values<F>(rows: Seq<RowModel<F>>, name: Seq<char>) -> Seq<Option<ScalarModel<F>>> {
    Seq::new(rows.len(), |i: int| value_of(rows[i], name))
}

/// Whether a column holds no explicit null before a row.
pub open spec fn before_null<F>(values: Seq<Option<ScalarModel<F>>>, row: int) -> bool {
    forall|k: int| 0 <= k < row && k < values.len() ==> #[trigger] values[k] != Some(ScalarModel::<F>::Null)
}

/// Whether a value is an integer that no finite number is near to.
pub open spec fn too_large<F: FloatFormat>(value: Option<ScalarModel<F>>) -> bool {
    value matches Some(ScalarModel::Integer(number)) && F::near(number) is None
}

/// Whether a value is an integer of the signed range below zero.
pub open spec fn signed_negative<F>(value: Option<ScalarModel<F>>) -> bool {
    value matches Some(ScalarModel::Integer(number)) && i64::MIN <= number < 0
}

/// Whether a value is an integer of the unsigned range only.
pub open spec fn unsigned_only<F>(value: Option<ScalarModel<F>>) -> bool {
    value matches Some(ScalarModel::Integer(number)) && i64::MAX < number <= u64::MAX
}

/// Whether one of the first rows satisfies a condition before any explicit null.
pub open spec fn negative_among<F>(values: Seq<Option<ScalarModel<F>>>, rows: int) -> bool {
    exists|k: int| 0 <= k < rows && before_null(values, k) && signed_negative(#[trigger] values[k])
}

/// Whether one of the first rows is unsigned only, before any explicit null.
pub open spec fn unsigned_among<F>(values: Seq<Option<ScalarModel<F>>>, rows: int) -> bool {
    exists|k: int| 0 <= k < rows && before_null(values, k) && unsigned_only(#[trigger] values[k])
}

/// Whether a row settles that a column is not one of numbers: by a text, or by integers that fit
/// no common integer range. An explicit null before them lifts the ranges.
pub open spec fn settles<F: FloatFormat>(values: Seq<Option<ScalarModel<F>>>, row: int) -> bool {
    match values[row] {
        Some(ScalarModel::Text(_)) => true,
        Some(ScalarModel::Custom) => true,
        Some(ScalarModel::Integer(number)) => before_null(values, row) && (number < i64::MIN || number > u64::MAX || (
        negative_among(values, row + 1) && unsigned_among(values, row + 1))),
        _ => false,
    }
}

/// Whether one of the rows is missing, null or a float.
pub open spec fn floats_among<F>(values: Seq<Option<ScalarModel<F>>>, rows: int) -> bool {
    exists|k: int|
        0 <= k < rows && match #[trigger] values[k] {
            None => true,
            Some(ScalarModel::Float(_)) => true,
            Some(ScalarModel::Null) => true,
            _ => false,
        }
}

/// Whether one of the rows is a boolean.
pub open spec fn booleans_among<F>(values: Seq<Option<ScalarModel<F>>>, rows: int) -> bool {
    exists|k: int| 0 <= k < rows && (#[trigger] values[k]) matches Some(ScalarModel::Boolean(_))
}

/// Whether a column is written as floats, from a row on; none where an integer comes up that is
/// too large for one.
pub open spec fn floating_from<F: FloatFormat>(values: Seq<Option<ScalarModel<F>>>, row: int) -> Option<bool>
    decreases values.len() - row,
{
    if row < 0 || row >= values.len() {
        Some(floats_among(values, values.len() as int) && !booleans_among(values, values.len() as int))
    } else if too_large(values[row]) {
        None
    } else if settles(values, row) {
        Some(false)
    } else {
        floating_from(values, row + 1)
    }
}

/// What a cell shows.
pub open spec fn cell<F: CellText>(value: Option<ScalarModel<F>>, floating: bool) -> TextResult {
    match value {
        None => Ok(Seq::empty()),
        Some(ScalarModel::Null) => Ok(Seq::empty()),
        Some(ScalarModel::Float(number)) => if number.undefined() {
            Ok(Seq::empty())
        } else {
            F::rendered(ScalarModel::Float(number))
        },
        Some(ScalarModel::Integer(number)) => if floating {
            match F::near(number) {
                Some(near) => Ok(near.written()),
                None => F::rendered(ScalarModel::Integer(number)),
            }
        } else {
            F::rendered(ScalarModel::Integer(number))
        },
        Some(other) => F::rendered(other),
    }
}

/// The fields of a row up to a column: its number and its cells.
pub open spec fn row_fields<F: CellText>(
    row: RowModel<F>,
    number: nat,
    columns: Seq<Seq<char>>,
    kinds: Seq<bool>,
    count: nat,
) -> Result<Seq<Seq<char>>, Seq<char>>
    decreases count,
{
    if count == 0 {
        Ok(seq![decimal_digits(number)])
    } else {
        match row_fields(row, number, columns, kinds, (count - 1) as nat) {
            Ok(fields) => match cell(value_of(row, columns[count - 1]), kinds[count - 1]) {
                Ok(text) => Ok(fields.push(text)),
                Err(error) => Err(error),
            },
            Err(error) => Err(error),
        }
    }
}

/// The line that `csv::Writer::write_record` writes for some fields, which end with a carriage
/// return and a line feed or with a given byte.
pub uninterp spec fn csv_line(fields: Seq<Seq<char>>, terminator: Option<u8>) -> Option<Seq<u8>>;

/// `csv::Writer::write_record` of `csv`, on a writer of its own: the line for some fields.
#[verifier::external_body]
fn csv_record(fields: &Vec<String>, terminator: Option<u8>) -> (result: Option<Vec<u8>>)
    ensures
        match result {
            Some(line) => csv_line(texts(fields@), terminator) == Some(line@),
            None => csv_line(texts(fields@), terminator) is None,
        },
{
    let ending = terminator.map_or(csv::Terminator::CRLF, csv::Terminator::Any);
    let mut writer = csv::WriterBuilder::new().terminator(ending).from_writer(Vec::new());
    writer.write_record(fields).ok()?;
    writer.into_inner().ok()
}

/// Why a table could not be written.
#[derive(Debug)]
pub enum RlMetricsCsvError {
    /// An integer is too large for a float.
    IntegerOverflow,
    /// A line could not be written.
    Csv,
    /// A value could not be rendered.
    Format(String),
}

/// Why a table could not be written.
pub enum CsvFailure {
    IntegerOverflow,
    Csv,
    Format(Seq<char>),
}

impl View for RlMetricsCsvError {
    type V = CsvFailure;

    open spec fn view(&self) -> CsvFailure {
        match self {
            RlMetricsCsvError::IntegerOverflow => CsvFailure::IntegerOverflow,
            RlMetricsCsvError::Csv => CsvFailure::Csv,
            RlMetricsCsvError::Format(message) => CsvFailure::Format(message@),
        }
    }
}

impl RlMetricsCsvError {
    /// What is said of the failure.
    pub fn message(&self) -> (result: String)
        ensures
            result@ == match self {
                RlMetricsCsvError::IntegerOverflow => "int too large to convert to float"@,
                RlMetricsCsvError::Csv => "the table cannot be written"@,
                RlMetricsCsvError::Format(message) => "metric formatting failed: "@ + message@,
            },
    {
        match self {
            RlMetricsCsvError::IntegerOverflow => "int too large to convert to float".to_owned(),
            RlMetricsCsvError::Csv => "the table cannot be written".to_owned(),
            RlMetricsCsvError::Format(message) => sentence("metric formatting failed: ", message.as_str(), "", ""),
        }
    }
}

/// What was written of a table, and why no more.
#[derive(Debug)]
pub struct CsvTable {
    pub bytes: Vec<u8>,
    pub failure: Option<RlMetricsCsvError>,
}

/// What was written of a table, and why no more.
pub struct TableModel {
    pub bytes: Seq<u8>,
    pub failure: Option<CsvFailure>,
}

impl View for CsvTable {
    type V = TableModel;

    open spec fn view(&self) -> TableModel {
        TableModel {
            bytes: self.bytes@,
            failure: match self.failure {
                Some(error) => Some(error@),
                None => None,
            },
        }
    }
}

/// A table with one line more, if nothing failed before.
pub open spec fn line_added(table: TableModel, fields: Result<Seq<Seq<char>>, Seq<char>>, terminator: Option<u8>) -> TableModel {
    if table.failure is Some {
        table
    } else {
        match fields {
            Err(error) => TableModel { failure: Some(CsvFailure::Format(error)), ..table },
            Ok(texts) => match csv_line(texts, terminator) {
                Some(line) => TableModel { bytes: table.bytes + line, ..table },
                None => TableModel { failure: Some(CsvFailure::Csv), ..table },
            },
        }
    }
}

/// The head of a table: a field without a name for the numbers of the rows, then the columns.
pub open spec fn head_fields(columns: Seq<Seq<char>>) -> Seq<Seq<char>> {
    seq![Seq::<char>::empty()] + columns
}

/// The head and the first rows of a table.
pub open spec fn written<F: CellText>(
    rows: Seq<RowModel<F>>,
    columns: Seq<Seq<char>>,
    kinds: Seq<bool>,
    terminator: Option<u8>,
    count: nat,
) -> TableModel
    decreases count,
{
    if count == 0 {
        line_added(TableModel { bytes: Seq::empty(), failure: None }, Ok(head_fields(columns)), terminator)
    } else {
        line_added(
            written(rows, columns, kinds, terminator, (count - 1) as nat),
            row_fields(rows[count - 1], (count - 1) as nat, columns, kinds, columns.len()),
            terminator,
        )
    }
}

/// Which columns are written as floats; none where an integer is too large.
pub open spec fn column_kinds<F: FloatFormat>(rows: Seq<RowModel<F>>, columns: Seq<Seq<char>>) -> Option<Seq<bool>>
    decreases columns.len(),
{
    if columns.len() == 0 {
        Some(Seq::empty())
    } else {
        match column_kinds(rows, columns.drop_last()) {
            Some(kinds) => match floating_from(column_values(rows, columns.last()), 0) {
                Some(floating) => Some(kinds.push(floating)),
                None => None,
            },
            None => None,
        }
    }
}

/// The table of some rows. A table without columns has no rows.
pub open spec fn table_of<F: CellText>(rows: Seq<RowModel<F>>, terminator: Option<u8>) -> TableModel {
    let columns = columns_of(rows);
    match column_kinds(rows, columns) {
        None => TableModel { bytes: Seq::empty(), failure: Some(CsvFailure::IntegerOverflow) },
        Some(kinds) => written(
            rows,
            columns,
            kinds,
            terminator,
            if columns.len() == 0 {
                0
            } else {
                rows.len()
            },
        ),
    }
}

fn find_columns<F, M: RlMetricsCsvValue<F>>(records: &Vec<RlMetricRecord<M>>) -> (result: Vec<String>)
    ensures
        texts(result@) == columns_of(row_models::<F, M>(records@)),
{
    let ghost rows = row_models::<F, M>(records@);
    let mut names: Vec<String> = Vec::new();
    let mut i: usize = 0;
    proof {
        assert(rows.take(0) =~= Seq::empty());
        assert(texts(names@) =~= Seq::empty());
    }
    while i < records.len()
        invariant
            i <= records@.len(),
            rows == row_models::<F, M>(records@),
            texts(names@) == first_seen(all_names(rows.take(i as int))),
        decreases records@.len() - i,
    {
        let record = &records[i];
        let length: usize = record.len();
        let ghost before = all_names(rows.take(i as int));
        let ghost row_names = names_of(rows[i as int]);
        let mut k: usize = 0;
        assert(before + row_names.take(0) =~= before);
        while k < length
            invariant
                k <= length,
                length == record@.len(),
                row_names.len() == length,
                forall|j: int| 0 <= j < length ==> row_names[j] == (#[trigger] record@[j]).0,
                texts(names@) == first_seen(before + row_names.take(k as int)),
            decreases length - k,
        {
            let name = record.name_at(k);
            proof {
                first_seen_push(before + row_names.take(k as int), name@);
                assert((before + row_names.take(k as int)).push(name@) =~= before + row_names.take(k + 1));
            }
            push_unseen(&mut names, name.as_str());
            k += 1;
        }
        proof {
            assert(row_names.take(k as int) =~= row_names);
            assert(rows.take(i + 1).drop_last() =~= rows.take(i as int));
            assert(rows.take(i + 1).last() == rows[i as int]);
        }
        i += 1;
    }
    assert(rows.take(i as int) =~= rows);
    names
}

/// The value of a record under a name, as it is written.
fn scalar_at<F, M: RlMetricsCsvValue<F>>(record: &RlMetricRecord<M>, name: &str) -> (result: Option<TrainingMetricScalar<F>>)
    ensures
        value_of(row_model::<F, M>(record@), name@) == match result {
            Some(scalar) => Some(scalar@),
            None => None,
        },
{
    proof {
        same_names_same_place(record@, row_model::<F, M>(record@), name@);
        find_name_finds(record@, name@);
    }
    match record.get(name) {
        Some(value) => Some(value.csv_scalar()),
        None => None,
    }
}

fn within_i64(number: &Integer) -> (result: Option<bool>)
    ensures
        match result {
            Some(negative) => i64::MIN <= number@ <= i64::MAX && negative == (number@ < 0),
            None => number@ < i64::MIN || number@ > i64::MAX,
        },
{
    match number.to_i128() {
        Some(value) => if i64::MIN as i128 <= value && value <= i64::MAX as i128 {
            Some(value < 0)
        } else {
            None
        },
        None => None,
    }
}

fn within_u64(number: &Integer) -> (result: bool)
    ensures
        result == (0 <= number@ <= u64::MAX),
{
    match number.to_i128() {
        Some(value) => 0 <= value && value <= u64::MAX as i128,
        None => false,
    }
}

/// Whether a column is written as floats; none where an integer is too large for one.
fn float_column<F: FloatFormat, M: RlMetricsCsvValue<F>>(records: &Vec<RlMetricRecord<M>>, name: &str) -> (result: Option<bool>)
    ensures
        result == floating_from(column_values(row_models::<F, M>(records@), name@), 0),
{
    let ghost values = column_values(row_models::<F, M>(records@), name@);
    let mut floating = false;
    let mut seen_null = false;
    let mut boolean = false;
    let mut negative = false;
    let mut unsigned_large = false;
    let mut i: usize = 0;
    while i < records.len()
        invariant
            i <= records@.len(),
            values == column_values(row_models::<F, M>(records@), name@),
            floating_from(values, 0) == floating_from(values, i as int),
            floating == floats_among(values, i as int),
            boolean == booleans_among(values, i as int),
            seen_null == !before_null(values, i as int),
            negative == negative_among(values, i as int),
            unsigned_large == unsigned_among(values, i as int),
        decreases records@.len() - i,
    {
        let value: Option<TrainingMetricScalar<F>> = scalar_at(&records[i], name);
        let ghost here = values[i as int];
        proof {
            assert(here == match value {
                Some(scalar) => Some(scalar@),
                None => None,
            });
            assert(floats_among(values, i + 1) == (floats_among(values, i as int) || match here {
                None => true,
                Some(ScalarModel::Float(_)) => true,
                Some(ScalarModel::Null) => true,
                _ => false,
            }));
            assert(booleans_among(values, i + 1) == (booleans_among(values, i as int) || here matches Some(
                ScalarModel::Boolean(_),
            )));
            assert(before_null(values, i + 1) == (before_null(values, i as int) && here != Some(
                ScalarModel::<F>::Null,
            )));
            assert(negative_among(values, i + 1) == (negative_among(values, i as int) || (before_null(
                values,
                i as int,
            ) && signed_negative(here))));
            assert(unsigned_among(values, i + 1) == (unsigned_among(values, i as int) || (before_null(
                values,
                i as int,
            ) && unsigned_only(here))));
        }
        match &value {
            None => {
                floating = true;
            },
            Some(TrainingMetricScalar::Float(_)) => {
                floating = true;
            },
            Some(TrainingMetricScalar::Null) => {
                floating = true;
                seen_null = true;
            },
            Some(TrainingMetricScalar::Integer(number)) => {
                if F::from_integer(number).is_none() {
                    return None;
                }
                if !seen_null {
                    match within_i64(number) {
                        Some(below) => {
                            negative = negative || below;
                        },
                        None => {
                            if within_u64(number) {
                                unsigned_large = true;
                            } else {
                                return Some(false);
                            }
                        },
                    }
                    if negative && unsigned_large {
                        return Some(false);
                    }
                }
            },
            Some(TrainingMetricScalar::Boolean(_)) => {
                boolean = true;
            },
            Some(TrainingMetricScalar::Text(_)) => {
                return Some(false);
            },
            Some(TrainingMetricScalar::Custom) => {
                return Some(false);
            },
        }
        i += 1;
    }
    Some(floating && !boolean)
}

fn csv_cell<F: CellText>(value: &Option<TrainingMetricScalar<F>>, floating: bool) -> (result: Result<String, String>)
    ensures
        text_result(result) == cell(
            match *value {
                Some(scalar) => Some(scalar@),
                None => None,
            },
            floating,
        ),
{
    match value {
        None => Ok(String::new()),
        Some(TrainingMetricScalar::Null) => Ok(String::new()),
        Some(scalar) => {
            match scalar {
                TrainingMetricScalar::Float(number) => {
                    if number.is_undefined() {
                        return Ok(String::new());
                    }
                },
                TrainingMetricScalar::Integer(number) => {
                    if floating {
                        match F::from_integer(number) {
                            Some(near) => return Ok(near.write()),
                            None => {},
                        }
                    }
                },
                _ => {},
            }
            F::render(scalar)
        },
    }
}

fn build_row<F: CellText, M: RlMetricsCsvValue<F>>(
    record: &RlMetricRecord<M>,
    number: usize,
    columns: &Vec<String>,
    kinds: &Vec<bool>,
) -> (result: Result<Vec<String>, String>)
    requires
        kinds@.len() == columns@.len(),
    ensures
        match result {
            Ok(fields) => row_fields(
                row_model::<F, M>(record@),
                number as nat,
                texts(columns@),
                kinds@,
                columns@.len(),
            ) == Ok::<Seq<Seq<char>>, Seq<char>>(texts(fields@)),
            Err(error) => row_fields(
                row_model::<F, M>(record@),
                number as nat,
                texts(columns@),
                kinds@,
                columns@.len(),
            ) == Err::<Seq<Seq<char>>, Seq<char>>(error@),
        },
{
    let mut fields: Vec<String> = Vec::new();
    fields.push(from_chars(decimal_chars(number).as_slice()));
    let mut k: usize = 0;
    let ghost row = row_model::<F, M>(record@);
    let ghost names = texts(columns@);
    assert(texts(fields@) =~= seq![decimal_digits(number as nat)]);
    while k < columns.len()
        invariant
            k <= columns@.len(),
            kinds@.len() == columns@.len(),
            row == row_model::<F, M>(record@),
            names == texts(columns@),
            row_fields(row, number as nat, names, kinds@, k as nat) == Ok::<Seq<Seq<char>>, Seq<char>>(texts(fields@)),
        decreases columns@.len() - k,
    {
        let value: Option<TrainingMetricScalar<F>> = scalar_at(record, columns[k].as_str());
        match csv_cell(&value, kinds[k]) {
            Ok(text) => {
                let ghost before = texts(fields@);
                let ghost shown = text@;
                fields.push(text);
                assert(texts(fields@) =~= before.push(shown));
            },
            Err(error) => {
                proof {
                    let failed = row_fields(row, number as nat, names, kinds@, (k + 1) as nat);
                    assert(failed == Err::<Seq<Seq<char>>, Seq<char>>(error@));
                    row_failure_stays(row, number as nat, names, kinds@, (k + 1) as nat, columns@.len());
                }
                return Err(error);
            },
        }
        k += 1;
    }
    Ok(fields)
}

proof fn row_failure_stays<F: CellText>(
    row: RowModel<F>,
    number: nat,
    columns: Seq<Seq<char>>,
    kinds: Seq<bool>,
    count: nat,
    later: nat,
)
    requires
        row_fields(row, number, columns, kinds, count) is Err,
        count <= later,
    ensures
        row_fields(row, number, columns, kinds, later) == row_fields(row, number, columns, kinds, count),
    decreases later - count,
{
    if count < later {
        row_failure_stays(row, number, columns, kinds, count, (later - 1) as nat);
    }
}

proof fn failure_stays<F: CellText>(
    rows: Seq<RowModel<F>>,
    columns: Seq<Seq<char>>,
    kinds: Seq<bool>,
    terminator: Option<u8>,
    count: nat,
    later: nat,
)
    requires
        written(rows, columns, kinds, terminator, count).failure is Some,
        count <= later,
    ensures
        written(rows, columns, kinds, terminator, later) == written(rows, columns, kinds, terminator, count),
    decreases later - count,
{
    if count < later {
        failure_stays(rows, columns, kinds, terminator, count, (later - 1) as nat);
    }
}

proof fn overflow_stays<F: FloatFormat>(rows: Seq<RowModel<F>>, columns: Seq<Seq<char>>, count: int)
    requires
        0 <= count <= columns.len(),
        column_kinds(rows, columns.take(count)) is None,
    ensures
        column_kinds(rows, columns) is None,
    decreases columns.len() - count,
{
    if count < columns.len() {
        assert(columns.take(count + 1).drop_last() =~= columns.take(count));
        overflow_stays(rows, columns, count + 1);
    } else {
        assert(columns.take(count) =~= columns);
    }
}

/// Adds the bytes of a line.
fn append_bytes(target: &mut Vec<u8>, line: &Vec<u8>)
    ensures
        final(target)@ == old(target)@ + line@,
{
    let mut i: usize = 0;
    assert(target@ =~= old(target)@ + line@.take(0));
    while i < line.len()
        invariant
            i <= line@.len(),
            target@ == old(target)@ + line@.take(i as int),
        decreases line@.len() - i,
    {
        target.push(line[i]);
        i += 1;
        assert(target@ =~= old(target)@ + line@.take(i as int));
    }
    assert(line@.take(i as int) =~= line@);
}

/// Writes the table of a history. A failure keeps the lines that were written before it.
pub fn write_rl_metrics_csv<F: CellText, M: RlMetricsCsvValue<F>>(
    records: &Vec<RlMetricRecord<M>>,
    terminator: Option<u8>,
) -> (result: CsvTable)
    ensures
        result@ == table_of(row_models::<F, M>(records@), terminator),
{
    let ghost rows = row_models::<F, M>(records@);
    let columns = find_columns::<F, M>(records);
    let ghost names = texts(columns@);
    let mut kinds: Vec<bool> = Vec::new();
    let mut k: usize = 0;
    assert(names.take(0) =~= Seq::<Seq<char>>::empty());
    while k < columns.len()
        invariant
            k <= columns@.len(),
            names == texts(columns@),
            rows == row_models::<F, M>(records@),
            names == columns_of(rows),
            kinds@.len() == k,
            column_kinds(rows, names.take(k as int)) == Some(kinds@),
        decreases columns@.len() - k,
    {
        proof {
            assert(names.take(k + 1).drop_last() =~= names.take(k as int));
            assert(names.take(k + 1).last() == columns@[k as int]@);
        }
        match float_column::<F, M>(records, columns[k].as_str()) {
            Some(floating) => {
                kinds.push(floating);
            },
            None => {
                proof {
                    overflow_stays(rows, names, k + 1);
                }
                let table = CsvTable { bytes: Vec::new(), failure: Some(RlMetricsCsvError::IntegerOverflow) };
                assert(table@.bytes =~= Seq::<u8>::empty());
                return table;
            },
        }
        k += 1;
    }
    assert(names.take(k as int) =~= names);
    let mut head: Vec<String> = Vec::new();
    head.push(String::new());
    let mut h: usize = 0;
    assert(texts(head@) =~= head_fields(names.take(0)));
    while h < columns.len()
        invariant
            h <= columns@.len(),
            names == texts(columns@),
            texts(head@) == head_fields(names.take(h as int)),
        decreases columns@.len() - h,
    {
        let ghost before = texts(head@);
        let name = columns[h].clone();
        proof {
            assert(head_fields(names.take(h + 1)) =~= head_fields(names.take(h as int)).push(names[h as int]));
        }
        head.push(name);
        assert(texts(head@) =~= before.push(names[h as int]));
        h += 1;
    }
    assert(names.take(h as int) =~= names);
    let mut bytes: Vec<u8> = Vec::new();
    let ghost count = if names.len() == 0 {
        0nat
    } else {
        rows.len()
    };
    match csv_record(&head, terminator) {
        Some(line) => {
            append_bytes(&mut bytes, &line);
        },
        None => {
            proof {
                failure_stays(rows, names, kinds@, terminator, 0, count);
            }
            return CsvTable { bytes, failure: Some(RlMetricsCsvError::Csv) };
        },
    }
    if columns.len() == 0 {
        return CsvTable { bytes, failure: None };
    }
    let mut i: usize = 0;
    while i < records.len()
        invariant
            i <= records@.len(),
            rows == row_models::<F, M>(records@),
            names == texts(columns@),
            kinds@.len() == columns@.len(),
            count == rows.len(),
            written(rows, names, kinds@, terminator, i as nat) == (TableModel { bytes: bytes@, failure: None }),
            written(rows, names, kinds@, terminator, count) == table_of(rows, terminator),
        decreases records@.len() - i,
    {
        let fields = match build_row::<F, M>(&records[i], i, &columns, &kinds) {
            Ok(fields) => fields,
            Err(error) => {
                proof {
                    failure_stays(rows, names, kinds@, terminator, (i + 1) as nat, count);
                }
                return CsvTable { bytes, failure: Some(RlMetricsCsvError::Format(error)) };
            },
        };
        match csv_record(&fields, terminator) {
            Some(line) => {
                append_bytes(&mut bytes, &line);
            },
            None => {
                proof {
                    failure_stays(rows, names, kinds@, terminator, (i + 1) as nat, count);
                }
                return CsvTable { bytes, failure: Some(RlMetricsCsvError::Csv) };
            },
        }
        i += 1;
    }
    CsvTable { bytes, failure: None }
}

/// A metric goes into one table: into that of validations where its name begins with `val/`, and
/// otherwise into that of trainings. What is recorded of it is its value.
pub proof fn metrics_go_into_their_table<M: Duplicate>(
    writer: &mut RlMetricsWriter<M>,
    trainer: RlTrainerState<M>,
    validation: bool,
    result: Result<MetricsTable, RlMetricsWriterError>,
    name: Seq<char>,
)
    requires
        call_ensures(RlMetricsWriter::<M>::record, (writer, &trainer, validation), result),
        trainer@.metrics is Some,
        distinct_names(trainer@.metrics->Some_0),
    ensures
        result is Ok,
        ({
            let (kept, before, others, others_before) = if validation {
                (final(writer).valid_records@, old(writer).valid_records@, final(writer).train_records@, old(
                    writer,
                ).train_records@)
            } else {
                (final(writer).train_records@, old(writer).train_records@, final(writer).valid_records@, old(
                    writer,
                ).valid_records@)
            };
            let marked = name.len() >= 4 && name[0] == 'v' && name[1] == 'a' && name[2] == 'l' && name[3] == '/';
            &&& others == others_before
            &&& kept.len() == before.len() + 1
            &&& value_of(kept.last()@, name) == if marked == validation {
                value_of(trainer@.metrics->Some_0, name)
            } else {
                None
            }
        }),
{
    reveal_strlit("val/");
    let metrics = trainer@.metrics->Some_0;
    let kept = if validation {
        final(writer).valid_records@
    } else {
        final(writer).train_records@
    };
    let before = if validation {
        old(writer).valid_records@
    } else {
        old(writer).train_records@
    };
    assert(record_models(kept).len() == record_models(before).len() + 1);
    assert(record_models(kept).last() == kept.last()@);
    selections_split(metrics, validation, name);
    let marked = name.len() >= 4 && name[0] == 'v' && name[1] == 'a' && name[2] == 'l' && name[3] == '/';
    if marked {
        assert(name.subrange(0, 4) =~= "val/"@);
    }
    if is_validation(name) {
        let front = name.subrange(0, "val/"@.len() as int);
        assert("val/"@ =~= front);
        assert(front[0] == name[0] && front[1] == name[1] && front[2] == name[2] && front[3] == name[3]);
        assert("val/"@[0] == 'v' && "val/"@[1] == 'a' && "val/"@[2] == 'l' && "val/"@[3] == '/');
    }
    assert(is_validation(name) == marked);
}

proof fn selections_split<M>(entries: Seq<(Seq<char>, M)>, validation: bool, name: Seq<char>)
    requires
        distinct_names(entries),
    ensures
        value_of(selected(entries, validation), name) == if is_validation(name) == validation {
            value_of(entries, name)
        } else {
            None
        },
    decreases entries.len(),
{
    find_name_finds(entries, name);
    find_name_finds(selected(entries, validation), name);
    if entries.len() > 0 {
        let fewer = entries.drop_last();
        assert(distinct_names(fewer)) by {
            assert forall|i: int, j: int| 0 <= i < j < fewer.len() implies fewer[i].0 != fewer[j].0 by {
                assert(entries[i].0 != entries[j].0);
            }
        }
        selections_split(fewer, validation, name);
        let before = selected(fewer, validation);
        find_name_finds(fewer, name);
        find_name_finds(before, name);
        let last = entries.len() - 1;
        if entries[last].0 == name && value_of(fewer, name) is Some {
            let k = crate::ordered::find_name(fewer, name)->Some_0;
            assert(entries[k].0 != entries[last].0);
        }
        if is_validation(entries.last().0) == validation {
            let after = before.push(entries.last());
            assert(after == selected(entries, validation));
            assert(after.drop_last() =~= before);
        }
    }
}

/// A column of integers that every row has is written as integers, and one that some row lacks as
/// floats.
pub proof fn gaps_make_integers_floats<F: FloatFormat>(values: Seq<Option<ScalarModel<F>>>, from: int)
    requires
        0 <= from <= values.len(),
        values.len() > 0,
        forall|i: int|
            0 <= i < values.len() ==> (#[trigger] values[i] is None || (values[i] matches Some(ScalarModel::Integer(number))
                && i64::MIN <= number <= i64::MAX && F::near(number) is Some)),
    ensures
        (forall|i: int| 0 <= i < values.len() ==> #[trigger] values[i] is Some) ==> floating_from(values, from) == Some(false),
        (exists|i: int| 0 <= i < values.len() && #[trigger] values[i] is None) ==> floating_from(values, from) == Some(true),
    decreases values.len() - from,
{
    if from < values.len() {
        gaps_make_integers_floats(values, from + 1);
        assert(values[from] is None || values[from] is Some);
        assert(!unsigned_among(values, from + 1)) by {
            assert forall|k: int| 0 <= k < from + 1 implies !unsigned_only(#[trigger] values[k]) by {}
        }
        assert(!too_large(values[from]));
        assert(!settles(values, from));
    } else {
        assert(!booleans_among(values, values.len() as int)) by {
            assert forall|k: int| 0 <= k < values.len() implies !((#[trigger] values[k]) matches Some(ScalarModel::Boolean(_))) by {}
        }
        if exists|i: int| 0 <= i < values.len() && #[trigger] values[i] is None {
            let k = choose|i: int| 0 <= i < values.len() && #[trigger] values[i] is None;
            assert(values[k] is None);
            assert(floats_among(values, values.len() as int));
        } else {
            assert forall|k: int| 0 <= k < values.len() implies !(match #[trigger] values[k] {
                None => true,
                Some(ScalarModel::Float(_)) => true,
                Some(ScalarModel::Null) => true,
                _ => false,
            }) by {
                assert(!(values[k] is None));
            }
            assert(!floats_among(values, values.len() as int));
        }
    }
}

} // verus!
