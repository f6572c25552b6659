//! Per-stock metrics and the label-aligned arithmetic on them.
use vstd::prelude::*;

use crate::number::Number;
use crate::ordered::{distinct_names, find_name, find_name_finds, find_name_is, names_of, value_of, OrderedMap};
use crate::report_indicator::IndicatorError;
use crate::text::{same_text, text_less, text_lt, text_lt_irreflexive, text_lt_total, text_lt_transitive};

verus! {

/// The labelled values of a metric, in order.
pub type Entries<V> = Seq<(Seq<char>, V)>;

/// A validated metric: one value per stock, no stock twice.
pub struct MetricSnapshot<V> {
    index: Vec<String>,
    values: Vec<V>,
}

/// Labels paired with values.
pub open spec fn zipped<V>(index: Seq<String>, values: Seq<V>) -> Entries<V> {
    Seq::new(index.len(), |i: int| (index[i]@, values[i]))
}

/// The value under a label, or the missing value.
pub open spec fn at_label<V: Number>(entries: Entries<V>, stock: Seq<char>) -> V {
    match value_of(entries, stock) {
        Some(value) => value,
        None => V::nothing_spec(),
    }
}

/// Whether a label occurs in at least one of several metrics.
pub open spec fn labelled<V>(metrics: Seq<Entries<V>>, stock: Seq<char>) -> bool {
    exists|i: int, j: int| 0 <= i < metrics.len() && 0 <= j < metrics[i].len() && #[trigger] metrics[i][j].0 == stock
}

/// Whether labels come in strictly increasing order.
pub open spec fn increasing(names: Seq<Seq<char>>) -> bool {
    forall|i: int, j: int| 0 <= i < j < names.len() ==> text_lt(names[i], names[j])
}

/// Whether `names` are the labels of several metrics, each once, in increasing order.
pub open spec fn is_sorted_union<V>(names: Seq<Seq<char>>, metrics: Seq<Entries<V>>) -> bool {
    &&& increasing(names)
    &&& forall|stock: Seq<char>| #[trigger] names.contains(stock) <==> labelled(metrics, stock)
}

/// Whether two metrics carry the same labels.
pub open spec fn same_labels<V>(left: Entries<V>, right: Entries<V>) -> bool {
    forall|stock: Seq<char>| #![trigger find_name(left, stock)] #![trigger find_name(right, stock)]
        find_name(left, stock) is Some <==> find_name(right, stock) is Some
}

/// Two strictly increasing sequences with the same members are equal.
pub proof fn increasing_is_unique(a: Seq<Seq<char>>, b: Seq<Seq<char>>)
    requires
        increasing(a),
        increasing(b),
        forall|stock: Seq<char>| #[trigger] a.contains(stock) <==> b.contains(stock),
    ensures
        a == b,
    decreases a.len(),
{
    if a.len() == 0 {
        if b.len() > 0 {
            assert(b.contains(b[0]));
            assert(a.contains(b[0]));
        }
        assert(a =~= b);
    } else {
        assert(a.contains(a.last()));
        assert(b.contains(a.last()));
        assert(b.len() > 0);
        assert(b.contains(b.last()));
        assert(a.contains(b.last()));
        let i = choose|i: int| 0 <= i < a.len() && a[i] == b.last();
        let j = choose|j: int| 0 <= j < b.len() && b[j] == a.last();
        if a.last() != b.last() {
            assert(i < a.len() - 1 && j < b.len() - 1);
            assert(text_lt(a[i], a.last()));
            assert(text_lt(b[j], b.last()));
            text_lt_transitive(a.last(), b.last(), a.last());
            text_lt_irreflexive(a.last());
        }
        let x = a.drop_last();
        let y = b.drop_last();
        assert forall|stock: Seq<char>| #[trigger] x.contains(stock) <==> y.contains(stock) by {
            if x.contains(stock) {
                let k = choose|k: int| 0 <= k < x.len() && x[k] == stock;
                assert(a[k] == stock);
                assert(a.contains(stock));
                let m = choose|m: int| 0 <= m < b.len() && b[m] == stock;
                text_lt_irreflexive(stock);
                assert(text_lt(a[k], a.last()));
                assert(m != b.len() - 1);
                assert(y[m] == stock);
            }
            if y.contains(stock) {
                let k = choose|k: int| 0 <= k < y.len() && y[k] == stock;
                assert(b[k] == stock);
                assert(b.contains(stock));
                assert(a.contains(stock));
                let m = choose|m: int| 0 <= m < a.len() && a[m] == stock;
                text_lt_irreflexive(stock);
                assert(text_lt(b[k], b.last()));
                assert(m != a.len() - 1);
                assert(x[m] == stock);
            }
        }
        increasing_is_unique(x, y);
        assert(a =~= x.push(a.last()));
        assert(b =~= y.push(b.last()));
    }
}

/// The labels of several metrics determine their sorted union.
pub proof fn sorted_union_is_unique<V>(a: Seq<Seq<char>>, b: Seq<Seq<char>>, metrics: Seq<Entries<V>>)
    requires
        is_sorted_union(a, metrics),
        is_sorted_union(b, metrics),
    ensures
        a == b,
{
    increasing_is_unique(a, b);
}

/// Strictly increasing labels are distinct.
pub proof fn increasing_is_distinct<V>(index: Seq<String>, values: Seq<V>)
    requires
        increasing(texts(index)),
    ensures
        distinct_names(zipped(index, values)),
{
    let entries = zipped(index, values);
    assert forall|i: int, j: int| 0 <= i < j < entries.len() implies entries[i].0 != entries[j].0 by {
        assert(text_lt(texts(index)[i], texts(index)[j]));
        text_lt_irreflexive(texts(index)[i]);
    }
}

/// Where a label stands in a list of labels.
fn position_of(index: &[String], stock: &str) -> (result: Option<usize>)
    ensures
        match result {
            Some(position) => position < index@.len() && index@[position as int]@ == stock@ && forall|i: int|
                0 <= i < position ==> index@[i]@ != stock@,
            None => forall|i: int| 0 <= i < index@.len() ==> index@[i]@ != stock@,
        },
{
    let mut i: usize = 0;
    while i < index.len()
        invariant
            i <= index@.len(),
            forall|j: int| 0 <= j < i ==> index@[j]@ != stock@,
        decreases index@.len() - i,
    {
        if same_text(index[i].as_str(), stock) {
            return Some(i);
        }
        i += 1;
    }
    None
}

/// Adds a label to an increasing list of labels, unless it is there.
pub(crate) fn insert_sorted(names: &mut Vec<String>, stock: &str)
    requires
        increasing(texts(old(names)@)),
    ensures
        increasing(texts(final(names)@)),
        forall|name: Seq<char>| #[trigger] texts(final(names)@).contains(name) <==> texts(old(names)@).contains(name) || name == stock@,
{
    let mut place: usize = 0;
    while place < names.len() && text_less(names[place].as_str(), stock)
        invariant
            place <= names@.len(),
            forall|i: int| 0 <= i < place ==> text_lt(#[trigger] names@[i]@, stock@),
        decreases names@.len() - place,
    {
        place += 1;
    }
    let ghost before = texts(names@);
    if place < names.len() && same_text(names[place].as_str(), stock) {
        proof {
            assert(before[place as int] == stock@);
            assert(before.contains(stock@));
        }
        return;
    }
    let ghost old_names = names@;
    names.insert(place, stock.to_owned());
    proof {
        let after = texts(names@);
        assert(after =~= before.insert(place as int, stock@));
        if place < before.len() {
            text_lt_total(before[place as int], stock@);
            assert(old_names[place as int]@ == before[place as int]);
        }
        assert forall|i: int, j: int| 0 <= i < j < after.len() implies text_lt(after[i], after[j]) by {
            if i < place {
                assert(old_names[i]@ == before[i]);
                if j > place {
                    assert(text_lt(before[i], before[j - 1]));
                }
            } else if i == place {
                if j - 1 > place {
                    text_lt_transitive(stock@, before[place as int], before[j - 1]);
                }
            } else {
                assert(text_lt(before[i - 1], before[j - 1]));
            }
        }
        assert forall|name: Seq<char>| #[trigger] after.contains(name) <==> before.contains(name) || name == stock@ by {
            if before.contains(name) {
                let k = choose|k: int| 0 <= k < before.len() && before[k] == name;
                if k < place {
                    assert(after[k] == name);
                } else {
                    assert(after[k + 1] == name);
                }
            }
            if name == stock@ {
                assert(after[place as int] == name);
            }
            if after.contains(name) {
                let k = choose|k: int| 0 <= k < after.len() && after[k] == name;
                if k < place {
                    assert(before[k] == name);
                } else if k > place {
                    assert(before[k - 1] == name);
                }
            }
        }
    }
}

/// The labels of several metrics, each once, in increasing order.
pub fn sorted_union<V>(metrics: &[&MetricSnapshot<V>]) -> (result: Vec<String>)
    ensures
        is_sorted_union(texts(result@), all_entries(metrics@)),
{
    let mut names: Vec<String> = Vec::new();
    let ghost entries = all_entries(metrics@);
    let mut i: usize = 0;
    assert(texts(names@) =~= Seq::<Seq<char>>::empty());
    while i < metrics.len()
        invariant
            i <= metrics@.len(),
            entries == all_entries(metrics@),
            is_sorted_union(texts(names@), entries.take(i as int)),
        decreases metrics@.len() - i,
    {
        let metric = metrics[i];
        let length: usize = metric.len();
        let mut row: usize = 0;
        proof {
            assert forall|stock: Seq<char>| #[trigger] texts(names@).contains(stock) <==> labelled(
                entries.take(i as int).push(entries[i as int].take(0)),
                stock,
            ) by {
                labelled_push(entries.take(i as int), entries[i as int].take(0), stock);
            }
        }
        while row < length
            invariant
                i < metrics@.len(),
                metric == metrics@[i as int],
                row <= length,
                length == metric@.len(),
                entries == all_entries(metrics@),
                is_sorted_union(texts(names@), entries.take(i as int).push(entries[i as int].take(row as int))),
            decreases length - row,
        {
            let ghost before = texts(names@);
            insert_sorted(&mut names, metric.stock(row).as_str());
            proof {
                let narrow = entries[i as int].take(row as int);
                let wide = entries[i as int].take(row + 1);
                assert forall|stock: Seq<char>| #[trigger] texts(names@).contains(stock) <==> labelled(
                    entries.take(i as int).push(wide),
                    stock,
                ) by {
                    labelled_push(entries.take(i as int), narrow, stock);
                    labelled_push(entries.take(i as int), wide, stock);
                    assert(texts(names@).contains(stock) <==> before.contains(stock) || stock == metric@[row as int].0);
                    assert(before.contains(stock) <==> labelled(entries.take(i as int).push(narrow), stock));
                    assert(wide =~= narrow.push(metric@[row as int]));
                    if occurs(wide, stock) {
                        let j = choose|j: int| 0 <= j < wide.len() && wide[j].0 == stock;
                        if j < row {
                            assert(narrow[j].0 == stock);
                        }
                    }
                    if occurs(narrow, stock) {
                        let j = choose|j: int| 0 <= j < narrow.len() && narrow[j].0 == stock;
                        assert(wide[j].0 == stock);
                    }
                    if stock == metric@[row as int].0 {
                        assert(wide[row as int].0 == stock);
                    }
                }
            }
            row += 1;
        }
        proof {
            assert(entries[i as int].take(row as int) =~= entries[i as int]);
            assert(entries.take(i + 1) =~= entries.take(i as int).push(entries[i as int]));
        }
        i += 1;
    }
    assert(entries.take(i as int) =~= entries);
    names
}

/// Whether a label occurs in a metric.
pub open spec fn occurs<V>(entries: Entries<V>, stock: Seq<char>) -> bool {
    exists|j: int| 0 <= j < entries.len() && #[trigger] entries[j].0 == stock
}

proof fn labelled_push<V>(metrics: Seq<Entries<V>>, last: Entries<V>, stock: Seq<char>)
    ensures
        labelled(metrics.push(last), stock) <==> labelled(metrics, stock) || occurs(last, stock),
{
    let wide = metrics.push(last);
    if labelled(wide, stock) {
        let (i, j) = choose|i: int, j: int| 0 <= i < wide.len() && 0 <= j < wide[i].len() && #[trigger] wide[i][j].0 == stock;
        if i < metrics.len() {
            assert(metrics[i][j].0 == stock);
        } else {
            assert(last[j].0 == stock);
        }
    }
    if labelled(metrics, stock) {
        let (i, j) = choose|i: int, j: int| 0 <= i < metrics.len() && 0 <= j < metrics[i].len() && #[trigger] metrics[i][j].0 == stock;
        assert(wide[i][j].0 == stock);
    }
    if occurs(last, stock) {
        let j = choose|j: int| 0 <= j < last.len() && #[trigger] last[j].0 == stock;
        assert(wide[metrics.len() as int][j].0 == stock);
    }
}

/// Metrics of equal size, without repeated labels, of which one holds every label of the other,
/// carry the same labels.
proof fn covered_is_same<V>(left: Entries<V>, right: Entries<V>)
    requires
        distinct_names(left),
        distinct_names(right),
        left.len() == right.len(),
        forall|i: int| 0 <= i < left.len() ==> find_name(right, #[trigger] left[i].0) is Some,
    ensures
        same_labels(left, right),
{
    let a = names_of(left);
    let b = names_of(right);
    assert forall|i: int, j: int| 0 <= i < a.len() && 0 <= j < a.len() && i != j implies a[i] != a[j] by {
        if i < j {
            assert(left[i].0 != left[j].0);
        } else {
            assert(left[j].0 != left[i].0);
        }
    }
    assert forall|i: int, j: int| 0 <= i < b.len() && 0 <= j < b.len() && i != j implies b[i] != b[j] by {
        if i < j {
            assert(right[i].0 != right[j].0);
        } else {
            assert(right[j].0 != right[i].0);
        }
    }
    a.unique_seq_to_set();
    b.unique_seq_to_set();
    assert forall|stock: Seq<char>| a.to_set().contains(stock) implies #[trigger] b.to_set().contains(stock) by {
        let i = choose|i: int| 0 <= i < a.len() && a[i] == stock;
        assert(left[i].0 == stock);
        find_name_finds(right, stock);
        let j = find_name(right, stock)->Some_0;
        assert(b[j] == stock);
    }
    assert(a.to_set().subset_of(b.to_set()));
    vstd::set_lib::lemma_subset_equality(a.to_set(), b.to_set());
    assert forall|stock: Seq<char>| find_name(left, stock) is Some <==> find_name(right, stock) is Some by {
        find_name_finds(left, stock);
        find_name_finds(right, stock);
        if find_name(left, stock) is Some {
            let i = find_name(left, stock)->Some_0;
            assert(left[i].0 == stock);
        }
        if find_name(right, stock) is Some {
            let j = find_name(right, stock)->Some_0;
            assert(b[j] == stock);
            assert(b.to_set().contains(stock));
            assert(a.to_set().contains(stock));
            let i = choose|i: int| 0 <= i < a.len() && a[i] == stock;
            assert(left[i].0 == stock);
        }
    }
}

/// Metrics with the same labels have equal sizes.
proof fn same_is_equally_long<V>(left: Entries<V>, right: Entries<V>)
    requires
        distinct_names(left),
        distinct_names(right),
        same_labels(left, right),
    ensures
        left.len() == right.len(),
{
    let a = names_of(left);
    let b = names_of(right);
    assert forall|i: int, j: int| 0 <= i < a.len() && 0 <= j < a.len() && i != j implies a[i] != a[j] by {
        if i < j {
            assert(left[i].0 != left[j].0);
        } else {
            assert(left[j].0 != left[i].0);
        }
    }
    assert forall|i: int, j: int| 0 <= i < b.len() && 0 <= j < b.len() && i != j implies b[i] != b[j] by {
        if i < j {
            assert(right[i].0 != right[j].0);
        } else {
            assert(right[j].0 != right[i].0);
        }
    }
    a.unique_seq_to_set();
    b.unique_seq_to_set();
    assert forall|stock: Seq<char>| #[trigger] a.to_set().contains(stock) <==> b.to_set().contains(stock) by {
        find_name_finds(left, stock);
        find_name_finds(right, stock);
        if a.to_set().contains(stock) {
            let i = choose|i: int| 0 <= i < a.len() && a[i] == stock;
            assert(left[i].0 == stock);
            let j = find_name(right, stock)->Some_0;
            assert(b[j] == stock);
        }
        if b.to_set().contains(stock) {
            let i = choose|i: int| 0 <= i < b.len() && b[i] == stock;
            assert(right[i].0 == stock);
            let j = find_name(left, stock)->Some_0;
            assert(a[j] == stock);
        }
    }
    assert(a.to_set() =~= b.to_set());
}

/// Whether two metrics carry the same stocks.
pub fn same_stock_set<V>(left: &MetricSnapshot<V>, right: &MetricSnapshot<V>) -> (result: bool)
    ensures
        result == same_labels(left@, right@),
{
    let length: usize = left.len();
    if length != right.len() {
        proof {
            if same_labels(left@, right@) {
                same_is_equally_long(left@, right@);
            }
        }
        return false;
    }
    let mut row: usize = 0;
    while row < length
        invariant
            row <= length,
            length == left@.len(),
            forall|i: int| 0 <= i < row ==> find_name(right@, #[trigger] left@[i].0) is Some,
        decreases length - row,
    {
        if right.row(left.stock(row).as_str()).is_none() {
            proof {
                find_name_finds(left@, left@[row as int].0);
            }
            return false;
        }
        row += 1;
    }
    proof {
        covered_is_same(left@, right@);
    }
    true
}

/// The values of a metric under the given labels; a label that the metric lacks is missing.
pub fn reindex_values<V: Number>(metric: &MetricSnapshot<V>, index: &[String]) -> (result: Vec<V>)
    ensures
        result@ == texts(index@).map_values(|stock: Seq<char>| at_label(metric@, stock)),
{
    let mut values: Vec<V> = Vec::new();
    let mut i: usize = 0;
    while i < index.len()
        invariant
            i <= index@.len(),
            values@.len() == i,
            forall|j: int| 0 <= j < i ==> values@[j] == at_label(metric@, index@[j]@),
        decreases index@.len() - i,
    {
        values.push(metric.lookup(index[i].as_str()));
        i += 1;
    }
    assert(values@ =~= texts(index@).map_values(|stock: Seq<char>| at_label(metric@, stock)));
    values
}

/// The labels of a metric.
pub fn label_list<V>(metric: &MetricSnapshot<V>) -> (result: Vec<String>)
    ensures
        texts(result@) == names_of(metric@),
        distinct_names(metric@),
{
    let mut names: Vec<String> = Vec::new();
    let length: usize = metric.len();
    let mut row: usize = 0;
    while row < length
        invariant
            row <= length,
            length == metric@.len(),
            names@.len() == row,
            forall|i: int| 0 <= i < row ==> (#[trigger] names@[i])@ == metric@[i].0,
        decreases length - row,
    {
        names.push(metric.stock(row).clone());
        row += 1;
    }
    assert(texts(names@) =~= names_of(metric@));
    names
}

/// The characters of several texts.
pub open spec fn texts(names: Seq<String>) -> Seq<Seq<char>> {
    names.map_values(|name: String| name@)
}

/// The entries of several metrics.
pub open spec fn all_entries<V>(metrics: Seq<&MetricSnapshot<V>>) -> Seq<Entries<V>> {
    metrics.map_values(|metric: &MetricSnapshot<V>| metric@)
}

impl<V> View for MetricSnapshot<V> {
    type V = Entries<V>;

    closed spec fn view(&self) -> Entries<V> {
        zipped(self.index@, self.values@)
    }
}

impl<V> MetricSnapshot<V> {
    #[verifier::type_invariant]
    closed spec fn valid(&self) -> bool {
        &&& self.index@.len() == self.values@.len()
        &&& distinct_names(zipped(self.index@, self.values@))
    }

    /// Creates a validated metric.
    ///
    /// Unequal lengths are reported first; of repeated stocks, the first one that repeats an
    /// earlier stock is reported.
    pub fn try_new(index: Vec<String>, values: Vec<V>) -> (result: Result<Self, IndicatorError>)
        ensures
            match result {
                Ok(metric) => index@.len() == values@.len() && distinct_names(zipped(index@, values@)) && metric@
                    == zipped(index@, values@),
                Err(IndicatorError::LengthMismatch { index: labels, values: numbers }) => labels == index@.len()
                    && numbers == values@.len() && index@.len() != values@.len(),
                Err(IndicatorError::DuplicateStock(stock)) => index@.len() == values@.len() && exists|i: int, j: int|
                    #![trigger index@[i], index@[j]]
                    0 <= i < j < index@.len() && index@[i]@ == stock@ && index@[j]@ == stock@ && distinct_names(
                        zipped(index@.take(j), values@.take(j)),
                    ),
                Err(_) => false,
            },
    {
        if index.len() != values.len() {
            return Err(IndicatorError::LengthMismatch { index: index.len(), values: values.len() });
        }
        let mut row: usize = 0;
        while row < index.len()
            invariant
                row <= index@.len(),
                index@.len() == values@.len(),
                distinct_names(zipped(index@.take(row as int), values@.take(row as int))),
            decreases index@.len() - row,
        {
            let mut earlier: usize = 0;
            while earlier < row
                invariant
                    earlier <= row,
                    row < index@.len(),
                    index@.len() == values@.len(),
                    distinct_names(zipped(index@.take(row as int), values@.take(row as int))),
                    forall|i: int| 0 <= i < earlier ==> index@[i]@ != index@[row as int]@,
                decreases row - earlier,
            {
                if same_text(index[earlier].as_str(), index[row].as_str()) {
                    assert(index@[earlier as int]@ == index@[row as int]@);
                    return Err(IndicatorError::DuplicateStock(index[row].clone()));
                }
                earlier += 1;
            }
            proof {
                let wide = zipped(index@.take(row + 1), values@.take(row + 1));
                let narrow = zipped(index@.take(row as int), values@.take(row as int));
                assert forall|i: int, j: int| 0 <= i < j < wide.len() implies wide[i].0 != wide[j].0 by {
                    if j < row {
                        assert(narrow[i].0 != narrow[j].0);
                    }
                }
            }
            row += 1;
        }
        assert(index@.take(row as int) =~= index@);
        assert(values@.take(row as int) =~= values@);
        Ok(MetricSnapshot { index, values })
    }

    /// A metric from labels that are known to be distinct.
    pub(crate) fn from_parts(index: Vec<String>, values: Vec<V>) -> (result: Self)
        requires
            index@.len() == values@.len(),
            distinct_names(zipped(index@, values@)),
        ensures
            result@ == zipped(index@, values@),
    {
        MetricSnapshot { index, values }
    }

    /// A metric without stocks.
    pub fn empty() -> (result: Self)
        ensures
            result@ == Seq::<(Seq<char>, V)>::empty(),
    {
        let result = MetricSnapshot { index: Vec::new(), values: Vec::new() };
        assert(result@ =~= Seq::<(Seq<char>, V)>::empty());
        result
    }

    /// The labels.
    pub fn index(&self) -> (result: &[String])
        ensures
            texts(result@) == names_of(self@),
    {
        assert(texts(self.index@) =~= names_of(self@));
        self.index.as_slice()
    }

    /// The values, in the order of the labels.
    pub fn values(&self) -> (result: &[V])
        ensures
            result@ == self@.map_values(|entry: (Seq<char>, V)| entry.1),
    {
        proof {
            use_type_invariant(self);
            assert(self.values@ =~= self@.map_values(|entry: (Seq<char>, V)| entry.1));
        }
        self.values.as_slice()
    }

    pub fn is_empty(&self) -> (result: bool)
        ensures
            result == (self@.len() == 0),
    {
        proof {
            use_type_invariant(self);
        }
        self.values.len() == 0
    }

    /// The number of stocks; none of them occurs twice.
    pub fn len(&self) -> (result: usize)
        ensures
            result == self@.len(),
            distinct_names(self@),
    {
        proof {
            use_type_invariant(self);
        }
        self.index.len()
    }

    /// The label of a row.
    pub fn stock(&self, row: usize) -> (result: &String)
        requires
            row < self@.len(),
        ensures
            result@ == self@[row as int].0,
    {
        &self.index[row]
    }

    /// The row of a stock.
    pub fn row(&self, stock: &str) -> (result: Option<usize>)
        ensures
            match result {
                Some(row) => find_name(self@, stock@) == Some(row as int) && row < self@.len(),
                None => find_name(self@, stock@) is None,
            },
    {
        proof {
            find_name_finds(self@, stock@);
        }
        let result = position_of(self.index.as_slice(), stock);
        proof {
            match result {
                Some(row) => {
                    assert forall|i: int| 0 <= i < row implies self@[i].0 != stock@ by {
                        assert(self@[i].0 == self.index@[i]@);
                    }
                    assert(self@[row as int].0 == stock@);
                    find_name_is(self@, stock@, row as int);
                },
                None => {
                    if find_name(self@, stock@) is Some {
                        let row = find_name(self@, stock@)->Some_0;
                        assert(self@[row].0 == self.index@[row]@);
                    }
                },
            }
        }
        result
    }
}

impl<V: Copy> MetricSnapshot<V> {
    /// The value of a row.
    pub fn value(&self, row: usize) -> (result: V)
        requires
            row < self@.len(),
        ensures
            result == self@[row as int].1,
    {
        proof {
            use_type_invariant(self);
        }
        self.values[row]
    }

    /// A metric with the same labels and values.
    pub fn copied(&self) -> (result: Self)
        ensures
            result@ == self@,
    {
        proof {
            use_type_invariant(self);
        }
        let mut index: Vec<String> = Vec::new();
        let mut values: Vec<V> = Vec::new();
        let mut row: usize = 0;
        while row < self.index.len()
            invariant
                row <= self.index@.len(),
                self.index@.len() == self.values@.len(),
                index@.len() == row,
                values@.len() == row,
                forall|i: int| 0 <= i < row ==> (#[trigger] index@[i])@ == self.index@[i]@,
                forall|i: int| 0 <= i < row ==> #[trigger] values@[i] == self.values@[i],
            decreases self.index@.len() - row,
        {
            index.push(self.index[row].clone());
            values.push(self.values[row]);
            row += 1;
        }
        assert(zipped(index@, values@) =~= zipped(self.index@, self.values@));
        MetricSnapshot { index, values }
    }

    /// The metric whose rows are the entries of an ordered map.
    pub fn from_ordered(map: &OrderedMap<V>) -> (result: Self)
        ensures
            result@ == map@,
    {
        let mut index: Vec<String> = Vec::new();
        let mut values: Vec<V> = Vec::new();
        let mut row: usize = 0;
        let length: usize = map.len();
        while row < length
            invariant
                row <= length,
                length == map@.len(),
                index@.len() == row,
                values@.len() == row,
                forall|i: int| 0 <= i < row ==> (#[trigger] index@[i])@ == map@[i].0,
                forall|i: int| 0 <= i < row ==> #[trigger] values@[i] == map@[i].1,
            decreases length - row,
        {
            index.push(map.name_at(row).clone());
            values.push(*map.value_at(row));
            row += 1;
        }
        assert(zipped(index@, values@) =~= map@);
        MetricSnapshot { index, values }
    }
}

impl<V: Number> MetricSnapshot<V> {
    /// The value of a stock, or the missing value.
    pub fn lookup(&self, stock: &str) -> (result: V)
        ensures
            result == at_label(self@, stock@),
    {
        match self.row(stock) {
            Some(row) => self.value(row),
            None => V::nothing(),
        }
    }
}

/// A metric gives the value that stands under a label, and the missing value under any other.
pub proof fn labels_hold_their_values<V: Number>(metric: MetricSnapshot<V>, stock: &str, result: V)
    requires
        call_ensures(MetricSnapshot::<V>::lookup, (&metric, stock), result),
        distinct_names(metric@),
    ensures
        forall|i: int| 0 <= i < metric@.len() && (#[trigger] metric@[i]).0 == stock@ ==> result == metric@[i].1,
        (forall|i: int| 0 <= i < metric@.len() ==> (#[trigger] metric@[i]).0 != stock@) ==> result == V::nothing_spec(),
{
    find_name_finds(metric@, stock@);
}

/// A value is found under its own label.
pub proof fn labels_are_found<V: Number>(entries: Entries<V>, place: int)
    requires
        distinct_names(entries),
        0 <= place < entries.len(),
    ensures
        at_label(entries, entries[place].0) == entries[place].1,
{
    find_name_is(entries, entries[place].0, place);
}

} // verus!
