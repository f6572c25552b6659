//! The table of recorded trade summaries.
use vstd::prelude::*;

use crate::indicator::{Indicator, IndicatorPool};
use crate::metric_snapshot::{at_label, texts, Entries};
use crate::number::Number;
use crate::order::Timestamp;
use crate::ordered::{has_name, names_of, OrderedMap};
use crate::text::same_text;

verus! {

/// The members of a sequence, each once, in order of first occurrence.
pub open spec fn first_seen<A>(items: Seq<A>) -> Seq<A>
    decreases items.len(),
{
    if items.len() == 0 {
        Seq::empty()
    } else {
        let earlier = first_seen(items.drop_last());
        if earlier.contains(items.last()) {
            earlier
        } else {
            earlier.push(items.last())
        }
    }
}

/// How the list of first occurrences grows.
pub proof fn first_seen_push<A>(items: Seq<A>, item: A)
    ensures
        first_seen(items.push(item)) == if first_seen(items).contains(item) {
            first_seen(items)
        } else {
            first_seen(items).push(item)
        },
{
    assert(items.push(item).drop_last() =~= items);
}

/// No member occurs twice, and none is lost or added.
pub proof fn first_seen_members<A>(items: Seq<A>)
    ensures
        first_seen(items).no_duplicates(),
        forall|item: A| #[trigger] first_seen(items).contains(item) <==> items.contains(item),
    decreases items.len(),
{
    if items.len() > 0 {
        let earlier = items.drop_last();
        first_seen_members(earlier);
        assert forall|item: A| #[trigger] first_seen(items).contains(item) <==> items.contains(item) by {
            if items.contains(item) {
                let i = choose|i: int| 0 <= i < items.len() && items[i] == item;
                if i < items.len() - 1 {
                    assert(earlier[i] == item);
                    assert(first_seen(earlier).contains(item));
                    let k = choose|k: int| 0 <= k < first_seen(earlier).len() && first_seen(earlier)[k] == item;
                    assert(first_seen(items)[k] == item);
                } else if !first_seen(earlier).contains(item) {
                    assert(first_seen(items).last() == item);
                }
            }
            if first_seen(items).contains(item) {
                let k = choose|k: int| 0 <= k < first_seen(items).len() && first_seen(items)[k] == item;
                if k < first_seen(earlier).len() {
                    assert(first_seen(earlier)[k] == item);
                    assert(first_seen(earlier).contains(item));
                    assert(earlier.contains(item));
                    let i = choose|i: int| 0 <= i < earlier.len() && earlier[i] == item;
                    assert(items[i] == item);
                } else {
                    assert(items.last() == item);
                }
            }
        }
    }
}

/// Adds a text to a list unless it is there.
pub fn push_unseen(list: &mut Vec<String>, text: &str)
    ensures
        texts(final(list)@) == if texts(old(list)@).contains(text@) {
            texts(old(list)@)
        } else {
            texts(old(list)@).push(text@)
        },
{
    let mut i: usize = 0;
    while i < list.len()
        invariant
            i <= list@.len(),
            list@ == old(list)@,
            forall|j: int| 0 <= j < i ==> (#[trigger] list@[j])@ != text@,
        decreases list@.len() - i,
    {
        if same_text(list[i].as_str(), text) {
            assert(texts(list@)[i as int] == text@);
            return;
        }
        i += 1;
    }
    proof {
        if texts(list@).contains(text@) {
            let j = choose|j: int| 0 <= j < texts(list@).len() && texts(list@)[j] == text@;
            assert(list@[j]@ == text@);
        }
    }
    list.push(text.to_owned());
    assert(texts(list@) =~= texts(old(list)@).push(text@));
}

/// Recorded summary rows by time.
pub type History<V> = Seq<(Timestamp, Entries<V>)>;

/// The names of all rows, one row after another.
pub open spec fn row_names<V>(history: History<V>) -> Seq<Seq<char>>
    decreases history.len(),
{
    if history.len() == 0 {
        Seq::empty()
    } else {
        row_names(history.drop_last()) + names_of(history.last().1)
    }
}

/// The times of the rows that hold a name.
pub open spec fn times_with<V>(history: History<V>, name: Seq<char>) -> Seq<Timestamp>
    decreases history.len(),
{
    if history.len() == 0 {
        Seq::empty()
    } else if has_name(history.last().1, name) {
        times_with(history.drop_last(), name).push(history.last().0)
    } else {
        times_with(history.drop_last(), name)
    }
}

/// The times of the rows that hold a name, one name after another.
pub open spec fn times_of<V>(history: History<V>, names: Seq<Seq<char>>) -> Seq<Timestamp>
    decreases names.len(),
{
    if names.len() == 0 {
        Seq::empty()
    } else {
        times_of(history, names.drop_last()) + times_with(history, names.last())
    }
}

/// The first row of a time.
pub open spec fn row_at<V>(history: History<V>, time: Timestamp) -> Entries<V>
    decreases history.len(),
{
    if history.len() == 0 {
        Seq::empty()
    } else if history.first().0 == time {
        history.first().1
    } else {
        row_at(history.drop_first(), time)
    }
}

/// Rows as they are stored.
pub open spec fn history_of<V>(history: Seq<(Timestamp, &OrderedMap<V>)>) -> History<V> {
    history.map_values(|row: (Timestamp, &OrderedMap<V>)| (row.0, row.1@))
}

/// A table of trade summaries: one line per time, one column per metric.
pub struct TradeIndicatorReport<V> {
    pub timestamps: Vec<Timestamp>,
    pub names: Vec<String>,
    pub columns: Vec<Vec<V>>,
}

fn push_unseen_time(list: &mut Vec<Timestamp>, time: Timestamp)
    ensures
        final(list)@ == if old(list)@.contains(time) {
            old(list)@
        } else {
            old(list)@.push(time)
        },
{
    let mut i: usize = 0;
    while i < list.len()
        invariant
            i <= list@.len(),
            list@ == old(list)@,
            forall|j: int| 0 <= j < i ==> #[trigger] list@[j] != time,
        decreases list@.len() - i,
    {
        if list[i].seconds == time.seconds && list[i].nanos == time.nanos {
            assert(list@[i as int] == time);
            return;
        }
        i += 1;
    }
    list.push(time);
}

fn value_in<V: Number>(history: &[(Timestamp, &OrderedMap<V>)], time: Timestamp, name: &str) -> (result: V)
    ensures
        result == at_label(row_at(history_of(history@), time), name@),
{
    let ghost all = history_of(history@);
    let mut i: usize = 0;
    assert(all.skip(0) =~= all);
    while i < history.len()
        invariant
            i <= history@.len(),
            all == history_of(history@),
            row_at(all, time) == row_at(all.skip(i as int), time),
        decreases history@.len() - i,
    {
        let row = &history[i];
        assert(all.skip(i as int).first() == all[i as int]);
        assert(all.skip(i as int).drop_first() =~= all.skip(i + 1));
        if row.0.seconds == time.seconds && row.0.nanos == time.nanos {
            assert(all[i as int].0 == time);
            return match row.1.get(name) {
                Some(value) => *value,
                None => V::nothing(),
            };
        }
        i += 1;
    }
    V::nothing()
}

impl<V: Number> TradeIndicatorReport<V> {
    /// Tabulates recorded rows. Rows without metrics disappear; columns and lines follow the
    /// order in which names, and then times, are first met. A cell without a value is missing.
    pub fn from_history(history: &[(Timestamp, &OrderedMap<V>)]) -> (result: Self)
        ensures
            texts(result.names@) == first_seen(row_names(history_of(history@))),
            result.timestamps@ == first_seen(times_of(history_of(history@), texts(result.names@))),
            result.columns@.len() == result.names@.len(),
            forall|c: int| 0 <= c < result.columns@.len() ==> (#[trigger] result.columns@[c])@.len()
                == result.timestamps@.len(),
            forall|c: int, r: int|
                0 <= c < result.columns@.len() && 0 <= r < result.timestamps@.len() ==> #[trigger] result.columns@[c]@[r]
                    == at_label(row_at(history_of(history@), result.timestamps@[r]), result.names@[c]@),
    {
        let ghost all = history_of(history@);
        let mut names: Vec<String> = Vec::new();
        let mut i: usize = 0;
        proof {
            assert(texts(names@) =~= first_seen(row_names(all.take(0))));
        }
        while i < history.len()
            invariant
                i <= history@.len(),
                all == history_of(history@),
                texts(names@) == first_seen(row_names(all.take(i as int))),
            decreases history@.len() - i,
        {
            let row = history[i].1;
            let length: usize = row.len();
            let mut j: usize = 0;
            let ghost before = row_names(all.take(i as int));
            proof {
                assert(before + names_of(row@).take(0) =~= before);
            }
            while j < length
                invariant
                    j <= length,
                    length == row@.len(),
                    texts(names@) == first_seen(before + names_of(row@).take(j as int)),
                decreases length - j,
            {
                proof {
                    first_seen_push(before + names_of(row@).take(j as int), row@[j as int].0);
                    assert(before + names_of(row@).take(j + 1) =~= (before + names_of(row@).take(j as int)).push(
                        row@[j as int].0,
                    ));
                }
                push_unseen(&mut names, row.name_at(j).as_str());
                j += 1;
            }
            proof {
                assert(names_of(row@).take(j as int) =~= names_of(row@));
                assert(all.take(i + 1).drop_last() =~= all.take(i as int));
                assert(all.take(i + 1).last() == all[i as int]);
            }
            i += 1;
        }
        assert(all.take(i as int) =~= all);
        let mut timestamps: Vec<Timestamp> = Vec::new();
        let mut n: usize = 0;
        let ghost labels = texts(names@);
        assert(timestamps@ =~= first_seen(times_of(all, labels.take(0))));
        while n < names.len()
            invariant
                n <= names@.len(),
                all == history_of(history@),
                labels == texts(names@),
                timestamps@ == first_seen(times_of(all, labels.take(n as int))),
            decreases names@.len() - n,
        {
            let ghost before = times_of(all, labels.take(n as int));
            let ghost name = labels[n as int];
            let mut k: usize = 0;
            assert(before + times_with(all.take(0), name) =~= before);
            while k < history.len()
                invariant
                    k <= history@.len(),
                    n < names@.len(),
                    all == history_of(history@),
                    labels == texts(names@),
                    name == labels[n as int],
                    timestamps@ == first_seen(before + times_with(all.take(k as int), name)),
                decreases history@.len() - k,
            {
                proof {
                    assert(all.take(k + 1).drop_last() =~= all.take(k as int));
                    assert(all.take(k + 1).last() == all[k as int]);
                }
                if history[k].1.contains(names[n].as_str()) {
                    proof {
                        let earlier = times_with(all.take(k as int), name);
                        first_seen_push(before + earlier, all[k as int].0);
                        assert(before + earlier.push(all[k as int].0) =~= (before + earlier).push(all[k as int].0));
                    }
                    push_unseen_time(&mut timestamps, history[k].0);
                }
                k += 1;
            }
            proof {
                assert(all.take(k as int) =~= all);
                assert(labels.take(n + 1).drop_last() =~= labels.take(n as int));
                assert(labels.take(n + 1).last() == name);
            }
            n += 1;
        }
        assert(labels.take(n as int) =~= labels);
        let mut columns: Vec<Vec<V>> = Vec::new();
        let mut c: usize = 0;
        while c < names.len()
            invariant
                c <= names@.len(),
                all == history_of(history@),
                columns@.len() == c,
                forall|x: int| 0 <= x < c ==> (#[trigger] columns@[x])@.len() == timestamps@.len(),
                forall|x: int, r: int|
                    0 <= x < c && 0 <= r < timestamps@.len() ==> #[trigger] columns@[x]@[r] == at_label(
                        row_at(all, timestamps@[r]),
                        names@[x]@,
                    ),
            decreases names@.len() - c,
        {
            let mut column: Vec<V> = Vec::new();
            let mut r: usize = 0;
            while r < timestamps.len()
                invariant
                    r <= timestamps@.len(),
                    c < names@.len(),
                    all == history_of(history@),
                    column@.len() == r,
                    forall|y: int|
                        0 <= y < r ==> #[trigger] column@[y] == at_label(
                            row_at(all, timestamps@[y]),
                            names@[c as int]@,
                        ),
                decreases timestamps@.len() - r,
            {
                column.push(value_in(history, timestamps[r], names[c].as_str()));
                r += 1;
            }
            columns.push(column);
            c += 1;
        }
        TradeIndicatorReport { timestamps, names, columns }
    }

    /// Tabulates the recorded summary rows of an indicator.
    pub fn from_shared_history<S>(indicator: &Indicator, pool: &IndicatorPool<V, S>) -> (result: Self)
        requires
            forall|i: int|
                0 <= i < indicator.trade_history().len() ==> (#[trigger] indicator.trade_history()[i]).1
                    < pool.rows@.len(),
        ensures
            ({
                let all: History<V> = indicator.trade_history().map_values(
                    |entry: (Timestamp, usize)| (entry.0, pool.rows@[entry.1 as int]@),
                );
                &&& texts(result.names@) == first_seen(row_names(all))
                &&& result.timestamps@ == first_seen(times_of(all, texts(result.names@)))
                &&& result.columns@.len() == result.names@.len()
                &&& forall|c: int|
                    0 <= c < result.columns@.len() ==> (#[trigger] result.columns@[c])@.len() == result.timestamps@.len()
                &&& forall|c: int, r: int|
                    0 <= c < result.columns@.len() && 0 <= r < result.timestamps@.len()
                        ==> #[trigger] result.columns@[c]@[r] == at_label(
                        row_at(all, result.timestamps@[r]),
                        result.names@[c]@,
                    )
            }),
    {
        let entries = indicator.trade_indicator_history();
        let mut rows: Vec<(Timestamp, &OrderedMap<V>)> = Vec::new();
        let mut i: usize = 0;
        while i < entries.len()
            invariant
                i <= entries@.len(),
                entries@ == indicator.trade_history(),
                forall|j: int| 0 <= j < entries@.len() ==> (#[trigger] entries@[j]).1 < pool.rows@.len(),
                rows@.len() == i,
                forall|j: int|
                    0 <= j < i ==> (#[trigger] rows@[j]).0 == entries@[j].0 && *rows@[j].1
                        == pool.rows@[entries@[j].1 as int],
            decreases entries@.len() - i,
        {
            let entry = entries[i];
            assert(entry == entries@[i as int]);
            rows.push((entry.0, &pool.rows[entry.1]));
            i += 1;
        }
        proof {
            let all: History<V> = indicator.trade_history().map_values(
                |entry: (Timestamp, usize)| (entry.0, pool.rows@[entry.1 as int]@),
            );
            assert(history_of(rows@) =~= all);
        }
        TradeIndicatorReport::from_history(rows.as_slice())
    }
}

/// A report loses nothing: every value of every recorded row stands in the column of its metric and in
/// the line of its time.
pub proof fn recorded_values_are_reported<V: Number>(
    history: &[(Timestamp, &OrderedMap<V>)],
    result: TradeIndicatorReport<V>,
    row: int,
    name: Seq<char>,
)
    requires
        call_ensures(TradeIndicatorReport::<V>::from_history, (history,), result),
        forall|i: int, j: int| 0 <= i < j < history@.len() ==> history@[i].0 != history@[j].0,
        0 <= row < history@.len(),
        has_name(history@[row].1@, name),
    ensures
        exists|column: int, line: int|
            0 <= column < result.names@.len() && 0 <= line < result.timestamps@.len() && result.names@[column]@ == name
                && result.timestamps@[line] == history@[row].0 && #[trigger] result.columns@[column]@[line] == at_label(
                history@[row].1@,
                name,
            ),
        texts(result.names@).no_duplicates(),
        result.timestamps@.no_duplicates(),
{
    let all = history_of(history@);
    let names = texts(result.names@);
    let time = history@[row].0;
    assert(all[row] == (time, history@[row].1@));
    first_seen_members(row_names(all));
    names_are_listed(all, row, name);
    assert(names.contains(name));
    let column = choose|column: int| 0 <= column < names.len() && names[column] == name;
    let times = times_of(all, names);
    first_seen_members(times);
    times_are_listed(all, row, name);
    named_times_are_listed(all, names, column, time);
    assert(result.timestamps@.contains(time));
    let line = choose|line: int| 0 <= line < result.timestamps@.len() && result.timestamps@[line] == time;
    assert forall|i: int, j: int| 0 <= i < j < all.len() implies all[i].0 != all[j].0 by {
        assert(history@[i].0 != history@[j].0);
    }
    rows_are_found(all, row);
    assert(result.columns@[column]@[line] == at_label(row_at(all, time), name));
}

proof fn names_are_listed<V>(history: History<V>, row: int, name: Seq<char>)
    requires
        0 <= row < history.len(),
        has_name(history[row].1, name),
    ensures
        row_names(history).contains(name),
    decreases history.len(),
{
    let (before, last) = (row_names(history.drop_last()), names_of(history.last().1));
    let both = before + last;
    if row < history.len() - 1 {
        names_are_listed(history.drop_last(), row, name);
        let k = choose|k: int| 0 <= k < before.len() && before[k] == name;
        assert(both[k] == name);
    } else {
        crate::ordered::find_name_finds(history[row].1, name);
        let k = crate::ordered::find_name(history[row].1, name)->Some_0;
        assert(last[k] == name);
        assert(both[before.len() + k] == name);
    }
}

proof fn times_are_listed<V>(history: History<V>, row: int, name: Seq<char>)
    requires
        0 <= row < history.len(),
        has_name(history[row].1, name),
    ensures
        times_with(history, name).contains(history[row].0),
    decreases history.len(),
{
    let before = times_with(history.drop_last(), name);
    let after = times_with(history, name);
    if row < history.len() - 1 {
        times_are_listed(history.drop_last(), row, name);
        let k = choose|k: int| 0 <= k < before.len() && before[k] == history[row].0;
        assert(after[k] == history[row].0);
    } else {
        assert(after[before.len() as int] == history[row].0);
    }
}

proof fn named_times_are_listed<V>(history: History<V>, names: Seq<Seq<char>>, column: int, time: Timestamp)
    requires
        0 <= column < names.len(),
        times_with(history, names[column]).contains(time),
    ensures
        times_of(history, names).contains(time),
    decreases names.len(),
{
    let (before, last) = (times_of(history, names.drop_last()), times_with(history, names.last()));
    let both = before + last;
    if column < names.len() - 1 {
        named_times_are_listed(history, names.drop_last(), column, time);
        let k = choose|k: int| 0 <= k < before.len() && before[k] == time;
        assert(both[k] == time);
    } else {
        let k = choose|k: int| 0 <= k < last.len() && last[k] == time;
        assert(both[before.len() + k] == time);
    }
}

proof fn rows_are_found<V>(history: History<V>, row: int)
    requires
        0 <= row < history.len(),
        forall|i: int, j: int| 0 <= i < j < history.len() ==> history[i].0 != history[j].0,
    ensures
        row_at(history, history[row].0) == history[row].1,
    decreases history.len(),
{
    if row > 0 {
        let rest = history.drop_first();
        assert(history[0].0 != history[row].0);
        assert forall|i: int, j: int| 0 <= i < j < rest.len() implies rest[i].0 != rest[j].0 by {
            assert(history[i + 1].0 != history[j + 1].0);
        }
        rows_are_found(rest, row - 1);
    }
}

} // verus!
