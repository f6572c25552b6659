//! Minibatch boundaries over batch positions.
use rand::rngs::StdRng;
use vstd::prelude::*;

use crate::random::shuffle_items;

verus! {

/// The minibatch size was zero.
#[derive(Clone, Copy, Debug, PartialEq, Eq, Structural)]
pub struct InvalidBatchSize;

/// The positions of a batch, in order.
pub open spec fn positions(length: nat) -> Seq<usize> {
    Seq::new(length, |i: int| i as usize)
}

/// Consecutive chunks of the given size; the last one may be shorter.
pub open spec fn chunks(items: Seq<usize>, size: nat) -> Seq<Seq<usize>>
    decreases items.len(),
{
    if size == 0 || items.len() == 0 {
        Seq::empty()
    } else if items.len() <= size {
        seq![items]
    } else {
        seq![items.take(size as int)] + chunks(items.skip(size as int), size)
    }
}

/// The last two chunks joined.
pub open spec fn tail_joined(batches: Seq<Seq<usize>>) -> Seq<Seq<usize>> {
    batches.take(batches.len() - 2).push(batches[batches.len() - 2] + batches.last())
}

/// The minibatches of an ordering: its chunks, with an incomplete last chunk joined to the one
/// before where that is asked for.
pub open spec fn minibatches(order: Seq<usize>, size: nat, merge_last: bool) -> Seq<Seq<usize>> {
    if merge_last && order.len() % size > 0 && order.len() > size {
        tail_joined(chunks(order, size))
    } else {
        chunks(order, size)
    }
}

/// The contents of several lists.
pub open spec fn contents(lists: Seq<Vec<usize>>) -> Seq<Seq<usize>> {
    lists.map_values(|list: Vec<usize>| list@)
}

/// All items of several lists, one list after another.
pub open spec fn joined(lists: Seq<Seq<usize>>) -> Seq<usize>
    decreases lists.len(),
{
    if lists.len() == 0 {
        Seq::empty()
    } else {
        lists.first() + joined(lists.drop_first())
    }
}

proof fn joined_push(lists: Seq<Seq<usize>>, last: Seq<usize>)
    ensures
        joined(lists.push(last)) == joined(lists) + last,
    decreases lists.len(),
{
    reveal_with_fuel(joined, 3);
    if lists.len() == 0 {
        assert(lists.push(last).drop_first() =~= Seq::<Seq<usize>>::empty());
        assert(joined(lists.push(last)) =~= joined(lists) + last);
    } else {
        assert(lists.push(last).drop_first() =~= lists.drop_first().push(last));
        joined_push(lists.drop_first(), last);
        assert(joined(lists.push(last)) =~= joined(lists) + last);
    }
}

proof fn chunks_cover(items: Seq<usize>, size: nat)
    requires
        size > 0,
    ensures
        joined(chunks(items, size)) == items,
        items.len() > size ==> chunks(items, size).len() >= 2,
    decreases items.len(),
{
    reveal_with_fuel(joined, 3);
    if items.len() == 0 {
        assert(joined(chunks(items, size)) =~= items);
    } else if items.len() <= size {
        assert(chunks(items, size).drop_first() =~= Seq::<Seq<usize>>::empty());
        assert(joined(chunks(items, size)) =~= items);
    } else {
        chunks_cover(items.skip(size as int), size);
        let rest = chunks(items.skip(size as int), size);
        assert(chunks(items, size).drop_first() =~= rest);
        assert(items.take(size as int) + items.skip(size as int) =~= items);
        if items.skip(size as int).len() <= size {
            assert(rest.len() == 1);
        }
    }
}

/// Minibatches cover the batch: put together, they are the ordering they were cut from.
pub proof fn minibatches_cover_the_batch(order: Seq<usize>, size: nat, merge_last: bool)
    requires
        size > 0,
    ensures
        joined(minibatches(order, size, merge_last)) == order,
{
    chunks_cover(order, size);
    if merge_last && order.len() % size > 0 && order.len() > size {
        let all = chunks(order, size);
        let n = all.len();
        let front = all.take(n - 2);
        joined_push(front, all[n - 2]);
        joined_push(front.push(all[n - 2]), all.last());
        assert(front.push(all[n - 2]).push(all.last()) =~= all);
        joined_push(front, all[n - 2] + all.last());
        assert(joined(tail_joined(all)) =~= order);
    }
}

/// Cuts an ordering of batch positions into minibatches.
pub fn split_order(order: &Vec<usize>, size: usize, merge_last: bool) -> (result: Result<Vec<Vec<usize>>, InvalidBatchSize>)
    ensures
        result is Err <==> size == 0,
        result matches Ok(batches) ==> contents(batches@) == minibatches(order@, size as nat, merge_last),
{
    if size == 0 {
        return Err(InvalidBatchSize);
    }
    let length: usize = order.len();
    let mut batches: Vec<Vec<usize>> = Vec::new();
    let mut start: usize = 0;
    let ghost all = chunks(order@, size as nat);
    proof {
        assert(order@.skip(0) =~= order@);
        assert(contents(batches@) + all =~= all);
    }
    while start < length
        invariant
            start <= length,
            length == order@.len(),
            size > 0,
            all == chunks(order@, size as nat),
            contents(batches@) + chunks(order@.skip(start as int), size as nat) == all,
        decreases length - start,
    {
        let end: usize = if length - start <= size {
            length
        } else {
            start + size
        };
        let mut batch: Vec<usize> = Vec::new();
        let mut i: usize = start;
        while i < end
            invariant
                start <= i <= end,
                end <= length,
                length == order@.len(),
                batch@ == order@.subrange(start as int, i as int),
            decreases end - i,
        {
            batch.push(order[i]);
            i += 1;
            assert(batch@ =~= order@.subrange(start as int, i as int));
        }
        let ghost before = contents(batches@);
        let ghost rest = order@.skip(start as int);
        proof {
            if rest.len() <= size {
                assert(batch@ =~= rest);
                assert(order@.skip(end as int) =~= Seq::<usize>::empty());
                assert(chunks(rest, size as nat) =~= seq![batch@] + chunks(order@.skip(end as int), size as nat));
            } else {
                assert(batch@ =~= rest.take(size as int));
                assert(order@.skip(end as int) =~= rest.skip(size as int));
            }
        }
        batches.push(batch);
        proof {
            assert(contents(batches@) =~= before.push(batch@));
            assert(before.push(batch@) + chunks(order@.skip(end as int), size as nat) =~= before + (seq![batch@]
                + chunks(order@.skip(end as int), size as nat)));
        }
        start = end;
    }
    proof {
        assert(order@.skip(start as int) =~= Seq::<usize>::empty());
        assert(contents(batches@) =~= all);
        chunks_cover(order@, size as nat);
    }
    if merge_last && length % size > 0 && length > size {
        let ghost before = batches@;
        proof {
            assert(contents(before).len() == before.len());
        }
        let mut last = batches.pop().unwrap();
        let mut previous = batches.pop().unwrap();
        let ghost a = previous@;
        let ghost b = last@;
        previous.append(&mut last);
        batches.push(previous);
        proof {
            let n = before.len() as int;
            assert(contents(before)[n - 1] == b && contents(before)[n - 2] == a);
            assert(contents(batches@) =~= tail_joined(contents(before)));
        }
    }
    Ok(batches)
}

/// Splits batch positions into minibatches, in order or after one random shuffle.
///
/// With `merge_last`, an incomplete final chunk is appended to the preceding one. Size zero is
/// refused, for an empty batch too.
pub fn minibatch_indices(length: usize, size: usize, shuffle: bool, merge_last: bool, rng: &mut StdRng) -> (result: Result<
    Vec<Vec<usize>>,
    InvalidBatchSize,
>)
    ensures
        result is Err <==> size == 0,
        !shuffle || size == 0 ==> *final(rng) == *old(rng),
        result matches Ok(batches) ==> exists|order: Seq<usize>|
            order.to_multiset() == positions(length as nat).to_multiset() && (!shuffle ==> order == positions(
                length as nat,
            )) && contents(batches@) == #[trigger] minibatches(order, size as nat, merge_last),
{
    if size == 0 {
        return Err(InvalidBatchSize);
    }
    let mut order: Vec<usize> = Vec::new();
    let mut i: usize = 0;
    while i < length
        invariant
            i <= length,
            order@ == positions(i as nat),
        decreases length - i,
    {
        order.push(i);
        i += 1;
        assert(order@ =~= positions(i as nat));
    }
    if shuffle {
        shuffle_items(rng, &mut order);
    }
    split_order(&order, size, merge_last)
}

/// Minibatches have the size that is asked for. Only the last one differs: it is shorter, or, where
/// short ones are joined to the one before, longer by less than a whole one.
pub proof fn only_the_last_minibatch_differs(
    order: Vec<usize>,
    size: usize,
    merge_last: bool,
    result: Result<Vec<Vec<usize>>, InvalidBatchSize>,
    place: int,
)
    requires
        call_ensures(split_order, (&order, size, merge_last), result),
        result is Ok,
        0 <= place < result->Ok_0@.len(),
    ensures
        place < result->Ok_0@.len() - 1 ==> result->Ok_0@[place]@.len() == size,
        result->Ok_0@[place]@.len() > 0,
        !merge_last || order@.len() <= size ==> result->Ok_0@[place]@.len() <= size,
        merge_last && order@.len() >= size ==> size <= result->Ok_0@[place]@.len() < 2 * size,
{
    let batches = contents(result->Ok_0@);
    let cut = chunks(order@, size as nat);
    assert(batches[place] == result->Ok_0@[place]@);
    assert(batches.len() == result->Ok_0@.len());
    chunks_have_their_size(order@, size as nat);
    chunks_cover(order@, size as nat);
    let whole = order@.len() as int;
    if merge_last && whole >= size && whole % size as int == 0 {
        full_chunks_are_whole(order@, size as nat);
    }
    if merge_last && order@.len() % size as nat > 0 && order@.len() > size {
        let n = cut.len();
        assert(cut[n - 2].len() == size);
        assert(cut[n - 1].len() <= size);
        last_chunks_hold_the_rest(order@, size as nat);
        assert(batches == tail_joined(cut));
        if place < n - 2 {
            assert(batches[place] == cut[place]);
        } else {
            assert(batches[place] == cut[n - 2] + cut.last());
        }
    } else {
        assert(batches == cut);
        assert(batches[place] == cut[place]);
        if merge_last && whole == size {
            vstd::arithmetic::div_mod::lemma_mod_self_0(size as int);
        }
    }
}

proof fn chunks_have_their_size(items: Seq<usize>, size: nat)
    requires
        size > 0,
    ensures
        forall|i: int| 0 <= i < chunks(items, size).len() - 1 ==> (#[trigger] chunks(items, size)[i]).len() == size,
        forall|i: int| 0 <= i < chunks(items, size).len() ==> 0 < (#[trigger] chunks(items, size)[i]).len() <= size,
    decreases items.len(),
{
    if items.len() > size {
        let rest = chunks(items.skip(size as int), size);
        chunks_have_their_size(items.skip(size as int), size);
        let all = chunks(items, size);
        assert(all.len() == rest.len() + 1);
        assert forall|i: int| 0 <= i < all.len() implies 0 < (#[trigger] all[i]).len() <= size && (i < all.len() - 1
            ==> all[i].len() == size) by {
            if i > 0 {
                assert(all[i] == rest[i - 1]);
            }
        }
    }
}

proof fn last_chunks_hold_the_rest(items: Seq<usize>, size: nat)
    requires
        size > 0,
        items.len() % size > 0,
    ensures
        chunks(items, size).len() > 0,
        chunks(items, size).last().len() == items.len() % size,
    decreases items.len(),
{
    if items.len() <= size {
        if items.len() == size {
            vstd::arithmetic::div_mod::lemma_mod_self_0(size as int);
        } else {
            vstd::arithmetic::div_mod::lemma_small_mod(items.len(), size);
        }
        if items.len() == 0 {
            vstd::arithmetic::div_mod::lemma_small_mod(0, size);
        }
    } else {
        let rest = items.skip(size as int);
        vstd::arithmetic::div_mod::lemma_mod_add_multiples_vanish(rest.len() as int, size as int);
        last_chunks_hold_the_rest(rest, size);
        assert(chunks(items, size).last() == chunks(rest, size).last());
    }
}

proof fn full_chunks_are_whole(items: Seq<usize>, size: nat)
    requires
        size > 0,
        items.len() % size == 0,
    ensures
        forall|i: int| 0 <= i < chunks(items, size).len() ==> (#[trigger] chunks(items, size)[i]).len() == size,
    decreases items.len(),
{
    if items.len() > size {
        let rest = items.skip(size as int);
        vstd::arithmetic::div_mod::lemma_mod_add_multiples_vanish(rest.len() as int, size as int);
        full_chunks_are_whole(rest, size);
        let all = chunks(items, size);
        assert forall|i: int| 0 <= i < all.len() implies (#[trigger] all[i]).len() == size by {
            if i > 0 {
                assert(all[i] == chunks(rest, size)[i - 1]);
            }
        }
    } else if 0 < items.len() < size {
        vstd::arithmetic::div_mod::lemma_small_mod(items.len(), size);
    }
}

} // verus!
