//! What holds of a buffer after a series of writes.

use crate::cells::{
    init_result, is_complete, lemma_complete_iff_all_live, lemma_complete_values,
    lemma_live_count_stored, lemma_live_values_in_index_order, live_count, live_positions,
    live_values, stored, try_init_result, vacant,
};
use vstd::prelude::*;

verus! {

/// The cells after all of `writes` were made, the first of them first. Each
/// write is an index and the item to put there.
pub open spec fn written<T>(cells: Seq<Option<T>>, writes: Seq<(usize, T)>) -> Seq<Option<T>>
    decreases writes.len(),
{
    if writes.len() == 0 {
        cells
    } else {
        stored(written(cells, writes.drop_last()), writes.last().0 as int, writes.last().1)
    }
}

/// Writes never change the number of cells.
pub proof fn lemma_written_len<T>(cells: Seq<Option<T>>, writes: Seq<(usize, T)>)
    ensures
        written(cells, writes).len() == cells.len(),
    decreases writes.len(),
{
    if writes.len() > 0 {
        lemma_written_len(cells, writes.drop_last());
    }
}

/// A cell that no write names is left as it was.
pub proof fn lemma_unwritten_kept<T>(cells: Seq<Option<T>>, writes: Seq<(usize, T)>, index: int)
    requires
        0 <= index < cells.len(),
        forall|k: int| 0 <= k < writes.len() ==> writes[k].0 != index,
    ensures
        written(cells, writes)[index] == cells[index],
    decreases writes.len(),
{
    if writes.len() > 0 {
        let earlier = writes.drop_last();
        assert forall|k: int| 0 <= k < earlier.len() implies earlier[k].0 != index by {
            assert(earlier[k] == writes[k]);
        }
        lemma_written_len(cells, earlier);
        lemma_unwritten_kept(cells, earlier, index);
        assert(writes.last() == writes[writes.len() - 1]);
    }
}

/// The last write to a cell decides what it holds: after the write numbered
/// `k`, if no later write names the same cell, the cell holds the item of
/// that write, and so does the completed vector if there is one.
pub proof fn lemma_last_write_wins<T>(cells: Seq<Option<T>>, writes: Seq<(usize, T)>, k: int)
    requires
        0 <= k < writes.len(),
        writes[k].0 < cells.len(),
        forall|j: int| k < j < writes.len() ==> writes[j].0 != writes[k].0,
    ensures
        written(cells, writes)[writes[k].0 as int] == Some(writes[k].1),
        init_result(written(cells, writes)) matches Some(items) ==> items[writes[k].0 as int]
            == writes[k].1,
    decreases writes.len(),
{
    let earlier = writes.drop_last();
    lemma_written_len(cells, earlier);
    lemma_written_len(cells, writes);
    if k < writes.len() - 1 {
        assert(earlier[k] == writes[k]);
        assert forall|j: int| k < j < earlier.len() implies earlier[j].0 != earlier[k].0 by {
            assert(earlier[j] == writes[j]);
        }
        lemma_last_write_wins(cells, earlier, k);
    }
    let after = written(cells, writes);
    if is_complete(after) {
        lemma_complete_values(after);
        assert(after[writes[k].0 as int] == live_values(after).map_values(
            |value: T| Some(value),
        )[writes[k].0 as int]);
    }
}

/// Writing to a cell that holds a value already replaces the value and
/// leaves the live count as it was.
pub proof fn lemma_rewrite_keeps_count<T>(cells: Seq<Option<T>>, index: int, item: T)
    requires
        0 <= index < cells.len(),
        cells[index] is Some,
    ensures
        stored(cells, index, item)[index] == Some(item),
        live_count(stored(cells, index, item)) == live_count(cells),
{
    lemma_live_count_stored(cells, index, item);
}

/// When every cell of a fresh buffer is written exactly once, in whatever
/// order, completing the buffer gives a vector that holds at each index the
/// item written there.
pub proof fn lemma_every_cell_written<T>(capacity: nat, writes: Seq<(usize, T)>)
    requires
        writes.len() == capacity,
        forall|k: int| 0 <= k < writes.len() ==> writes[k].0 < capacity,
        forall|j: int, k: int| 0 <= j < k < writes.len() ==> writes[j].0 != writes[k].0,
    ensures
        init_result(written(vacant::<T>(capacity), writes)) matches Some(items) && items.len()
            == capacity && forall|k: int|
            0 <= k < writes.len() ==> items[#[trigger] writes[k].0 as int] == writes[k].1,
{
    let cells = written(vacant::<T>(capacity), writes);
    let targets = writes.map_values(|w: (usize, T)| w.0 as int);
    lemma_written_len(vacant::<T>(capacity), writes);
    assert(targets.no_duplicates()) by {
        assert forall|j: int, k: int|
            0 <= j < targets.len() && 0 <= k < targets.len() && j != k implies targets[j]
            != targets[k] by {
            if j < k {
                assert(writes[j].0 != writes[k].0);
            } else {
                assert(writes[k].0 != writes[j].0);
            }
        }
    }
    targets.unique_seq_to_set();
    vstd::set_lib::lemma_int_range(0, capacity as int);
    let range = vstd::set_lib::set_int_range(0, capacity as int);
    assert(targets.to_set().subset_of(range)) by {
        assert forall|i: int| targets.to_set().contains(i) implies range.contains(i) by {
            let k = choose|k: int| 0 <= k < targets.len() && targets[k] == i;
            assert(writes[k].0 < capacity);
        }
    }
    vstd::set_lib::lemma_subset_equality(targets.to_set(), range);
    assert forall|i: int| 0 <= i < cells.len() implies cells[i] is Some by {
        assert(range.contains(i));
        assert(targets.to_set().contains(i));
        let k = choose|k: int| 0 <= k < targets.len() && targets[k] == i;
        lemma_last_write_wins(vacant::<T>(capacity), writes, k);
    }
    lemma_complete_iff_all_live(cells);
    assert forall|k: int| 0 <= k < writes.len() implies live_values(cells)[#[trigger] writes[k].0
        as int] == writes[k].1 by {
        lemma_last_write_wins(vacant::<T>(capacity), writes, k);
    }
}

/// A cell of a fresh buffer holds a value exactly when some write names it.
pub proof fn lemma_written_occupied<T>(capacity: nat, writes: Seq<(usize, T)>, index: int)
    requires
        0 <= index < capacity,
    ensures
        written(vacant::<T>(capacity), writes)[index] is Some <==> exists|k: int|
            0 <= k < writes.len() && (#[trigger] writes[k]).0 == index,
    decreases writes.len(),
{
    if writes.len() > 0 {
        let earlier = writes.drop_last();
        lemma_written_len(vacant::<T>(capacity), earlier);
        lemma_written_occupied(capacity, earlier, index);
        if writes.last().0 == index {
            assert(writes[writes.len() - 1].0 == index);
        } else {
            if exists|k: int| 0 <= k < earlier.len() && (#[trigger] earlier[k]).0 == index {
                let k = choose|k: int| 0 <= k < earlier.len() && (#[trigger] earlier[k]).0 == index;
                assert(writes[k].0 == index);
            }
            if exists|k: int| 0 <= k < writes.len() && (#[trigger] writes[k]).0 == index {
                let k = choose|k: int| 0 <= k < writes.len() && (#[trigger] writes[k]).0 == index;
                assert(earlier[k].0 == index);
            }
        }
    }
}

/// When some cell of a fresh buffer is never written, completing the buffer
/// gives nothing, and trying to complete it gives an error. The error holds
/// the values of the cells that were written, and no others, in ascending
/// order of the indices of their cells.
pub proof fn lemma_some_cell_unwritten<T>(capacity: nat, writes: Seq<(usize, T)>, missing: int)
    requires
        0 <= missing < capacity,
        forall|k: int| 0 <= k < writes.len() ==> writes[k].0 != missing,
    ensures
        init_result(written(vacant::<T>(capacity), writes)) is None,
        try_init_result(written(vacant::<T>(capacity), writes)) == Err::<Seq<T>, Seq<T>>(
            live_values(written(vacant::<T>(capacity), writes)),
        ),
        ({
            let cells = written(vacant::<T>(capacity), writes);
            let values = live_values(cells);
            let positions = live_positions(cells);
            &&& values.len() == positions.len()
            &&& forall|j: int, k: int|
                0 <= j < k < positions.len() ==> positions[j] < positions[k]
            &&& forall|k: int|
                0 <= k < positions.len() ==> cells[#[trigger] positions[k]] == Some(values[k])
            &&& forall|i: int|
                0 <= i < capacity ==> (positions.contains(i) <==> exists|w: int|
                    0 <= w < writes.len() && (#[trigger] writes[w]).0 == i)
        }),
{
    let cells = written(vacant::<T>(capacity), writes);
    let positions = live_positions(cells);
    lemma_written_len(vacant::<T>(capacity), writes);
    lemma_unwritten_kept(vacant::<T>(capacity), writes, missing);
    lemma_complete_iff_all_live(cells);
    assert(cells[missing] is None);
    lemma_live_values_in_index_order(cells);
    assert forall|i: int| 0 <= i < capacity implies (positions.contains(i) <==> exists|w: int|
        0 <= w < writes.len() && (#[trigger] writes[w]).0 == i) by {
        lemma_written_occupied(capacity, writes, i);
        if positions.contains(i) {
            let k = choose|k: int| 0 <= k < positions.len() && positions[k] == i;
            assert(cells[positions[k]] is Some);
        }
    }
}

} // verus!
