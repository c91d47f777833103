//! The mathematical model of a buffer: a sequence of cells, each of them
//! empty (`None`) or holding a value (`Some`), and what the buffer's
//! operations are on such a sequence.

use crate::bits::{
    count_set, lemma_count_set_clear, lemma_set_positions_ascend, lemma_set_positions_cover,
    set_positions,
};
use vstd::prelude::*;

verus! {

/// The cells of a fresh buffer: `capacity` of them, all empty.
pub open spec fn vacant<T>(capacity: nat) -> Seq<Option<T>> {
    Seq::new(capacity, |i: int| None::<T>)
}

/// The cells after `item` was written at `index`. A write outside the
/// cells changes nothing.
pub open spec fn stored<T>(cells: Seq<Option<T>>, index: int, item: T) -> Seq<Option<T>> {
    if 0 <= index < cells.len() {
        cells.update(index, Some(item))
    } else {
        cells
    }
}

/// The values that the cells hold, in ascending order of their index.
pub open spec fn live_values<T>(cells: Seq<Option<T>>) -> Seq<T>
    decreases cells.len(),
{
    if cells.len() == 0 {
        Seq::empty()
    } else {
        match cells.last() {
            Some(value) => live_values(cells.drop_last()).push(value),
            None => live_values(cells.drop_last()),
        }
    }
}

/// The number of cells that hold a value.
pub open spec fn live_count<T>(cells: Seq<Option<T>>) -> nat {
    live_values(cells).len()
}

/// Whether as many cells hold a value as there are cells.
pub open spec fn is_complete<T>(cells: Seq<Option<T>>) -> bool {
    live_count(cells) == cells.len()
}

/// What completing a buffer with these cells gives: all the values if the
/// cells are complete, nothing otherwise.
pub open spec fn init_result<T>(cells: Seq<Option<T>>) -> Option<Seq<T>> {
    if is_complete(cells) {
        Some(live_values(cells))
    } else {
        None
    }
}

/// What trying to complete a buffer with these cells gives: all the values
/// if the cells are complete, and otherwise, as the error, the values that
/// are there.
pub open spec fn try_init_result<T>(cells: Seq<Option<T>>) -> Result<Seq<T>, Seq<T>> {
    if is_complete(cells) {
        Ok(live_values(cells))
    } else {
        Err(live_values(cells))
    }
}

/// Which cells hold a value.
pub open spec fn occupancy<T>(cells: Seq<Option<T>>) -> Seq<bool> {
    Seq::new(cells.len(), |i: int| cells[i] is Some)
}

/// The indices of the cells that hold a value, in ascending order.
pub open spec fn live_positions<T>(cells: Seq<Option<T>>) -> Seq<int> {
    set_positions(occupancy(cells))
}

/// The live count never exceeds the number of cells, and reaches it exactly
/// when every cell holds a value.
pub proof fn lemma_complete_iff_all_live<T>(cells: Seq<Option<T>>)
    ensures
        live_count(cells) <= cells.len(),
        is_complete(cells) <==> forall|i: int| 0 <= i < cells.len() ==> cells[i] is Some,
    decreases cells.len(),
{
    if cells.len() > 0 {
        let front = cells.drop_last();
        lemma_complete_iff_all_live(front);
        if is_complete(cells) {
            assert forall|i: int| 0 <= i < cells.len() implies cells[i] is Some by {
                if i < front.len() {
                    assert(front[i] is Some);
                }
            }
        }
        if forall|i: int| 0 <= i < cells.len() ==> cells[i] is Some {
            assert forall|i: int| 0 <= i < front.len() implies front[i] is Some by {
                assert(cells[i] is Some);
            }
        }
    }
}

/// The values of complete cells are one per cell, each at the index of its
/// cell.
pub proof fn lemma_complete_values<T>(cells: Seq<Option<T>>)
    requires
        is_complete(cells),
    ensures
        cells == live_values(cells).map_values(|value: T| Some(value)),
    decreases cells.len(),
{
    lemma_complete_iff_all_live(cells);
    if cells.len() > 0 {
        let front = cells.drop_last();
        assert(cells.last() is Some);
        assert(is_complete(front));
        lemma_complete_values(front);
        let wrapped = live_values(cells).map_values(|value: T| Some(value));
        assert forall|i: int| 0 <= i < cells.len() implies cells[i] == wrapped[i] by {
            if i < front.len() {
                assert(cells[i] == front[i]);
                assert(live_values(cells)[i] == live_values(front)[i]);
            }
        }
    }
    assert(cells =~= live_values(cells).map_values(|value: T| Some(value)));
}

/// The values that the cells hold are those at the live positions, and these
/// positions are the indices of the occupied cells, each once, in ascending
/// order.
pub proof fn lemma_live_values_in_index_order<T>(cells: Seq<Option<T>>)
    ensures
        live_values(cells).len() == live_positions(cells).len(),
        forall|k: int|
            0 <= k < live_positions(cells).len() ==> {
                &&& 0 <= #[trigger] live_positions(cells)[k] < cells.len()
                &&& cells[live_positions(cells)[k]] == Some(live_values(cells)[k])
            },
        forall|j: int, k: int|
            0 <= j < k < live_positions(cells).len() ==> live_positions(cells)[j] < live_positions(
                cells,
            )[k],
        forall|i: int|
            0 <= i < cells.len() && cells[i] is Some ==> live_positions(cells).contains(i),
    decreases cells.len(),
{
    lemma_set_positions_ascend(occupancy(cells));
    assert forall|i: int| 0 <= i < cells.len() && cells[i] is Some implies live_positions(
        cells,
    ).contains(i) by {
        lemma_set_positions_cover(occupancy(cells), i);
    }
    if cells.len() > 0 {
        let front = cells.drop_last();
        lemma_live_values_in_index_order(front);
        assert(occupancy(cells).drop_last() == occupancy(front));
    }
}

/// A fresh buffer holds no value. Completing it gives the empty sequence if
/// it has no cells at all, and nothing otherwise.
pub proof fn lemma_vacant<T>(capacity: nat)
    ensures
        live_count(vacant::<T>(capacity)) == 0,
        init_result(vacant::<T>(capacity)) == if capacity == 0 {
            Some(Seq::<T>::empty())
        } else {
            None
        },
{
    lemma_live_values_in_index_order(vacant::<T>(capacity));
    lemma_count_set_clear(occupancy(vacant::<T>(capacity)));
    assert(live_values(vacant::<T>(capacity)) =~= Seq::<T>::empty());
}

/// The live count of the cells is the number of set flags of their
/// occupancy.
pub proof fn lemma_live_count_is_count_set<T>(cells: Seq<Option<T>>)
    ensures
        live_count(cells) == count_set(occupancy(cells)),
{
    lemma_live_values_in_index_order(cells);
}

/// A write into an empty cell adds one to the live count; a write into an
/// occupied cell leaves the count as it was.
pub proof fn lemma_live_count_stored<T>(cells: Seq<Option<T>>, index: int, item: T)
    requires
        0 <= index < cells.len(),
    ensures
        live_count(stored(cells, index, item)) == live_count(cells) + if cells[index] is Some {
            0nat
        } else {
            1nat
        },
    decreases cells.len(),
{
    let after = cells.update(index, Some(item));
    if index == cells.len() - 1 {
        assert(after.drop_last() == cells.drop_last());
    } else {
        assert(after.drop_last() == cells.drop_last().update(index, Some(item)));
        lemma_live_count_stored(cells.drop_last(), index, item);
    }
}

} // verus!
