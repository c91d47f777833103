//! The buffer: a fixed number of slots that are filled one by one, in any
//! order, and that turn into a plain vector once every slot holds a value.

use crate::bits::{
    count_set, flags, into_ones, lemma_count_set_bound, lemma_count_set_clear,
    lemma_count_set_update,
};
use crate::cells::{
    init_result, is_complete, lemma_complete_iff_all_live, lemma_complete_values,
    lemma_live_count_is_count_set, lemma_live_count_stored, lemma_live_values_in_index_order,
    lemma_vacant, live_count, live_positions, live_values, occupancy, stored, try_init_result,
    vacant,
};
use fixedbitset::FixedBitSet;
use vstd::prelude::*;

verus! {

/// The error of [`InitVec::insert`]: `index` is not below `capacity`.
#[derive(Debug, Clone, Copy, PartialEq, Eq, Structural)]
pub struct OutOfRange {
    pub index: usize,
    pub capacity: usize,
}

/// A vector of slots that are filled one by one, in any order.
///
/// Its view is the sequence of its cells: `None` for an empty slot, `Some`
/// for one that holds a value.
#[derive(Debug)]
pub struct InitVec<T> {
    slots: Vec<Option<T>>,
    init: FixedBitSet,
    init_count: usize,
}

impl<T> View for InitVec<T> {
    type V = Seq<Option<T>>;

    closed spec fn view(&self) -> Seq<Option<T>> {
        self.slots@
    }
}

impl<T> InitVec<T> {
    /// The flags record which slots hold a value, and the count is the
    /// number of set flags.
    #[verifier::type_invariant]
    spec fn well_formed(&self) -> bool {
        &&& flags(self.init) == occupancy(self.slots@)
        &&& self.init_count == count_set(flags(self.init))
    }

    /// Create new vector of `capacity` initially empty slots for items `T`.
    pub fn with_capacity(capacity: usize) -> (buffer: Self)
        ensures
            buffer@ == vacant::<T>(capacity as nat),
            live_count(buffer@) == 0,
    {
        proof {
            lemma_vacant::<T>(capacity as nat);
        }
        let mut slots: Vec<Option<T>> = Vec::with_capacity(capacity);
        let mut n: usize = 0;
        while n < capacity
            invariant
                n <= capacity,
                slots@ == vacant::<T>(n as nat),
            decreases capacity - n,
        {
            slots.push(None);
            n += 1;
        }
        let init = FixedBitSet::with_capacity(capacity);
        proof {
            assert(flags(init) == occupancy(slots@));
            lemma_count_set_clear(flags(init));
        }
        Self { slots, init, init_count: 0 }
    }

    /// Fill slot `i` with `item`.
    ///
    /// Note that this drops any value previously inserted at position `i`.
    ///
    /// ### Errors
    /// When `i` is out of bounds (see [`InitVec::with_capacity`]), nothing
    /// is written and the error says so.
    pub fn insert(&mut self, i: usize, item: T) -> (done: Result<(), OutOfRange>)
        ensures
            final(self)@ == stored(old(self)@, i as int, item),
            i < old(self)@.len() ==> done is Ok && final(self)@ == old(self)@.update(
                i as int,
                Some(item),
            ),
            i >= old(self)@.len() ==> final(self)@ == old(self)@ && done == Err::<(), OutOfRange>(
                OutOfRange { index: i, capacity: old(self)@.len() as usize },
            ),
            live_count(final(self)@) == live_count(old(self)@) + if i < old(self)@.len() && old(
                self,
            )@[i as int] is None {
                1nat
            } else {
                0nat
            },
    {
        if i >= self.slots.len() {
            return Err(OutOfRange { index: i, capacity: self.slots.len() });
        }
        // The slot, its flag and the count change together: the parts are
        // taken out, changed, and put back as one.
        let mut taken = Self::with_capacity(0);
        core::mem::swap(self, &mut taken);
        let (mut slots, mut init, mut init_count) = taken.into_parts();
        proof {
            lemma_live_count_is_count_set(slots@);
            lemma_live_count_stored(slots@, i as int, item);
            lemma_count_set_update(flags(init), i as int);
        }
        let was_set = init.put(i);
        slots[i] = Some(item);
        proof {
            assert(flags(init) == occupancy(slots@));
            lemma_count_set_bound(flags(init));
        }
        if !was_set {
            init_count += 1;
        }
        *self = InitVec { slots, init, init_count };
        Ok(())
    }

    /// Takes the buffer apart: its slots, its flags and the count of set
    /// flags.
    fn into_parts(self) -> (parts: (Vec<Option<T>>, FixedBitSet, usize))
        ensures
            parts.0@ == self@,
            flags(parts.1) == occupancy(self@),
            parts.2 == live_count(self@),
    {
        proof {
            use_type_invariant(&self);
            lemma_live_count_is_count_set(self.slots@);
        }
        (self.slots, self.init, self.init_count)
    }

    /// Turn `self` into a vector of items.
    ///
    /// ### Returns
    ///  - `Ok(items)` when all slots were filled
    ///  - `Err(items)` when some slots were empty. Then the items of the
    ///    filled slots are returned in the error, in the order of their
    ///    slots.
    pub fn try_init(self) -> (outcome: Result<Vec<T>, Vec<T>>)
        ensures
            match outcome {
                Ok(items) => try_init_result(self@) == Ok::<Seq<T>, Seq<T>>(items@),
                Err(items) => try_init_result(self@) == Err::<Seq<T>, Seq<T>>(items@),
            },
    {
        proof {
            use_type_invariant(&self);
            lemma_live_count_is_count_set(self.slots@);
        }
        if self.init_count < self.slots.len() {
            Err(self.init_some())
        } else {
            proof {
                lemma_complete_iff_all_live(self@);
            }
            Ok(self.init_all())
        }
    }

    /// Turn `self` into a vector of items.
    ///
    /// Returns `None` when some slots were empty.
    pub fn init(self) -> (outcome: Option<Vec<T>>)
        ensures
            match outcome {
                Some(items) => init_result(self@) == Some(items@),
                None => init_result(self@) is None,
            },
    {
        proof {
            use_type_invariant(&self);
            lemma_live_count_is_count_set(self.slots@);
        }
        if self.init_count < self.slots.len() {
            None
        } else {
            proof {
                lemma_complete_iff_all_live(self@);
            }
            Some(self.init_all())
        }
    }

    /// The items of a buffer whose slots are all filled.
    fn init_all(self) -> (items: Vec<T>)
        requires
            is_complete(self@),
        ensures
            items@ == live_values(self@),
    {
        let (mut slots, _, _) = self.into_parts();
        let ghost cells = slots@;
        proof {
            lemma_complete_values(cells);
            assert forall|j: int| 0 <= j < cells.len() implies cells[j] == Some(
                live_values(cells)[j],
            ) by {
                assert(cells[j] == live_values(cells).map_values(|value: T| Some(value))[j]);
            }
        }
        let mut items: Vec<T> = Vec::with_capacity(slots.len());
        let mut i: usize = 0;
        while i < slots.len()
            invariant
                i <= slots.len(),
                slots@.len() == cells.len(),
                live_values(cells).len() == cells.len(),
                forall|j: int|
                    0 <= j < cells.len() ==> #[trigger] cells[j] == Some(live_values(cells)[j]),
                forall|j: int| i <= j < cells.len() ==> slots@[j] == cells[j],
                items@ == live_values(cells).take(i as int),
            decreases slots.len() - i,
        {
            assert(slots@[i as int] == cells[i as int]);
            let slot = slots[i].take();
            items.push(slot.unwrap());
            i += 1;
        }
        items
    }

    /// The items of the filled slots, in the order of their slots.
    fn init_some(self) -> (items: Vec<T>)
        ensures
            items@ == live_values(self@),
    {
        let (mut slots, init, init_count) = self.into_parts();
        let ghost cells = slots@;
        let mut items: Vec<T> = Vec::with_capacity(init_count);
        let ones = into_ones(init);
        proof {
            lemma_live_values_in_index_order(cells);
            assert(ones@.len() == live_positions(cells).len());
            assert forall|k: int| 0 <= k < ones@.len() implies ones@[k] as int == live_positions(
                cells,
            )[k] by {
                assert(ones@.map_values(|p: usize| p as int)[k] == ones@[k] as int);
            }
        }
        let mut k: usize = 0;
        while k < ones.len()
            invariant
                k <= ones.len(),
                slots@.len() == cells.len(),
                ones@.len() == live_positions(cells).len(),
                ones@.len() == live_values(cells).len(),
                forall|m: int| 0 <= m < ones@.len() ==> ones@[m] as int == live_positions(cells)[m],
                forall|m: int|
                    0 <= m < ones@.len() ==> {
                        &&& 0 <= #[trigger] live_positions(cells)[m] < cells.len()
                        &&& cells[live_positions(cells)[m]] == Some(live_values(cells)[m])
                    },
                forall|m: int, n: int|
                    0 <= m < n < ones@.len() ==> live_positions(cells)[m] < live_positions(
                        cells,
                    )[n],
                forall|m: int|
                    k <= m < ones@.len() ==> slots@[live_positions(cells)[m]]
                        == cells[live_positions(cells)[m]],
                items@ == live_values(cells).take(k as int),
            decreases ones.len() - k,
        {
            let i = ones[k];
            let slot = slots[i].take();
            items.push(slot.unwrap());
            k += 1;
        }
        items
    }
}

} // verus!
