//! The occupancy flags of a buffer, kept in a `fixedbitset::FixedBitSet`.
//!
//! Verus cannot look inside a `FixedBitSet`, so the flags it holds are given
//! a name, [`flags`], and the contracts of the three methods that the buffer
//! calls are stated over that name. Those contracts are taken on trust from
//! the source of `fixedbitset`; everything else in this module is proved.

use fixedbitset::FixedBitSet;
use vstd::prelude::*;

verus! {

/// `fixedbitset::FixedBitSet`, a set of bits of fixed length. Verus is told
/// that the type is there and nothing of what is inside.
#[verifier::external_type_specification]
#[verifier::external_body]
pub struct ExFixedBitSet(fixedbitset::FixedBitSet);

/// The flags that a bit set holds, lowest index first. Its length is the
/// number of bits that the set was created with.
pub uninterp spec fn flags(bits: FixedBitSet) -> Seq<bool>;

/// The indices at which `flags` is set, in ascending order.
pub open spec fn set_positions(flags: Seq<bool>) -> Seq<int>
    decreases flags.len(),
{
    if flags.len() == 0 {
        Seq::empty()
    } else if flags.last() {
        set_positions(flags.drop_last()).push(flags.len() - 1)
    } else {
        set_positions(flags.drop_last())
    }
}

/// The number of flags that are set.
pub open spec fn count_set(flags: Seq<bool>) -> nat {
    set_positions(flags).len()
}

/// `FixedBitSet::with_capacity` makes a set of `bits` bits, all of them
/// clear.
pub assume_specification[ FixedBitSet::with_capacity ](bits: usize) -> (set: FixedBitSet)
    ensures
        flags(set) == Seq::new(bits as nat, |i: int| false),
;

/// `FixedBitSet::put` sets the bit at `bit`, leaves every other bit as it
/// was, and returns whether the bit was set before. The method panics when
/// `bit` is not below the length of the set, so that is required here.
pub assume_specification[ FixedBitSet::put ](set: &mut FixedBitSet, bit: usize) -> (was_set: bool)
    requires
        bit < flags(*old(set)).len(),
    ensures
        was_set == flags(*old(set))[bit as int],
        flags(*final(set)) == flags(*old(set)).update(bit as int, true),
;

/// `FixedBitSet::into_ones` consumes the set and yields the indices of its
/// set bits from the lowest to the highest; they are collected into a
/// vector here.
#[verifier::external_body]
pub(crate) fn into_ones(bits: FixedBitSet) -> (ones: Vec<usize>)
    ensures
        ones@.map_values(|p: usize| p as int) == set_positions(flags(bits)),
{
    bits.into_ones().collect()
}

/// Every position is the index of a set flag, and the positions ascend.
pub proof fn lemma_set_positions_ascend(flags: Seq<bool>)
    ensures
        forall|k: int|
            0 <= k < set_positions(flags).len() ==> {
                &&& 0 <= #[trigger] set_positions(flags)[k] < flags.len()
                &&& flags[set_positions(flags)[k]]
            },
        forall|j: int, k: int|
            0 <= j < k < set_positions(flags).len() ==> set_positions(flags)[j] < set_positions(
                flags,
            )[k],
    decreases flags.len(),
{
    if flags.len() > 0 {
        let front = flags.drop_last();
        let rest = set_positions(front);
        lemma_set_positions_ascend(front);
        assert forall|k: int| 0 <= k < set_positions(flags).len() implies {
            &&& 0 <= #[trigger] set_positions(flags)[k] < flags.len()
            &&& flags[set_positions(flags)[k]]
        } by {
            if k < rest.len() {
                assert(set_positions(flags)[k] == rest[k]);
                assert(front[rest[k]] == flags[rest[k]]);
            }
        }
        assert forall|j: int, k: int| 0 <= j < k < set_positions(flags).len() implies set_positions(
            flags,
        )[j] < set_positions(flags)[k] by {
            assert(set_positions(flags)[j] == rest[j]);
            if k < rest.len() {
                assert(set_positions(flags)[k] == rest[k]);
            }
        }
    }
}

/// Every index of a set flag is among the positions.
pub proof fn lemma_set_positions_cover(flags: Seq<bool>, i: int)
    requires
        0 <= i < flags.len(),
        flags[i],
    ensures
        set_positions(flags).contains(i),
    decreases flags.len(),
{
    let rest = set_positions(flags.drop_last());
    if i == flags.len() - 1 {
        assert(rest.push(i)[rest.len() as int] == i);
    } else {
        lemma_set_positions_cover(flags.drop_last(), i);
        let k = choose|k: int| 0 <= k < rest.len() && rest[k] == i;
        assert(set_positions(flags)[k] == i);
    }
}

/// No more flags are set than there are flags.
pub proof fn lemma_count_set_bound(flags: Seq<bool>)
    ensures
        count_set(flags) <= flags.len(),
    decreases flags.len(),
{
    if flags.len() > 0 {
        lemma_count_set_bound(flags.drop_last());
    }
}

/// Where no flag is set, there are no positions.
pub proof fn lemma_count_set_clear(flags: Seq<bool>)
    requires
        forall|i: int| 0 <= i < flags.len() ==> !flags[i],
    ensures
        set_positions(flags) == Seq::<int>::empty(),
    decreases flags.len(),
{
    if flags.len() > 0 {
        lemma_count_set_clear(flags.drop_last());
    }
}

/// Setting a flag adds one to the count if the flag was clear, and nothing
/// if it was set.
pub proof fn lemma_count_set_update(flags: Seq<bool>, i: int)
    requires
        0 <= i < flags.len(),
    ensures
        count_set(flags.update(i, true)) == count_set(flags) + if flags[i] {
            0nat
        } else {
            1nat
        },
    decreases flags.len(),
{
    let after = flags.update(i, true);
    if i == flags.len() - 1 {
        assert(after.drop_last() == flags.drop_last());
    } else {
        assert(after.drop_last() == flags.drop_last().update(i, true));
        lemma_count_set_update(flags.drop_last(), i);
    }
}

} // verus!
