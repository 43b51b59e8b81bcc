//! What holds of the erased vector and container across calls.
//!
//! Each statement is about the models that the contracts speak of: the images
//! a vector holds, its length and capacity, and its record of destructor
//! runs.

use crate::collections::vec::{grown_capacity, ImposterVec};
use crate::erase::Erasable;
use crate::imposter::Imposter;
use vstd::multiset::Multiset;
use vstd::prelude::*;

verus! {

/// The images left once the element at `index` was removed by swapping: the
/// last image takes its place.
pub open spec fn swap_removed(images: Seq<Seq<u8>>, index: int) -> Seq<Seq<u8>> {
    images.update(index, images.last()).drop_last()
}

/// The capacity of a vector that was made empty and then pushed to `pushes`
/// times, for elements that take room.
pub open spec fn capacity_after_pushes(pushes: nat) -> int
    decreases pushes,
{
    if pushes == 0 {
        0
    } else {
        let before = capacity_after_pushes((pushes - 1) as nat);
        if pushes - 1 == before {
            grown_capacity(before)
        } else {
            before
        }
    }
}

/// Two to the power of `exponent`.
pub open spec fn power_of_two(exponent: nat) -> int
    decreases exponent,
{
    if exponent == 0 {
        1
    } else {
        2 * power_of_two((exponent - 1) as nat)
    }
}

/// Is each of `picks` in turn the index of an element, when each removes one
/// element from `len` of them?
pub open spec fn picks_in_range(len: int, picks: Seq<int>) -> bool
    decreases picks.len(),
{
    picks.len() == 0 || (0 <= picks[0] < len && picks_in_range(len - 1, picks.drop_first()))
}

/// The images left after `swap_drop` was called with each of `picks` in turn.
pub open spec fn left_after_drops(images: Seq<Seq<u8>>, picks: Seq<int>) -> Seq<Seq<u8>>
    decreases picks.len(),
{
    if picks.len() == 0 {
        images
    } else {
        left_after_drops(swap_removed(images, picks[0]), picks.drop_first())
    }
}

/// The images finalized, in order, while `swap_drop` was called with each of
/// `picks` in turn.
pub open spec fn dropped_by(images: Seq<Seq<u8>>, picks: Seq<int>) -> Seq<Seq<u8>>
    decreases picks.len(),
{
    if picks.len() == 0 {
        Seq::empty()
    } else {
        seq![images[picks[0]]] + dropped_by(swap_removed(images, picks[0]), picks.drop_first())
    }
}

/// An item that is pushed is read back as itself at the index it was pushed
/// to, and the elements before it read as they did.
///
/// `after` is any vector that `push_item(item)` may leave from `before`.
pub proof fn push_then_get<T: Erasable>(before: ImposterVec, after: ImposterVec, item: T)
    requires
        before.holds::<T>(),
        after@ == before@.push(item.image()),
        after.spec_type_id() == before.spec_type_id(),
        after.spec_layout() == before.spec_layout(),
    ensures
        after.value_at::<T>(before@.len() as int) == Some(item),
        forall|i: int|
            0 <= i < before@.len() ==> #[trigger] after.value_at::<T>(i) == before.value_at::<T>(i),
{
    T::image_round_trip(item);
}

/// A vector that was made empty and only pushed to has the capacity that
/// doubling from one slot gives: one more push keeps it so.
///
/// `after` is any vector that a push may leave from `before`.
pub proof fn push_follows_doubling(before: ImposterVec, after: ImposterVec)
    requires
        before.wf(),
        before.spec_layout().size > 0,
        before.spec_capacity() == capacity_after_pushes(before.spec_len() as nat),
        after.spec_len() == before.spec_len() + 1,
        after.spec_capacity() == before.capacity_after_push(),
    ensures
        after.spec_capacity() == capacity_after_pushes(after.spec_len() as nat),
        after.spec_capacity() >= after.spec_len(),
{
    doubling_from_one(after.spec_len() as nat);
}

/// Doubling from one slot: after no push the capacity is 0; after `pushes`
/// pushes it is the power of two that is at least `pushes` and less than
/// twice as much, so 0, 1, 2, 4, 4, 8, and so on. It is never less than
/// the number of pushes.
pub proof fn doubling_from_one(pushes: nat)
    ensures
        capacity_after_pushes(pushes) >= pushes,
        pushes == 0 ==> capacity_after_pushes(pushes) == 0,
        pushes > 0 ==> capacity_after_pushes(pushes) < 2 * pushes,
        pushes > 0 ==> exists|exponent: nat|
            capacity_after_pushes(pushes) == #[trigger] power_of_two(exponent),
    decreases pushes,
{
    if pushes == 1 {
        assert(capacity_after_pushes(0) == 0);
        assert(capacity_after_pushes(1) == 1);
        assert(power_of_two(0) == 1);
    } else if pushes > 1 {
        let fewer = (pushes - 1) as nat;
        doubling_from_one(fewer);
        let before = capacity_after_pushes(fewer);
        let exponent = choose|exponent: nat| before == #[trigger] power_of_two(exponent);
        if fewer == before {
            assert(capacity_after_pushes(pushes) == 2 * before);
            assert(power_of_two(exponent + 1) == 2 * power_of_two(exponent));
        } else {
            assert(capacity_after_pushes(pushes) == before);
        }
    }
}

/// Elements of size zero take no room: a push leaves the capacity at 0,
/// where it always is for them, while the length goes up by one.
///
/// `after` is any vector that a push may leave from `before`.
pub proof fn zero_sized_push_takes_no_room(before: ImposterVec, after: ImposterVec)
    requires
        before.wf(),
        before.spec_layout().size == 0,
        after.spec_len() == before.spec_len() + 1,
        after.spec_capacity() == before.capacity_after_push(),
    ensures
        before.spec_capacity() == 0,
        after.spec_capacity() == 0,
        after.spec_len() == before.spec_len() + 1,
{
    before.lemma_wf();
}

/// Removal by swapping: one element fewer, the last element in the place of
/// the one removed (unless that was the last), every other element where it
/// was.
pub proof fn swap_removed_layout(images: Seq<Seq<u8>>, index: int)
    requires
        0 <= index < images.len(),
    ensures
        swap_removed(images, index).len() == images.len() - 1,
        index != images.len() - 1 ==> swap_removed(images, index)[index] == images.last(),
        forall|i: int|
            0 <= i < images.len() - 1 && i != index ==> #[trigger] swap_removed(images, index)[i]
                == images[i],
{
}

/// The imposter that `swap_remove(index)` hands out reads as the element at
/// `index` did.
///
/// `removed` is any imposter that `swap_remove(index)` may hand out from
/// `before`.
pub proof fn swap_remove_hands_out_the_element<T: Erasable>(
    before: ImposterVec,
    removed: Imposter,
    index: int,
)
    requires
        0 <= index < before@.len(),
        removed@ == before@[index],
        removed.spec_type_id() == before.spec_type_id(),
        removed.spec_layout() == before.spec_layout(),
    ensures
        removed.value::<T>() == before.value_at::<T>(index),
{
}

/// Removing one element by swapping takes exactly that element away: put
/// back, it gives the images there were, in some order.
pub proof fn swap_removed_takes_one(images: Seq<Seq<u8>>, index: int)
    requires
        0 <= index < images.len(),
    ensures
        swap_removed(images, index).to_multiset().insert(images[index]) == images.to_multiset(),
{
    broadcast use vstd::multiset::group_multiset_axioms;

    let written = images.update(index, images.last());
    let left = swap_removed(images, index);
    assert(left.push(images.last()) =~= written);
    vstd::seq_lib::to_multiset_build(left, images.last());
    vstd::seq_lib::to_multiset_update(images, index, images.last());
    vstd::seq_lib::to_multiset_contains(images, images[index]);
    assert(images.contains(images[index]));
    let with_last = left.to_multiset().insert(images.last());
    assert(with_last == images.to_multiset().insert(images.last()).remove(images[index]));
    assert forall|image: Seq<u8>|
        left.to_multiset().insert(images[index]).count(image) == images.to_multiset().count(
            image,
        ) by {
        assert(with_last.count(image) == left.to_multiset().count(image) + if image
            == images.last() {
            1int
        } else {
            0int
        });
    }
    assert(left.to_multiset().insert(images[index]) =~= images.to_multiset());
}

/// No images, none to count.
proof fn no_images()
    ensures
        Seq::<Seq<u8>>::empty().to_multiset() == Multiset::<Seq<u8>>::empty(),
{
    broadcast use vstd::multiset::group_multiset_axioms;

    assert forall|image: Seq<u8>| Seq::<Seq<u8>>::empty().to_multiset().count(image) == 0 by {
        vstd::seq_lib::to_multiset_contains(Seq::<Seq<u8>>::empty(), image);
    }
    assert(Seq::<Seq<u8>>::empty().to_multiset() =~= Multiset::<Seq<u8>>::empty());
}

/// Calling `swap_drop` until nothing is left finalizes every element once:
/// whatever indices are picked, as long as each is in range, the images
/// left together with the images finalized are the images there were, each
/// as often as it was there; and as many were finalized as calls were made.
pub proof fn swap_drops_finalize_each_once(images: Seq<Seq<u8>>, picks: Seq<int>)
    requires
        picks_in_range(images.len() as int, picks),
    ensures
        left_after_drops(images, picks).len() == images.len() - picks.len(),
        dropped_by(images, picks).len() == picks.len(),
        left_after_drops(images, picks).to_multiset().add(dropped_by(images, picks).to_multiset())
            == images.to_multiset(),
        picks.len() == images.len() ==> dropped_by(images, picks).to_multiset()
            == images.to_multiset(),
    decreases picks.len(),
{
    broadcast use vstd::multiset::group_multiset_axioms;

    no_images();
    if picks.len() == 0 {
        assert(dropped_by(images, picks).to_multiset() =~= Multiset::<Seq<u8>>::empty());
        assert(left_after_drops(images, picks).to_multiset().add(
            dropped_by(images, picks).to_multiset(),
        ) =~= images.to_multiset());
    } else {
        let index = picks[0];
        let left = swap_removed(images, index);
        let rest = picks.drop_first();
        swap_drops_finalize_each_once(left, rest);
        swap_removed_takes_one(images, index);
        let later = dropped_by(left, rest);
        vstd::seq_lib::lemma_multiset_commutative(seq![images[index]], later);
        assert(seq![images[index]].to_multiset() =~= Multiset::<Seq<u8>>::empty().insert(
            images[index],
        )) by {
            vstd::seq_lib::to_multiset_build(Seq::<Seq<u8>>::empty(), images[index]);
            assert(Seq::<Seq<u8>>::empty().push(images[index]) =~= seq![images[index]]);
        }
        assert(left_after_drops(images, picks).to_multiset().add(
            dropped_by(images, picks).to_multiset(),
        ) =~= images.to_multiset());
    }
    if picks.len() == images.len() {
        assert(left_after_drops(images, picks).to_multiset() =~= Multiset::<Seq<u8>>::empty()) by {
            assert(left_after_drops(images, picks) =~= Seq::<Seq<u8>>::empty());
        }
        assert(dropped_by(images, picks).to_multiset() =~= images.to_multiset());
    }
}

/// An imposter made from `item` reads as `item` for its own type and as
/// nothing for every other type, and handing it back on a mismatch changes
/// neither.
///
/// `imposter` is any imposter that `Imposter::new(item)` may return.
pub proof fn new_then_downcast<T: Erasable, U: Erasable>(imposter: Imposter, item: T)
    requires
        imposter@ == item.image(),
        imposter.spec_type_id() == T::spec_type_id(),
        imposter.spec_layout() == T::spec_layout(),
    ensures
        imposter.value::<T>() == Some(item),
        !(U::spec_type_id() == T::spec_type_id() && U::spec_layout() == T::spec_layout())
            ==> imposter.value::<U>().is_none(),
{
    T::image_round_trip(item);
}

} // verus!
