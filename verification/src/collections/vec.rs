//! The erased vector: a growable sequence of values of one type that is
//! chosen when the vector is made.

use crate::erase::{Erasable, ImposterDrop};
use crate::imposter::Imposter;
use crate::layout::{Layout, TypeId};
use crate::memory::RawMemory;
use vstd::prelude::*;

verus! {

/// The capacity that a full buffer of `capacity` slots grows to: twice as
/// much, and at least one slot.
pub open spec fn grown_capacity(capacity: int) -> int {
    if capacity == 0 {
        1
    } else {
        2 * capacity
    }
}

/// A type-erased vector.
///
/// The elements lie side by side in one buffer. Removal swaps the last
/// element into the gap, so it is cheap and does not keep the order.
pub struct ImposterVec {
    typeid: TypeId,
    memory: RawMemory,
    len: usize,
    drop: Option<ImposterDrop>,
    finalized: Ghost<Seq<Seq<u8>>>,
}

impl Drop for ImposterVec {
    /// Finalizes every element the vector still owns, once each, as `clear`
    /// does; the buffer is freed with the vector.
    fn drop(&mut self)
        ensures
            final(self).finalized() == old(self).finalized_with(old(self)@),
            final(self).spec_len() == 0,
        opens_invariants none
        no_unwind
    {
        self.clear()
    }
}

impl ImposterVec {
    /// The buffer is sound, and every element has a slot in it. (Elements of
    /// size zero need none.)
    #[verifier::type_invariant]
    pub closed spec fn wf(&self) -> bool {
        &&& self.memory.wf()
        &&& self.memory.spec_element_layout().size > 0 ==> self.len <= self.memory.spec_capacity()
    }

    /// The number of elements.
    pub closed spec fn spec_len(&self) -> usize {
        self.len
    }

    /// The number of slots in the buffer.
    pub closed spec fn spec_capacity(&self) -> usize {
        self.memory.spec_capacity()
    }

    /// The tag of the element type.
    pub closed spec fn spec_type_id(&self) -> TypeId {
        self.typeid
    }

    /// The layout of one element.
    pub closed spec fn spec_layout(&self) -> Layout {
        self.memory.spec_element_layout()
    }

    /// The destructor of the element type, if it has one.
    pub closed spec fn spec_drop_fn(&self) -> Option<ImposterDrop> {
        self.drop
    }

    /// The images that this vector has handed to its destructor so far, in
    /// the order in which it did. Each entry is one run of the destructor.
    pub closed spec fn finalized(&self) -> Seq<Seq<u8>> {
        self.finalized@
    }

    /// The record of destructor runs once `images` were finalized in order:
    /// each of them is entered once if the vector has a destructor, and
    /// nothing is entered if it has none.
    pub open spec fn finalized_with(&self, images: Seq<Seq<u8>>) -> Seq<Seq<u8>> {
        if self.spec_drop_fn().is_some() {
            self.finalized() + images
        } else {
            self.finalized()
        }
    }

    /// The byte images of the elements, in order.
    pub closed spec fn view(&self) -> Seq<Seq<u8>> {
        Seq::new(self.len as nat, |i: int| self.memory.slot(i))
    }

    /// Is `T` the element type: same tag, same layout?
    pub open spec fn holds<T: Erasable>(&self) -> bool {
        self.spec_type_id() == T::spec_type_id() && self.spec_layout() == T::spec_layout()
    }

    /// Does `imposter` hold a value of the element type?
    pub open spec fn accepts(&self, imposter: &Imposter) -> bool {
        self.spec_type_id() == imposter.spec_type_id() && self.spec_layout()
            == imposter.spec_layout()
    }

    /// The element at `index` read as a `T`, if there is one and it is a `T`.
    pub open spec fn value_at<T: Erasable>(&self, index: int) -> Option<T> {
        if 0 <= index < self@.len() && self.holds::<T>() {
            T::from_image(self@[index])
        } else {
            None
        }
    }

    /// All elements read as values of `T`, if `T` is the element type and
    /// every image is a value of it.
    pub open spec fn typed<T: Erasable>(&self) -> Option<Seq<T>> {
        if self.holds::<T>() && forall|i: int|
            0 <= i < self@.len() ==> (#[trigger] T::from_image(self@[i])).is_some() {
            Some(Seq::new(self@.len(), |i: int| T::from_image(self@[i]).unwrap()))
        } else {
            None
        }
    }

    /// Can one more element be pushed within the limits of the machine?
    ///
    /// A full buffer grows to `grown_capacity` slots, whose bytes must be
    /// countable in a `usize`.
    pub open spec fn spec_has_room(&self) -> bool {
        if self.spec_layout().size == 0 {
            self.spec_len() < usize::MAX
        } else {
            self.spec_len() < self.spec_capacity() || grown_capacity(self.spec_capacity() as int)
                * self.spec_layout().size <= usize::MAX
        }
    }

    /// The capacity after one push.
    pub open spec fn capacity_after_push(&self) -> int {
        if self.spec_layout().size > 0 && self.spec_len() == self.spec_capacity() {
            grown_capacity(self.spec_capacity() as int)
        } else {
            self.spec_capacity() as int
        }
    }

    /// A sound vector has as many images as its length says, each of the
    /// element size, and never more elements than slots, unless the elements
    /// have size zero, for which no slot is ever made.
    pub proof fn lemma_wf(&self)
        requires
            self.wf(),
        ensures
            self@.len() == self.spec_len(),
            forall|i: int| 0 <= i < self@.len() ==> (#[trigger] self@[i]).len() == self.spec_layout().size,
            self.spec_layout().size > 0 ==> self.spec_len() <= self.spec_capacity(),
            self.spec_layout().size == 0 ==> self.spec_capacity() == 0,
    {
        self.memory.lemma_view();
    }

    /// A new, empty vector for items of type `T`. Nothing is allocated yet.
    pub fn new<T: Erasable>() -> (vec: Self)
        ensures
            vec.wf(),
            vec@ == Seq::<Seq<u8>>::empty(),
            vec.spec_len() == 0,
            vec.spec_capacity() == 0,
            vec.spec_type_id() == T::spec_type_id(),
            vec.spec_layout() == T::spec_layout(),
            vec.spec_drop_fn() == T::spec_drop_fn(),
            vec.finalized() == Seq::<Seq<u8>>::empty(),
    {
        let vec = ImposterVec {
            typeid: T::type_id(),
            memory: RawMemory::new::<T>(),
            len: 0,
            drop: T::drop_fn(),
            finalized: Ghost(Seq::empty()),
        };
        assert(vec@ =~= Seq::<Seq<u8>>::empty());
        vec
    }

    /// A vector whose one element is the value that `imposter` held, with the
    /// imposter's tag, layout and destructor. The imposter is given up; the
    /// destructor does not run, the value now belongs to the vector.
    pub fn from_imposter(imposter: Imposter) -> (vec: Self)
        ensures
            vec.wf(),
            vec@ == seq![imposter@],
            vec.spec_len() == 1,
            vec.spec_capacity() == if imposter.spec_layout().size > 0 {
                1usize
            } else {
                0usize
            },
            vec.spec_type_id() == imposter.spec_type_id(),
            vec.spec_layout() == imposter.spec_layout(),
            vec.spec_drop_fn() == imposter.spec_drop_fn(),
            vec.finalized() == Seq::<Seq<u8>>::empty(),
    {
        let mut memory = RawMemory::with_element_layout(imposter.layout());
        memory.resize(1);
        proof {
            memory.lemma_view();
        }
        memory.copy_to_index_unchecked(imposter.data(), 0);
        proof {
            memory.lemma_view();
        }
        let vec = ImposterVec {
            typeid: imposter.type_id(),
            memory,
            len: 1,
            drop: imposter.drop_fn(),
            finalized: Ghost(Seq::empty()),
        };
        assert(vec@[0] =~= imposter@);
        assert(vec@ =~= seq![imposter@]);
        imposter.dispose_and_forget();
        vec
    }

    /// The tag of the element type.
    pub fn type_id(&self) -> (id: TypeId)
        ensures
            id == self.spec_type_id(),
    {
        self.typeid
    }

    /// The number of elements.
    pub fn len(&self) -> (len: usize)
        ensures
            len == self.spec_len(),
            len == self@.len(),
    {
        self.len
    }

    /// Is the vector empty?
    pub fn is_empty(&self) -> (empty: bool)
        ensures
            empty == (self.spec_len() == 0),
    {
        self.len() == 0
    }

    /// The number of slots in the buffer. It is never less than the length,
    /// except for elements of size zero, for which it stays 0.
    pub fn capacity(&self) -> (capacity: usize)
        ensures
            capacity == self.spec_capacity(),
            self.spec_layout().size > 0 ==> capacity >= self.spec_len(),
            self.spec_layout().size == 0 ==> capacity == 0,
    {
        proof {
            use_type_invariant(self);
            self.lemma_wf();
        }
        self.memory.capacity()
    }

    /// Tells whether one more element can be pushed within the limits of the
    /// machine; every push asks for it.
    #[verifier::when_used_as_spec(spec_has_room)]
    pub fn has_room(&self) -> (room: bool)
        ensures
            room == self.spec_has_room(),
    {
        proof {
            use_type_invariant(self);
            self.lemma_wf();
        }
        let size = self.memory.element_layout().size;
        let capacity = self.memory.capacity();
        if size == 0 {
            self.len < usize::MAX
        } else if self.len < capacity || capacity == 0 {
            true
        } else {
            let half: usize = usize::MAX / 2;
            let most: usize = half / size;
            proof {
                let c = capacity as int;
                let s = size as int;
                let h = half as int;
                let m = most as int;
                assert(h * 2 <= usize::MAX < h * 2 + 2);
                assert(m * s <= h < (m + 1) * s) by (nonlinear_arith)
                    requires
                        m == h / s,
                        s > 0,
                        h >= 0,
                ;
                if c <= m {
                    assert(2 * c * s <= usize::MAX) by (nonlinear_arith)
                        requires
                            c <= m,
                            m * s <= h,
                            h * 2 <= usize::MAX,
                            s > 0,
                            c >= 0,
                    ;
                } else {
                    assert(2 * c * s > usize::MAX) by (nonlinear_arith)
                        requires
                            c >= m + 1,
                            h < (m + 1) * s,
                            usize::MAX < h * 2 + 2,
                            s > 0,
                    ;
                }
            }
            capacity <= most
        }
    }

    /// Tells whether `T` is foreign to this vector: `true` if its elements
    /// are not of type `T`, `false` if they are.
    pub fn is_type<T: Erasable>(&self) -> (foreign: bool)
        ensures
            foreign == !self.holds::<T>(),
    {
        T::type_id() != self.typeid || T::layout() != self.memory.element_layout()
    }

    /// Removes all elements, running the destructor, if there is one, on each
    /// of them once, in order. The length is reset before the first
    /// destructor runs. The buffer keeps its capacity.
    pub fn clear(&mut self)
        ensures
            final(self).wf(),
            final(self)@ == Seq::<Seq<u8>>::empty(),
            final(self).spec_len() == 0,
            final(self).spec_capacity() == old(self).spec_capacity(),
            final(self).spec_type_id() == old(self).spec_type_id(),
            final(self).spec_layout() == old(self).spec_layout(),
            final(self).spec_drop_fn() == old(self).spec_drop_fn(),
            final(self).finalized() == old(self).finalized_with(old(self)@),
            old(self).spec_len() == 0 ==> *final(self) == *old(self),
        opens_invariants none
        no_unwind
    {
        proof {
            use_type_invariant(&*self);
        }
        let len = self.len;
        if len == 0 {
            assert(self@ =~= Seq::<Seq<u8>>::empty());
            return ;
        }
        self.len = 0;
        assert(self@ =~= Seq::<Seq<u8>>::empty());
        let mut index: usize = 0;
        while index < len
            invariant
                index <= len,
                len == old(self).len,
                self.len == 0,
                self.typeid == old(self).typeid,
                self.drop == old(self).drop,
                self.memory == old(self).memory,
                self.memory.wf(),
                self.memory.spec_element_layout().size > 0 ==> len <= self.memory.spec_capacity(),
                self.finalized() == old(self).finalized_with(old(self)@.subrange(0, index as int)),
            decreases len - index,
        {
            self.finalize_at(index);
            index += 1;
            proof {
                assert(old(self)@.subrange(0, index as int) =~= old(self)@.subrange(
                    0,
                    index - 1,
                ).push(old(self)@[index - 1]));
                assert(old(self).finalized_with(old(self)@.subrange(0, index as int))
                    =~= old(self).finalized_with(old(self)@.subrange(0, index - 1))
                    + old(self).finalized_with(seq![old(self)@[index - 1]]).subrange(
                    old(self).finalized().len() as int,
                    old(self).finalized_with(seq![old(self)@[index - 1]]).len() as int,
                ));
            }
        }
        proof {
            assert(old(self)@.subrange(0, len as int) =~= old(self)@);
        }
    }

    /// Hands the image in slot `index` to the destructor, if there is one,
    /// and enters that run in the record.
    fn finalize_at(&mut self, index: usize)
        requires
            old(self).memory.in_bounds(index as int),
        ensures
            final(self).wf(),
            final(self).typeid == old(self).typeid,
            final(self).memory == old(self).memory,
            final(self).len == old(self).len,
            final(self).drop == old(self).drop,
            final(self).finalized() == old(self).finalized_with(
                seq![old(self).memory.slot(index as int)],
            ),
        opens_invariants none
        no_unwind
    {
        proof {
            use_type_invariant(&*self);
        }
        if let Some(hook) = self.drop {
            hook.finalize(self.memory.index_ptr_unchecked(index));
            self.finalized = Ghost(self.finalized@.push(self.memory.slot(index as int)));
            assert(self.finalized@ =~= old(self).finalized@ + seq![
                old(self).memory.slot(index as int),
            ]);
        }
    }

    /// Takes the buffer and the length out, leaving an empty vector of the
    /// same type behind.
    fn detach(&mut self) -> (parts: (RawMemory, usize))
        ensures
            parts.0 == old(self).memory,
            parts.1 == old(self).len,
            parts.0.wf(),
            parts.0.spec_element_layout().size > 0 ==> parts.1 <= parts.0.spec_capacity(),
            final(self).len == 0,
            final(self).typeid == old(self).typeid,
            final(self).drop == old(self).drop,
            final(self).finalized == old(self).finalized,
    {
        proof {
            use_type_invariant(&*self);
        }
        let len = self.len;
        self.len = 0;
        let mut memory = RawMemory::with_element_layout(self.memory.element_layout());
        core::mem::swap(&mut self.memory, &mut memory);
        (memory, len)
    }

    /// Puts a buffer and a length in.
    fn attach(&mut self, memory: RawMemory, len: usize)
        requires
            old(self).len == 0,
            memory.wf(),
            memory.spec_element_layout().size > 0 ==> len <= memory.spec_capacity(),
        ensures
            final(self).wf(),
            final(self).memory == memory,
            final(self).len == len,
            final(self).typeid == old(self).typeid,
            final(self).drop == old(self).drop,
            final(self).finalized == old(self).finalized,
    {
        let mut memory = memory;
        core::mem::swap(&mut self.memory, &mut memory);
        self.len = len;
    }

    /// Appends the element whose image is `item`, growing a full buffer
    /// first.
    pub fn push_raw_unchecked(&mut self, item: &[u8])
        requires
            item@.len() == old(self).spec_layout().size,
            old(self).spec_has_room(),
        ensures
            final(self).wf(),
            final(self)@ == old(self)@.push(item@),
            final(self).spec_len() == old(self).spec_len() + 1,
            final(self).spec_capacity() == old(self).capacity_after_push(),
            final(self).spec_capacity() >= old(self).spec_capacity(),
            final(self).spec_type_id() == old(self).spec_type_id(),
            final(self).spec_layout() == old(self).spec_layout(),
            final(self).spec_drop_fn() == old(self).spec_drop_fn(),
            final(self).finalized() == old(self).finalized(),
    {
        proof {
            use_type_invariant(&*self);
            self.lemma_wf();
        }
        let (memory, len) = self.detach();
        let mut memory = memory;
        let ghost before = memory;
        proof {
            before.lemma_view();
        }
        let capacity = memory.capacity();
        if len == capacity {
            let ghost size = memory.spec_element_layout().size;
            assert(size > 0 ==> 2 * capacity <= usize::MAX) by (nonlinear_arith)
                requires
                    size > 0 ==> grown_capacity(capacity as int) * size <= usize::MAX,
                    capacity >= 0,
            ;
            let new_capacity: usize = if capacity == 0 {
                1
            } else {
                capacity * 2
            };
            memory.resize(new_capacity);
        }
        proof {
            memory.lemma_view();
        }
        let ghost grown = memory;
        memory.copy_to_index_unchecked(item, len);
        proof {
            memory.lemma_view();
        }
        self.attach(memory, len + 1);
        proof {
            assert forall|i: int| 0 <= i < len + 1 implies #[trigger] self.memory.slot(i) == old(
                self,
            )@.push(item@)[i] by {
                if i < len {
                    assert(grown.slot(i) == before.slot(i));
                }
            }
            assert(self@ =~= old(self)@.push(item@));
        }
    }

    /// Appends the value that `imposter` holds and gives the imposter up; the
    /// destructor does not run, the value now belongs to the vector.
    ///
    /// If the imposter holds a value of another type, it comes back unchanged
    /// in `Err` and the vector stays as it is.
    pub fn push_imposter(&mut self, imposter: Imposter) -> (result: Result<(), Imposter>)
        requires
            old(self).accepts(&imposter) ==> old(self).spec_has_room(),
        ensures
            final(self).wf(),
            match result {
                Ok(()) => {
                    &&& old(self).accepts(&imposter)
                    &&& final(self)@ == old(self)@.push(imposter@)
                    &&& final(self).spec_len() == old(self).spec_len() + 1
                    &&& final(self).spec_capacity() == old(self).capacity_after_push()
                    &&& final(self).spec_type_id() == old(self).spec_type_id()
                    &&& final(self).spec_layout() == old(self).spec_layout()
                    &&& final(self).spec_drop_fn() == old(self).spec_drop_fn()
                    &&& final(self).finalized() == old(self).finalized()
                },
                Err(given) => {
                    &&& !old(self).accepts(&imposter)
                    &&& given == imposter
                    &&& *final(self) == *old(self)
                },
            },
    {
        proof {
            use_type_invariant(&*self);
        }
        if imposter.type_id() != self.typeid || imposter.layout() != self.memory.element_layout() {
            return Err(imposter);
        }
        self.push_imposter_unchecked(imposter);
        Ok(())
    }

    /// Appends the value that `imposter` holds, for a caller who knows that it
    /// is of the element type.
    pub fn push_imposter_unchecked(&mut self, imposter: Imposter)
        requires
            old(self).accepts(&imposter),
            old(self).spec_has_room(),
        ensures
            final(self).wf(),
            final(self)@ == old(self)@.push(imposter@),
            final(self).spec_len() == old(self).spec_len() + 1,
            final(self).spec_capacity() == old(self).capacity_after_push(),
            final(self).spec_type_id() == old(self).spec_type_id(),
            final(self).spec_layout() == old(self).spec_layout(),
            final(self).spec_drop_fn() == old(self).spec_drop_fn(),
            final(self).finalized() == old(self).finalized(),
    {
        self.push_raw_unchecked(imposter.data());
        imposter.dispose_and_forget();
    }

    /// Appends `item`.
    ///
    /// If `T` is not the element type, `item` comes back unchanged in `Err`
    /// and the vector stays as it is.
    pub fn push_item<T: Erasable>(&mut self, item: T) -> (result: Result<(), T>)
        requires
            old(self).holds::<T>() ==> old(self).spec_has_room(),
        ensures
            final(self).wf(),
            match result {
                Ok(()) => {
                    &&& old(self).holds::<T>()
                    &&& final(self)@ == old(self)@.push(item.image())
                    &&& final(self).value_at::<T>(old(self).spec_len() as int) == Some(item)
                    &&& final(self).spec_len() == old(self).spec_len() + 1
                    &&& final(self).spec_capacity() == old(self).capacity_after_push()
                    &&& final(self).spec_type_id() == old(self).spec_type_id()
                    &&& final(self).spec_layout() == old(self).spec_layout()
                    &&& final(self).spec_drop_fn() == old(self).spec_drop_fn()
                    &&& final(self).finalized() == old(self).finalized()
                },
                Err(given) => {
                    &&& !old(self).holds::<T>()
                    &&& given == item
                    &&& *final(self) == *old(self)
                },
            },
    {
        proof {
            use_type_invariant(&*self);
        }
        if self.is_type::<T>() {
            return Err(item);
        }
        self.push_item_unchecked(item);
        Ok(())
    }

    /// Appends `item`, for a caller who knows that `T` is the element type.
    pub fn push_item_unchecked<T: Erasable>(&mut self, item: T)
        requires
            old(self).holds::<T>(),
            old(self).spec_has_room(),
        ensures
            final(self).wf(),
            final(self)@ == old(self)@.push(item.image()),
            final(self).value_at::<T>(old(self).spec_len() as int) == Some(item),
            final(self).spec_len() == old(self).spec_len() + 1,
            final(self).spec_capacity() == old(self).capacity_after_push(),
            final(self).spec_type_id() == old(self).spec_type_id(),
            final(self).spec_layout() == old(self).spec_layout(),
            final(self).spec_drop_fn() == old(self).spec_drop_fn(),
            final(self).finalized() == old(self).finalized(),
    {
        proof {
            use_type_invariant(&*self);
            self.lemma_wf();
            T::image_round_trip(item);
        }
        let bytes = item.into_bytes();
        self.push_raw_unchecked(bytes.as_slice());
    }

    /// The element at `index` read as a `T`; `None` if there is no such
    /// element, if `T` is not the element type, or if the image is no value of
    /// `T`.
    pub fn get<T: Erasable>(&self, index: usize) -> (item: Option<T>)
        ensures
            item == self.value_at::<T>(index as int),
    {
        proof {
            use_type_invariant(self);
            self.lemma_wf();
        }
        if index >= self.len || self.is_type::<T>() {
            return None;
        }
        T::from_bytes(self.memory.index_ptr_unchecked(index))
    }

    /// The element at `index` read as a `T`, for a caller who knows that it is
    /// one.
    pub fn get_unchecked<T: Erasable>(&self, index: usize) -> (item: T)
        requires
            self.value_at::<T>(index as int).is_some(),
        ensures
            Some(item) == self.value_at::<T>(index as int),
    {
        proof {
            use_type_invariant(self);
            self.lemma_wf();
        }
        T::from_bytes(self.memory.index_ptr_unchecked(index)).unwrap()
    }

    /// Stores `item` in place of the element at `index`; the element that
    /// gives way is finalized by the destructor, if there is one.
    ///
    /// If there is no such element or `T` is not the element type, `item`
    /// comes back unchanged in `Err` and the vector stays as it is.
    pub fn get_mut<T: Erasable>(&mut self, index: usize, item: T) -> (result: Result<(), T>)
        ensures
            final(self).wf(),
            match result {
                Ok(()) => {
                    &&& index < old(self).spec_len()
                    &&& old(self).holds::<T>()
                    &&& final(self)@ == old(self)@.update(index as int, item.image())
                    &&& final(self).spec_len() == old(self).spec_len()
                    &&& final(self).spec_capacity() == old(self).spec_capacity()
                    &&& final(self).spec_type_id() == old(self).spec_type_id()
                    &&& final(self).spec_layout() == old(self).spec_layout()
                    &&& final(self).spec_drop_fn() == old(self).spec_drop_fn()
                    &&& final(self).finalized() == old(self).finalized_with(seq![old(self)@[index as int]])
                },
                Err(given) => {
                    &&& !(index < old(self).spec_len() && old(self).holds::<T>())
                    &&& given == item
                    &&& *final(self) == *old(self)
                },
            },
    {
        proof {
            use_type_invariant(&*self);
            self.lemma_wf();
        }
        if index >= self.len || self.is_type::<T>() {
            return Err(item);
        }
        self.get_mut_unchecked(index, item);
        Ok(())
    }

    /// Stores `item` in place of the element at `index`, for a caller who
    /// knows that there is one and that `T` is the element type.
    pub fn get_mut_unchecked<T: Erasable>(&mut self, index: usize, item: T)
        requires
            index < old(self).spec_len(),
            old(self).holds::<T>(),
        ensures
            final(self).wf(),
            final(self)@ == old(self)@.update(index as int, item.image()),
            final(self).spec_len() == old(self).spec_len(),
            final(self).spec_capacity() == old(self).spec_capacity(),
            final(self).spec_type_id() == old(self).spec_type_id(),
            final(self).spec_layout() == old(self).spec_layout(),
            final(self).spec_drop_fn() == old(self).spec_drop_fn(),
            final(self).finalized() == old(self).finalized_with(seq![old(self)@[index as int]]),
    {
        proof {
            use_type_invariant(&*self);
            self.lemma_wf();
            T::image_round_trip(item);
        }
        self.finalize_at(index);
        let bytes = item.into_bytes();
        let (memory, len) = self.detach();
        let mut memory = memory;
        let ghost before = memory;
        proof {
            before.lemma_view();
        }
        memory.copy_to_index_unchecked(bytes.as_slice(), index);
        proof {
            memory.lemma_view();
        }
        self.attach(memory, len);
        proof {
            assert forall|i: int| 0 <= i < len implies #[trigger] self.memory.slot(i) == old(
                self,
            )@.update(index as int, item.image())[i] by {
                assert(old(self)@[i] == before.slot(i));
            }
            assert(self@ =~= old(self)@.update(index as int, item.image()));
        }
    }

    /// The image of the element at `index`, or `None` if there is no such
    /// element.
    pub fn get_ptr(&self, index: usize) -> (image: Option<&[u8]>)
        ensures
            match image {
                Some(bytes) => index < self.spec_len() && bytes@ == self@[index as int],
                None => index >= self.spec_len(),
            },
    {
        if index >= self.len {
            return None;
        }
        Some(self.get_ptr_unchecked(index))
    }

    /// The image of the element at `index`, for a caller who knows that there
    /// is one.
    pub fn get_ptr_unchecked(&self, index: usize) -> (image: &[u8])
        requires
            index < self.spec_len(),
        ensures
            image@ == self@[index as int],
    {
        proof {
            use_type_invariant(self);
            self.lemma_wf();
        }
        self.memory.index_ptr_unchecked(index)
    }

    /// Removes the element at `index` and hands it out as an imposter with
    /// the vector's tag, layout and destructor. The last element takes its
    /// place, so the order of the others is not kept.
    ///
    /// `None`, and nothing changes, if there is no such element.
    pub fn swap_remove(&mut self, index: usize) -> (removed: Option<Imposter>)
        ensures
            final(self).wf(),
            match removed {
                Some(imposter) => {
                    &&& index < old(self).spec_len()
                    &&& imposter@ == old(self)@[index as int]
                    &&& imposter.spec_type_id() == old(self).spec_type_id()
                    &&& imposter.spec_layout() == old(self).spec_layout()
                    &&& imposter.spec_drop_fn() == old(self).spec_drop_fn()
                    &&& final(self)@ == old(self)@.update(index as int, old(self)@.last()).drop_last()
                    &&& final(self).spec_len() == old(self).spec_len() - 1
                    &&& final(self).spec_capacity() == old(self).spec_capacity()
                    &&& final(self).spec_type_id() == old(self).spec_type_id()
                    &&& final(self).spec_layout() == old(self).spec_layout()
                    &&& final(self).spec_drop_fn() == old(self).spec_drop_fn()
                    &&& final(self).finalized() == old(self).finalized()
                },
                None => index >= old(self).spec_len() && *final(self) == *old(self),
            },
    {
        proof {
            use_type_invariant(&*self);
        }
        if index >= self.len {
            return None;
        }
        Some(self.swap_remove_unchecked(index))
    }

    /// Removes the element at `index` and hands it out as an imposter, for a
    /// caller who knows that there is one.
    pub fn swap_remove_unchecked(&mut self, index: usize) -> (imposter: Imposter)
        requires
            index < old(self).spec_len(),
        ensures
            final(self).wf(),
            imposter@ == old(self)@[index as int],
            imposter.spec_type_id() == old(self).spec_type_id(),
            imposter.spec_layout() == old(self).spec_layout(),
            imposter.spec_drop_fn() == old(self).spec_drop_fn(),
            final(self)@ == old(self)@.update(index as int, old(self)@.last()).drop_last(),
            final(self).spec_len() == old(self).spec_len() - 1,
            final(self).spec_capacity() == old(self).spec_capacity(),
            final(self).spec_type_id() == old(self).spec_type_id(),
            final(self).spec_layout() == old(self).spec_layout(),
            final(self).spec_drop_fn() == old(self).spec_drop_fn(),
            final(self).finalized() == old(self).finalized(),
    {
        let last_index = self.swap_to_end(index);
        let ghost swapped = self@;
        let (memory, len) = self.detach();
        let block = memory.copy_to_alloc_unchecked(last_index);
        let imposter = Imposter::from_raw(block, self.typeid, memory.element_layout(), self.drop);
        self.attach(memory, last_index);
        proof {
            assert forall|i: int| 0 <= i < last_index implies #[trigger] self@[i] == swapped[i] by {}
            assert(self@ =~= swapped.drop_last());
            assert(self@ =~= old(self)@.update(index as int, old(self)@.last()).drop_last());
        }
        imposter
    }

    /// Exchanges the element at `index` with the last one and says where the
    /// last one is.
    fn swap_to_end(&mut self, index: usize) -> (last_index: usize)
        requires
            index < old(self).spec_len(),
        ensures
            final(self).wf(),
            last_index == old(self).len - 1,
            final(self).len == old(self).len,
            final(self).typeid == old(self).typeid,
            final(self).drop == old(self).drop,
            final(self).finalized == old(self).finalized,
            final(self).memory.wf(),
            final(self).memory.in_bounds(last_index as int),
            final(self).memory.spec_capacity() == old(self).memory.spec_capacity(),
            final(self).memory.spec_element_layout() == old(self).memory.spec_element_layout(),
            final(self).memory.slot(last_index as int) == old(self)@[index as int],
            final(self)@ == old(self)@.update(index as int, old(self)@.last()).update(
                last_index as int,
                old(self)@[index as int],
            ),
    {
        proof {
            use_type_invariant(&*self);
            self.lemma_wf();
        }
        let (memory, len) = self.detach();
        let mut memory = memory;
        let ghost before = memory;
        proof {
            before.lemma_view();
        }
        let last_index = len - 1;
        memory.swap_unchecked(index, last_index);
        proof {
            memory.lemma_view();
        }
        self.attach(memory, len);
        proof {
            let expected = old(self)@.update(index as int, old(self)@.last()).update(
                last_index as int,
                old(self)@[index as int],
            );
            assert(old(self)@[index as int] == before.slot(index as int));
            assert(old(self)@.last() == before.slot(last_index as int));
            assert forall|i: int| 0 <= i < len implies #[trigger] self.memory.slot(i)
                == expected[i] by {
                assert(old(self)@[i] == before.slot(i));
            }
            assert(self@ =~= expected);
        }
        last_index
    }

    /// Removes the element at `index` and finalizes it in place with the
    /// destructor, if there is one; the last element takes its place.
    /// Returns `true` if an element was removed.
    ///
    /// `false`, and nothing changes, if there is no such element.
    pub fn swap_drop(&mut self, index: usize) -> (removed: bool)
        ensures
            final(self).wf(),
            removed == (index < old(self).spec_len()),
            !removed ==> *final(self) == *old(self),
            removed ==> {
                &&& final(self)@ == old(self)@.update(index as int, old(self)@.last()).drop_last()
                &&& final(self).spec_len() == old(self).spec_len() - 1
                &&& final(self).spec_capacity() == old(self).spec_capacity()
                &&& final(self).spec_type_id() == old(self).spec_type_id()
                &&& final(self).spec_layout() == old(self).spec_layout()
                &&& final(self).spec_drop_fn() == old(self).spec_drop_fn()
                &&& final(self).finalized() == old(self).finalized_with(seq![old(self)@[index as int]])
            },
    {
        proof {
            use_type_invariant(&*self);
        }
        if index >= self.len {
            return false;
        }
        let last_index = self.swap_to_end(index);
        let ghost swapped = self@;
        self.finalize_at(last_index);
        self.len = last_index;
        proof {
            assert forall|i: int| 0 <= i < last_index implies #[trigger] self@[i] == swapped[i] by {}
            assert(self@ =~= swapped.drop_last());
            assert(self@ =~= old(self)@.update(index as int, old(self)@.last()).drop_last());
        }
        true
    }

    /// The elements as values of `T`, in order; `None` if `T` is not the
    /// element type or some image is no value of `T`. The vector keeps its
    /// elements.
    pub fn as_slice<T: Erasable>(&self) -> (items: Option<Vec<T>>)
        ensures
            match items {
                Some(values) => self.typed::<T>() == Some(values@),
                None => self.typed::<T>().is_none(),
            },
    {
        proof {
            use_type_invariant(self);
            self.lemma_wf();
        }
        if self.is_type::<T>() {
            return None;
        }
        let mut values: Vec<T> = Vec::new();
        let mut index: usize = 0;
        while index < self.len
            invariant
                self.holds::<T>(),
                self@.len() == self.len,
                self.memory.spec_element_layout().size > 0 ==> self.len
                    <= self.memory.spec_capacity(),
                index <= self.len,
                values@.len() == index,
                forall|i: int|
                    0 <= i < index ==> (#[trigger] T::from_image(self@[i])) == Some(values@[i]),
            decreases self.len - index,
        {
            match T::from_bytes(self.memory.index_ptr_unchecked(index)) {
                Some(item) => {
                    values.push(item);
                },
                None => {
                    assert(T::from_image(self@[index as int]).is_none());
                    return None;
                },
            }
            index += 1;
        }
        proof {
            assert(self.typed::<T>().unwrap() =~= values@);
        }
        Some(values)
    }

    /// The elements as values of `T`, for a caller who knows that they are.
    pub fn as_slice_unchecked<T: Erasable>(&self) -> (values: Vec<T>)
        requires
            self.typed::<T>().is_some(),
        ensures
            Some(values@) == self.typed::<T>(),
    {
        self.as_slice::<T>().unwrap()
    }

    /// Turns the vector into a `Vec` of its elements as values of `T`. The
    /// destructor does not run: the values now belong to the caller.
    ///
    /// If `T` is not the element type, or some image is no value of `T`, the
    /// vector comes back unchanged in `Err`.
    pub fn into_vec<T: Erasable>(self) -> (result: Result<Vec<T>, Self>)
        ensures
            match result {
                Ok(values) => self.typed::<T>() == Some(values@),
                Err(vec) => self.typed::<T>().is_none() && vec == self,
            },
    {
        let mut vec = self;
        match vec.as_slice::<T>() {
            Some(values) => {
                proof {
                    use_type_invariant(&vec);
                }
                vec.len = 0;
                Ok(values)
            },
            None => Err(vec),
        }
    }

    /// Turns the vector into a `Vec` of its elements, for a caller who knows
    /// that they are values of `T`.
    pub fn into_vec_unchecked<T: Erasable>(self) -> (values: Vec<T>)
        requires
            self.typed::<T>().is_some(),
        ensures
            Some(values@) == self.typed::<T>(),
    {
        let mut vec = self;
        let values = vec.as_slice_unchecked::<T>();
        proof {
            use_type_invariant(&vec);
        }
        vec.len = 0;
        values
    }

    /// A walk over the images of the elements, from the first one.
    pub fn iter(&self) -> (iter: Iter<'_>)
        ensures
            *iter.source() == *self,
            iter.position() == 0,
    {
        Iter::new(self)
    }
}

/// A walk over the images of the elements of an [`ImposterVec`], in order.
pub struct Iter<'a> {
    vec: &'a ImposterVec,
    index: usize,
}

impl<'a> Iter<'a> {
    /// The vector that is walked.
    pub closed spec fn source(&self) -> &ImposterVec {
        self.vec
    }

    /// How many elements the walk has handed out.
    pub closed spec fn position(&self) -> usize {
        self.index
    }

    /// A walk over `vec` that starts at its first element.
    pub fn new(vec: &'a ImposterVec) -> (iter: Self)
        ensures
            *iter.source() == *vec,
            iter.position() == 0,
    {
        Iter { vec, index: 0 }
    }

    /// The image of the next element, or `None` once every element was
    /// handed out.
    pub fn next(&mut self) -> (image: Option<&'a [u8]>)
        ensures
            final(self).source() == old(self).source(),
            match image {
                Some(bytes) => {
                    &&& old(self).position() < old(self).source().spec_len()
                    &&& bytes@ == old(self).source()@[old(self).position() as int]
                    &&& final(self).position() == old(self).position() + 1
                },
                None => {
                    &&& old(self).position() >= old(self).source().spec_len()
                    &&& final(self).position() == old(self).position()
                },
            },
    {
        if self.index >= self.vec.len() {
            return None;
        }
        let image = self.vec.get_ptr_unchecked(self.index);
        self.index += 1;
        Some(image)
    }
}

} // verus!
