//! The buffer manager: one contiguous run of bytes, cut into slots of one
//! element layout.

use crate::erase::Erasable;
use crate::layout::Layout;
use vstd::prelude::*;
use vstd::slice::slice_to_vec;

verus! {

/// A run of `n` zero bytes: what a slot holds before anything was copied in.
pub open spec fn zeroed(n: nat) -> Seq<u8> {
    Seq::new(n, |k: int| 0u8)
}

/// `bytes` with the run that starts at `at` replaced by `src`.
spec fn splice(bytes: Seq<u8>, at: int, src: Seq<u8>) -> Seq<u8> {
    Seq::new(
        bytes.len(),
        |k: int|
            if at <= k < at + src.len() {
                src[k - at]
            } else {
                bytes[k]
            },
    )
}

/// Where slot `index` of `capacity` slots lies in the buffer.
proof fn lemma_slot_range(index: int, capacity: int, size: int)
    requires
        0 <= index < capacity,
        0 <= size,
    ensures
        0 <= index * size,
        index * size + size == (index + 1) * size,
        (index + 1) * size <= capacity * size,
{
    assert(index * size + size == (index + 1) * size) by (nonlinear_arith);
    assert((index + 1) * size <= capacity * size) by (nonlinear_arith)
        requires
            index + 1 <= capacity,
            0 <= size,
    ;
    assert(0 <= index * size) by (nonlinear_arith)
        requires
            0 <= index,
            0 <= size,
    ;
}

/// An earlier slot ends before a later one starts.
proof fn lemma_slots_apart(i: int, j: int, size: int)
    requires
        0 <= i < j,
        0 <= size,
    ensures
        (i + 1) * size <= j * size,
{
    assert((i + 1) * size <= j * size) by (nonlinear_arith)
        requires
            i + 1 <= j,
            0 <= size,
    ;
}

/// Cutting a spliced buffer into slots: the slot written holds `src`, every
/// other slot holds what it held.
proof fn lemma_splice_slot(bytes: Seq<u8>, size: int, capacity: int, index: int, src: Seq<u8>, j: int)
    requires
        0 < size,
        bytes.len() == capacity * size,
        0 <= index < capacity,
        0 <= j < capacity,
        src.len() == size,
    ensures
        splice(bytes, index * size, src).subrange(j * size, (j + 1) * size) == if j == index {
            src
        } else {
            bytes.subrange(j * size, (j + 1) * size)
        },
{
    lemma_slot_range(index, capacity, size);
    lemma_slot_range(j, capacity, size);
    if j < index {
        lemma_slots_apart(j, index, size);
    }
    if index < j {
        lemma_slots_apart(index, j, size);
    }
    let spliced = splice(bytes, index * size, src);
    if j == index {
        assert(spliced.subrange(j * size, (j + 1) * size) =~= src);
    } else {
        assert(spliced.subrange(j * size, (j + 1) * size) =~= bytes.subrange(
            j * size,
            (j + 1) * size,
        ));
    }
}

/// The part of `bytes` from `start` up to `end`.
///
/// This is std's range indexing, `Index<Range<usize>>` on `Vec<u8>`, written
/// `&bytes[start..end]`. It borrows that part of the buffer and panics only
/// outside the bounds required here; that it neither panics nor touches
/// anything within them is taken on trust.
#[verifier::external_body]
pub(crate) fn window(bytes: &Vec<u8>, start: usize, end: usize) -> (part: &[u8])
    requires
        start <= end <= bytes@.len(),
    ensures
        part@ == bytes@.subrange(start as int, end as int),
    opens_invariants none
    no_unwind
{
    &bytes[start..end]
}

/// Owns one buffer sized for `capacity` elements of one layout.
///
/// Elements of size zero take no room: for such a layout the capacity stays 0
/// and the buffer stays empty, whatever is asked of it.
#[derive(Debug)]
pub struct RawMemory {
    bytes: Vec<u8>,
    capacity: usize,
    element_layout: Layout,
}

impl RawMemory {
    /// The buffer holds exactly `capacity` slots of the element size.
    #[verifier::type_invariant]
    pub closed spec fn wf(&self) -> bool {
        &&& self.bytes@.len() == self.capacity * self.element_layout.size
        &&& self.element_layout.size == 0 ==> self.capacity == 0
    }

    /// The whole buffer, byte by byte.
    pub closed spec fn spec_bytes(&self) -> Seq<u8> {
        self.bytes@
    }

    /// How many slots the buffer has.
    pub closed spec fn spec_capacity(&self) -> usize {
        self.capacity
    }

    /// The layout of one element.
    pub closed spec fn spec_element_layout(&self) -> Layout {
        self.element_layout
    }

    /// The slots in order, each the bytes of one element.
    pub closed spec fn view(&self) -> Seq<Seq<u8>> {
        Seq::new(
            self.capacity as nat,
            |j: int|
                self.bytes@.subrange(
                    j * self.element_layout.size,
                    (j + 1) * self.element_layout.size,
                ),
        )
    }

    /// What slot `index` holds; the empty run where there is no such slot,
    /// which is where every element of size zero lives.
    pub open spec fn slot(&self, index: int) -> Seq<u8> {
        if 0 <= index < self@.len() {
            self@[index]
        } else {
            Seq::empty()
        }
    }

    /// May slot `index` be read and written?
    pub open spec fn in_bounds(&self, index: int) -> bool {
        self.spec_element_layout().size == 0 || 0 <= index < self.spec_capacity()
    }

    /// How the slots lie in the buffer.
    pub proof fn lemma_view(&self)
        requires
            self.wf(),
        ensures
            self@.len() == self.spec_capacity(),
            self.spec_bytes().len() == self.spec_capacity() * self.spec_element_layout().size,
            self.spec_element_layout().size == 0 ==> self.spec_capacity() == 0,
            forall|j: int|
                0 <= j < self.spec_capacity() ==> #[trigger] self@[j] == self.spec_bytes().subrange(
                    j * self.spec_element_layout().size,
                    (j + 1) * self.spec_element_layout().size,
                ) && self@[j].len() == self.spec_element_layout().size,
    {
        assert forall|j: int| 0 <= j < self.spec_capacity() implies #[trigger] self@[j].len()
            == self.spec_element_layout().size by {
            lemma_slot_range(j, self.capacity as int, self.element_layout.size as int);
        }
    }

    /// An empty buffer for items of type `T`.
    pub fn new<T: Erasable>() -> (memory: Self)
        ensures
            memory.wf(),
            memory.spec_capacity() == 0,
            memory@ == Seq::<Seq<u8>>::empty(),
            memory.spec_bytes() == Seq::<u8>::empty(),
            memory.spec_element_layout() == T::spec_layout(),
    {
        Self::with_element_layout(T::layout())
    }

    /// An empty buffer for items of the given `layout`.
    pub fn with_element_layout(layout: Layout) -> (memory: Self)
        ensures
            memory.wf(),
            memory.spec_capacity() == 0,
            memory@ == Seq::<Seq<u8>>::empty(),
            memory.spec_bytes() == Seq::<u8>::empty(),
            memory.spec_element_layout() == layout,
    {
        let memory = RawMemory { bytes: Vec::new(), capacity: 0, element_layout: layout };
        assert(memory@ =~= Seq::<Seq<u8>>::empty());
        memory
    }

    /// The bytes of slot `index`.
    pub fn index_ptr_unchecked(&self, index: usize) -> (slot: &[u8])
        requires
            self.in_bounds(index as int),
        ensures
            slot@ == self.slot(index as int),
            slot@.len() == self.spec_element_layout().size,
        opens_invariants none
        no_unwind
    {
        proof {
            use_type_invariant(self);
            self.lemma_view();
        }
        let size = self.element_layout.size;
        if size == 0 {
            window(&self.bytes, 0, 0)
        } else {
            proof {
                lemma_slot_range(index as int, self.capacity as int, size as int);
                assert((index + 1) * size <= self.bytes.len());
            }
            let start = index * size;
            window(&self.bytes, start, start + size)
        }
    }

    /// The bytes of slot `index`, or `None` where the buffer has no such slot.
    pub fn index_ptr(&self, index: usize) -> (slot: Option<&[u8]>)
        ensures
            index < self.spec_capacity() ==> slot.is_some() && slot.unwrap()@ == self@[index as int],
            index >= self.spec_capacity() ==> slot.is_none(),
    {
        proof {
            use_type_invariant(self);
            self.lemma_view();
        }
        if index < self.capacity {
            Some(self.index_ptr_unchecked(index))
        } else {
            None
        }
    }

    /// Copies one element's bytes from `src` into slot `index`.
    pub fn copy_to_index_unchecked(&mut self, src: &[u8], index: usize)
        requires
            old(self).in_bounds(index as int),
            src@.len() == old(self).spec_element_layout().size,
        ensures
            final(self).wf(),
            final(self).spec_capacity() == old(self).spec_capacity(),
            final(self).spec_element_layout() == old(self).spec_element_layout(),
            old(self).spec_element_layout().size == 0 ==> final(self)@ == old(self)@,
            old(self).spec_element_layout().size > 0 ==> final(self)@ == old(self)@.update(
                index as int,
                src@,
            ),
    {
        proof {
            use_type_invariant(&*self);
        }
        let size = self.element_layout.size;
        if size == 0 {
            return ;
        }
        let total = self.bytes.len();
        proof {
            lemma_slot_range(index as int, self.capacity as int, size as int);
            assert((index + 1) * size <= total);
        }
        let start = index * size;
        let ghost before = self.bytes@;
        let ghost before_view = self@;
        let capacity = self.capacity;
        let element_layout = self.element_layout;
        let mut taken = RawMemory::with_element_layout(element_layout);
        core::mem::swap(self, &mut taken);
        let RawMemory { bytes, capacity: _, element_layout: _ } = taken;
        let mut bytes = bytes;
        let mut k: usize = 0;
        while k < size
            invariant
                k <= size,
                size == src@.len(),
                start + size <= total,
                total == before.len(),
                bytes@ == splice(before, start as int, src@.subrange(0, k as int)),
            decreases size - k,
        {
            bytes.set(start + k, src[k]);
            k += 1;
            assert(bytes@ =~= splice(before, start as int, src@.subrange(0, k as int)));
        }
        let written = RawMemory { bytes, capacity, element_layout };
        proof {
            assert(src@.subrange(0, size as int) =~= src@);
            assert forall|j: int| 0 <= j < capacity implies #[trigger] written@[j]
                == before_view.update(index as int, src@)[j] by {
                lemma_splice_slot(before, size as int, capacity as int, index as int, src@, j);
            }
            assert(written@ =~= before_view.update(index as int, src@));
        }
        *self = written;
    }

    /// A fresh one-element block that holds a copy of slot `index`.
    pub fn copy_to_alloc_unchecked(&self, index: usize) -> (block: Vec<u8>)
        requires
            self.in_bounds(index as int),
        ensures
            block@ == self.slot(index as int),
            block@.len() == self.spec_element_layout().size,
    {
        slice_to_vec(self.index_ptr_unchecked(index))
    }

    /// Exchanges what slots `x` and `y` hold.
    pub fn swap_unchecked(&mut self, x: usize, y: usize)
        requires
            old(self).in_bounds(x as int),
            old(self).in_bounds(y as int),
        ensures
            final(self).wf(),
            final(self).spec_capacity() == old(self).spec_capacity(),
            final(self).spec_element_layout() == old(self).spec_element_layout(),
            old(self).spec_element_layout().size == 0 ==> final(self)@ == old(self)@,
            old(self).spec_element_layout().size > 0 ==> final(self)@ == old(self)@.update(
                x as int,
                old(self)@[y as int],
            ).update(y as int, old(self)@[x as int]),
    {
        proof {
            use_type_invariant(&*self);
            self.lemma_view();
        }
        if x == y {
            assert(self@ =~= self@.update(x as int, self@[y as int]).update(
                y as int,
                self@[x as int],
            ) || self.element_layout.size == 0);
            return ;
        }
        let first = self.copy_to_alloc_unchecked(x);
        let second = self.copy_to_alloc_unchecked(y);
        self.copy_to_index_unchecked(second.as_slice(), x);
        self.copy_to_index_unchecked(first.as_slice(), y);
    }

    /// Gives the buffer room for `new_capacity` elements.
    ///
    /// Slots that stay keep their bytes, slots that are new hold zeros, and
    /// slots beyond the new capacity are given up as they are. For elements
    /// of size zero nothing changes.
    pub fn resize(&mut self, new_capacity: usize)
        requires
            old(self).spec_capacity() == new_capacity || old(self).spec_element_layout().size == 0
                || new_capacity * old(self).spec_element_layout().size <= usize::MAX,
        ensures
            final(self).wf(),
            final(self).spec_element_layout() == old(self).spec_element_layout(),
            old(self).spec_element_layout().size == 0 ==> final(self).spec_capacity() == 0
                && final(self)@ == old(self)@,
            old(self).spec_element_layout().size > 0 ==> final(self).spec_capacity()
                == new_capacity && final(self)@ == Seq::new(
                new_capacity as nat,
                |j: int|
                    if j < old(self).spec_capacity() {
                        old(self)@[j]
                    } else {
                        zeroed(old(self).spec_element_layout().size as nat)
                    },
            ),
    {
        proof {
            use_type_invariant(&*self);
            self.lemma_view();
        }
        let size = self.element_layout.size;
        if self.capacity == new_capacity {
            assert(self@ =~= Seq::new(
                new_capacity as nat,
                |j: int|
                    if j < self.spec_capacity() {
                        self@[j]
                    } else {
                        zeroed(size as nat)
                    },
            ));
            return ;
        }
        if size == 0 {
            return ;
        }
        assert(size * new_capacity == new_capacity * size) by (nonlinear_arith);
        let new_len = size * new_capacity;
        let mut bytes = slice_to_vec(self.bytes.as_slice());
        bytes.truncate(new_len);
        let ghost kept = bytes@;
        while bytes.len() < new_len
            invariant
                kept.len() <= new_len,
                bytes@.len() <= new_len,
                bytes@ == kept + zeroed((bytes@.len() - kept.len()) as nat),
            decreases new_len - bytes.len(),
        {
            bytes.push(0u8);
            assert(bytes@ =~= kept + zeroed((bytes@.len() - kept.len()) as nat));
        }
        let ghost old_capacity = self.capacity;
        let ghost old_bytes = self.bytes@;
        let ghost old_view = self@;
        let resized = RawMemory { bytes, capacity: new_capacity, element_layout: self.element_layout };
        proof {
            assert forall|j: int| 0 <= j < new_capacity implies #[trigger] resized@[j] == (if j
                < old_capacity {
                old_view[j]
            } else {
                zeroed(size as nat)
            }) by {
                lemma_slot_range(j, new_capacity as int, size as int);
                if j < old_capacity {
                    lemma_slot_range(j, old_capacity as int, size as int);
                    assert(resized.bytes@.subrange(j * size, (j + 1) * size) =~= old_bytes.subrange(
                        j * size,
                        (j + 1) * size,
                    ));
                } else {
                    if old_capacity < new_capacity {
                        assert(old_capacity * size <= j * size) by (nonlinear_arith)
                            requires
                                old_capacity <= j,
                                0 <= size,
                        ;
                    }
                    assert(resized.bytes@.subrange(j * size, (j + 1) * size) =~= zeroed(
                        size as nat,
                    ));
                }
            }
            assert(resized@ =~= Seq::new(
                new_capacity as nat,
                |j: int|
                    if j < old_capacity {
                        old_view[j]
                    } else {
                        zeroed(size as nat)
                    },
            ));
        }
        *self = resized;
    }

    /// The whole buffer.
    pub fn ptr(&self) -> (bytes: &[u8])
        ensures
            bytes@ == self.spec_bytes(),
    {
        self.bytes.as_slice()
    }

    /// How many slots the buffer has.
    pub fn capacity(&self) -> (capacity: usize)
        ensures
            capacity == self.spec_capacity(),
    {
        self.capacity
    }

    /// The layout of one element.
    pub fn element_layout(&self) -> (layout: Layout)
        ensures
            layout == self.spec_element_layout(),
    {
        self.element_layout
    }

    /// The layout of the whole buffer: all slots together, aligned as one
    /// element is.
    pub fn memory_layout(&self) -> (layout: Layout)
        ensures
            layout.size == self.spec_capacity() * self.spec_element_layout().size,
            layout.align == self.spec_element_layout().align,
    {
        proof {
            use_type_invariant(self);
        }
        Layout { size: self.bytes.len(), align: self.element_layout.align }
    }
}

} // verus!
