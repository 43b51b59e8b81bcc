//! The single-value container: one erased value with its tag, layout and
//! destructor.

use crate::erase::{Erasable, ImposterDrop};
use crate::layout::{Layout, TypeId};
use crate::memory::window;
use vstd::prelude::*;

verus! {

/// A type-erased wrapper around one value of any storable type.
///
/// It owns the value's byte image. When it is dropped while it still owns the
/// value, the recorded destructor, if any, is run on the image once.
pub struct Imposter {
    data: Vec<u8>,
    typeid: TypeId,
    layout: Layout,
    drop: Option<ImposterDrop>,
    finalized: Ghost<Seq<Seq<u8>>>,
}

impl Drop for Imposter {
    /// Finalizes the value held, if the imposter still owns it and has a
    /// destructor for it; the block is freed with the imposter.
    fn drop(&mut self)
        ensures
            final(self).finalized() == old(self).finalized_with(old(self)@),
        opens_invariants none
        no_unwind
    {
        proof {
            use_type_invariant(&*self);
        }
        if let Some(hook) = self.drop {
            hook.finalize(window(&self.data, 0, self.layout.size));
            self.finalized = Ghost(self.finalized@.push(self.data@));
        }
    }
}

impl<T: Erasable> From<Box<T>> for Imposter {
    /// An imposter that holds the value in the box.
    fn from(item: Box<T>) -> (imposter: Self)
        ensures
            imposter.wf(),
            imposter@ == item.image(),
            imposter.spec_type_id() == T::spec_type_id(),
            imposter.spec_layout() == T::spec_layout(),
            imposter.spec_drop_fn() == T::spec_drop_fn(),
            imposter.finalized() == Seq::<Seq<u8>>::empty(),
            imposter.value::<T>() == Some(*item),
    {
        Imposter::new(*item)
    }
}

/// What `from` returns is stated on `from` itself.
impl<T: Erasable> vstd::std_specs::convert::FromSpecImpl<Box<T>> for Imposter {
    open spec fn obeys_from_spec() -> bool {
        false
    }

    open spec fn from_spec(item: Box<T>) -> Self {
        arbitrary()
    }
}

impl Imposter {
    /// The image fills the recorded layout exactly.
    #[verifier::type_invariant]
    pub closed spec fn wf(&self) -> bool {
        self.data@.len() == self.layout.size
    }

    /// The byte image of the value held.
    pub closed spec fn view(&self) -> Seq<u8> {
        self.data@
    }

    /// The tag of the value held.
    pub closed spec fn spec_type_id(&self) -> TypeId {
        self.typeid
    }

    /// The layout of the value held.
    pub closed spec fn spec_layout(&self) -> Layout {
        self.layout
    }

    /// The destructor recorded for the value held, if it has one.
    pub closed spec fn spec_drop_fn(&self) -> Option<ImposterDrop> {
        self.drop
    }

    /// The images that this imposter has handed to its destructor so far, in
    /// the order in which it did. Each entry is one run of the destructor.
    pub closed spec fn finalized(&self) -> Seq<Seq<u8>> {
        self.finalized@
    }

    /// The record of destructor runs once `image` was finalized: it is
    /// entered once if the imposter has a destructor, and not at all if it
    /// has none.
    pub open spec fn finalized_with(&self, image: Seq<u8>) -> Seq<Seq<u8>> {
        if self.spec_drop_fn().is_some() {
            self.finalized().push(image)
        } else {
            self.finalized()
        }
    }

    /// Is `T` the type of the value held: same tag, same layout?
    pub open spec fn holds<T: Erasable>(&self) -> bool {
        self.spec_type_id() == T::spec_type_id() && self.spec_layout() == T::spec_layout()
    }

    /// The value of type `T` that this container hands out, if it holds one.
    pub open spec fn value<T: Erasable>(&self) -> Option<T> {
        if self.holds::<T>() {
            T::from_image(self@)
        } else {
            None
        }
    }

    /// A new imposter that holds `item`.
    pub fn new<T: Erasable>(item: T) -> (imposter: Self)
        ensures
            imposter.wf(),
            imposter@ == item.image(),
            imposter.spec_type_id() == T::spec_type_id(),
            imposter.spec_layout() == T::spec_layout(),
            imposter.spec_drop_fn() == T::spec_drop_fn(),
            imposter.finalized() == Seq::<Seq<u8>>::empty(),
            imposter.value::<T>() == Some(item),
    {
        proof {
            T::image_round_trip(item);
        }
        let data = item.into_bytes();
        Imposter {
            data,
            typeid: T::type_id(),
            layout: T::layout(),
            drop: T::drop_fn(),
            finalized: Ghost(Seq::empty()),
        }
    }

    /// Takes over a block that already holds the image of one value, with the
    /// tag, layout and destructor that go with it.
    pub fn from_raw(
        data: Vec<u8>,
        typeid: TypeId,
        layout: Layout,
        drop: Option<ImposterDrop>,
    ) -> (imposter: Self)
        requires
            data@.len() == layout.size,
        ensures
            imposter.wf(),
            imposter@ == data@,
            imposter.spec_type_id() == typeid,
            imposter.spec_layout() == layout,
            imposter.spec_drop_fn() == drop,
            imposter.finalized() == Seq::<Seq<u8>>::empty(),
    {
        Imposter { data, typeid, layout, drop, finalized: Ghost(Seq::empty()) }
    }

    /// Hands the value out as a `T` and gives the wrapper up without running
    /// the destructor: the value, and its cleanup, now belong to the caller.
    ///
    /// If `T` is not the type held, or the image is no value of `T`, the
    /// imposter comes back unchanged in `Err`.
    pub fn downcast<T: Erasable>(self) -> (result: Result<T, Self>)
        ensures
            match result {
                Ok(item) => self.value::<T>() == Some(item),
                Err(imposter) => self.value::<T>().is_none() && imposter == self,
            },
    {
        if self.has_type_id::<T>() {
            return Err(self);
        }
        match T::from_bytes(self.data.as_slice()) {
            Some(item) => {
                self.dispose_and_forget();
                Ok(item)
            },
            None => Err(self),
        }
    }

    /// Hands the value out as a `T`, for a caller who knows that it is one.
    pub fn downcast_unchecked<T: Erasable>(self) -> (item: T)
        requires
            self.value::<T>().is_some(),
        ensures
            Some(item) == self.value::<T>(),
    {
        let item = T::from_bytes(self.data.as_slice()).unwrap();
        self.dispose_and_forget();
        item
    }

    /// As `downcast`, with the value in a box.
    pub fn downcast_box<T: Erasable>(self) -> (result: Result<Box<T>, Self>)
        ensures
            match result {
                Ok(item) => self.value::<T>() == Some(*item),
                Err(imposter) => self.value::<T>().is_none() && imposter == self,
            },
    {
        match self.downcast::<T>() {
            Ok(item) => Ok(Box::new(item)),
            Err(imposter) => Err(imposter),
        }
    }

    /// As `downcast_unchecked`, with the value in a box.
    pub fn downcast_box_unchecked<T: Erasable>(self) -> (item: Box<T>)
        requires
            self.value::<T>().is_some(),
        ensures
            Some(*item) == self.value::<T>(),
    {
        Box::new(self.downcast_unchecked::<T>())
    }

    /// Reads the value as a `T`; `None` if `T` is not the type held or the
    /// image is no value of `T`. The imposter keeps the value.
    pub fn downcast_ref<T: Erasable>(&self) -> (item: Option<T>)
        ensures
            item == self.value::<T>(),
    {
        if self.has_type_id::<T>() {
            return None;
        }
        T::from_bytes(self.data.as_slice())
    }

    /// Reads the value as a `T`, for a caller who knows that it is one.
    pub fn downcast_ref_unchecked<T: Erasable>(&self) -> (item: T)
        requires
            self.value::<T>().is_some(),
        ensures
            Some(item) == self.value::<T>(),
    {
        T::from_bytes(self.data.as_slice()).unwrap()
    }

    /// Stores `item` in place of the value held, keeping tag, layout and
    /// destructor; the value that gives way is finalized by the destructor, if
    /// there is one. If `T` is not the type held, `item` comes back in `Err`
    /// and nothing changes.
    pub fn downcast_mut<T: Erasable>(&mut self, item: T) -> (result: Result<(), T>)
        ensures
            final(self).wf(),
            final(self).spec_type_id() == old(self).spec_type_id(),
            final(self).spec_layout() == old(self).spec_layout(),
            final(self).spec_drop_fn() == old(self).spec_drop_fn(),
            match result {
                Ok(()) => {
                    &&& old(self).holds::<T>()
                    &&& final(self)@ == item.image()
                    &&& final(self).finalized() == old(self).finalized_with(old(self)@)
                },
                Err(given) => {
                    &&& !old(self).holds::<T>()
                    &&& given == item
                    &&& *final(self) == *old(self)
                },
            },
    {
        proof {
            use_type_invariant(&*self);
        }
        if self.has_type_id::<T>() {
            return Err(item);
        }
        self.downcast_mut_unchecked(item);
        Ok(())
    }

    /// Stores `item` in place of the value held, for a caller who knows that
    /// `T` is the type held.
    pub fn downcast_mut_unchecked<T: Erasable>(&mut self, item: T)
        requires
            old(self).holds::<T>(),
        ensures
            final(self).wf(),
            final(self)@ == item.image(),
            final(self).finalized() == old(self).finalized_with(old(self)@),
            final(self).spec_type_id() == old(self).spec_type_id(),
            final(self).spec_layout() == old(self).spec_layout(),
            final(self).spec_drop_fn() == old(self).spec_drop_fn(),
    {
        proof {
            use_type_invariant(&*self);
            T::image_round_trip(item);
        }
        if let Some(hook) = self.drop {
            hook.finalize(self.data.as_slice());
            self.finalized = Ghost(self.finalized@.push(self.data@));
        }
        self.data = item.into_bytes();
    }

    /// Gives the imposter up and frees its block without running the
    /// destructor: for a value whose bytes have found another owner.
    pub fn dispose_and_forget(self) {
        let mut imposter = self;
        proof {
            use_type_invariant(&imposter);
        }
        imposter.drop = None;
        assert(imposter.finalized_with(imposter@) == imposter.finalized());
    }

    /// The byte image of the value held.
    pub fn data(&self) -> (bytes: &[u8])
        ensures
            bytes@ == self@,
            bytes@.len() == self.spec_layout().size,
    {
        proof {
            use_type_invariant(self);
        }
        self.data.as_slice()
    }

    /// The tag of the value held.
    pub fn type_id(&self) -> (id: TypeId)
        ensures
            id == self.spec_type_id(),
    {
        self.typeid
    }

    /// Tells whether `T` is foreign to this imposter: `true` if the value held
    /// is not a `T`, `false` if it is.
    pub fn has_type_id<T: Erasable>(&self) -> (foreign: bool)
        ensures
            foreign == !self.holds::<T>(),
    {
        self.typeid != T::type_id() || self.layout != T::layout()
    }

    /// The layout of the value held.
    pub fn layout(&self) -> (layout: Layout)
        ensures
            layout == self.spec_layout(),
    {
        self.layout
    }

    /// The destructor recorded for the value held, if it has one.
    pub fn drop_fn(&self) -> (hook: Option<ImposterDrop>)
        ensures
            hook == self.spec_drop_fn(),
    {
        self.drop
    }
}

} // verus!
