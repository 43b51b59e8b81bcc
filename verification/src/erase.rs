//! How typed values enter and leave erased storage.

use crate::layout::{Layout, TypeId};
use vstd::prelude::*;

verus! {

/// Cleanup run on the byte image of a value when its owner gives it up
/// without handing it on.
///
/// A destructor runs while its owner is being dropped, so it must return: it
/// may not panic. Left as it is, it does nothing.
pub trait Finalize {
    fn finalize(&self, bytes: &[u8])
        opens_invariants none
        no_unwind
    {
    }
}

/// The erased destructor of a stored type.
pub type ImposterDrop = &'static dyn Finalize;

/// A type whose values can be stored erased: it names its tag and layout, and
/// turns each value into a byte image from which the value can be read back.
///
/// The tag is what tells the types apart at run time, so types that meet in
/// one program must not share one.
pub trait Erasable: Sized {
    /// The tag of this type.
    spec fn spec_type_id() -> TypeId;

    /// The layout of one value of this type.
    spec fn spec_layout() -> Layout;

    /// The destructor of this type, if its values need one.
    spec fn spec_drop_fn() -> Option<ImposterDrop>;

    /// The byte image of a value.
    spec fn image(&self) -> Seq<u8>;

    /// The value that a byte image stands for, if it stands for one.
    spec fn from_image(bytes: Seq<u8>) -> Option<Self>;

    /// Every image fills the layout exactly and reads back as its value.
    proof fn image_round_trip(value: Self)
        ensures
            value.image().len() == Self::spec_layout().size,
            Self::from_image(value.image()) == Some(value),
    ;

    /// The tag of this type.
    fn type_id() -> (id: TypeId)
        ensures
            id == Self::spec_type_id(),
    ;

    /// The layout of one value of this type.
    fn layout() -> (layout: Layout)
        ensures
            layout == Self::spec_layout(),
    ;

    /// The destructor of this type, or `None` if its values need no cleanup.
    fn drop_fn() -> (hook: Option<ImposterDrop>)
        ensures
            hook == Self::spec_drop_fn(),
    ;

    /// Turns the value into its byte image.
    fn into_bytes(self) -> (bytes: Vec<u8>)
        ensures
            bytes@ == self.image(),
    ;

    /// Reads a value from a byte image; `None` if the bytes are no image of
    /// a value of this type.
    fn from_bytes(bytes: &[u8]) -> (value: Option<Self>)
        ensures
            value == Self::from_image(bytes@),
    ;
}

/// The empty value, which takes no room.
impl Erasable for () {
    open spec fn spec_type_id() -> TypeId {
        TypeId { tag: 0 }
    }

    open spec fn spec_layout() -> Layout {
        Layout { size: 0, align: 1 }
    }

    open spec fn spec_drop_fn() -> Option<ImposterDrop> {
        None
    }

    open spec fn image(&self) -> Seq<u8> {
        Seq::empty()
    }

    open spec fn from_image(bytes: Seq<u8>) -> Option<Self> {
        if bytes.len() == 0 {
            Some(())
        } else {
            None
        }
    }

    proof fn image_round_trip(value: Self) {
    }

    fn type_id() -> (id: TypeId) {
        TypeId { tag: 0 }
    }

    fn layout() -> (layout: Layout) {
        Layout { size: 0, align: 1 }
    }

    fn drop_fn() -> (hook: Option<ImposterDrop>) {
        None
    }

    fn into_bytes(self) -> (bytes: Vec<u8>) {
        Vec::new()
    }

    fn from_bytes(bytes: &[u8]) -> (value: Option<Self>) {
        if bytes.len() == 0 {
            Some(())
        } else {
            None
        }
    }
}

/// Stored as the one byte it is.
impl Erasable for u8 {
    open spec fn spec_type_id() -> TypeId {
        TypeId { tag: 1 }
    }

    open spec fn spec_layout() -> Layout {
        Layout { size: 1, align: 1 }
    }

    open spec fn spec_drop_fn() -> Option<ImposterDrop> {
        None
    }

    open spec fn image(&self) -> Seq<u8> {
        seq![*self]
    }

    open spec fn from_image(bytes: Seq<u8>) -> Option<Self> {
        if bytes.len() == 1 {
            Some(bytes[0])
        } else {
            None
        }
    }

    proof fn image_round_trip(value: Self) {
    }

    fn type_id() -> (id: TypeId) {
        TypeId { tag: 1 }
    }

    fn layout() -> (layout: Layout) {
        Layout { size: 1, align: 1 }
    }

    fn drop_fn() -> (hook: Option<ImposterDrop>) {
        None
    }

    fn into_bytes(self) -> (bytes: Vec<u8>) {
        let mut bytes: Vec<u8> = Vec::new();
        bytes.push(self);
        bytes
    }

    fn from_bytes(bytes: &[u8]) -> (value: Option<Self>) {
        if bytes.len() == 1 {
            Some(bytes[0])
        } else {
            None
        }
    }
}

/// Stored as its bytes, lowest first.
impl Erasable for u16 {
    open spec fn spec_type_id() -> TypeId {
        TypeId { tag: 2 }
    }

    open spec fn spec_layout() -> Layout {
        Layout { size: 2, align: 2 }
    }

    open spec fn spec_drop_fn() -> Option<ImposterDrop> {
        None
    }

    open spec fn image(&self) -> Seq<u8> {
        vstd::bytes::spec_u16_to_le_bytes(*self)
    }

    open spec fn from_image(bytes: Seq<u8>) -> Option<Self> {
        if bytes.len() == 2 {
            Some(vstd::bytes::spec_u16_from_le_bytes(bytes))
        } else {
            None
        }
    }

    proof fn image_round_trip(value: Self) {
        vstd::bytes::lemma_auto_spec_u16_to_from_le_bytes();
    }

    fn type_id() -> (id: TypeId) {
        TypeId { tag: 2 }
    }

    fn layout() -> (layout: Layout) {
        Layout { size: 2, align: 2 }
    }

    fn drop_fn() -> (hook: Option<ImposterDrop>) {
        None
    }

    fn into_bytes(self) -> (bytes: Vec<u8>) {
        vstd::bytes::u16_to_le_bytes(self)
    }

    fn from_bytes(bytes: &[u8]) -> (value: Option<Self>) {
        if bytes.len() == 2 {
            Some(vstd::bytes::u16_from_le_bytes(bytes))
        } else {
            None
        }
    }
}

/// Stored as its bytes, lowest first.
impl Erasable for u32 {
    open spec fn spec_type_id() -> TypeId {
        TypeId { tag: 3 }
    }

    open spec fn spec_layout() -> Layout {
        Layout { size: 4, align: 4 }
    }

    open spec fn spec_drop_fn() -> Option<ImposterDrop> {
        None
    }

    open spec fn image(&self) -> Seq<u8> {
        vstd::bytes::spec_u32_to_le_bytes(*self)
    }

    open spec fn from_image(bytes: Seq<u8>) -> Option<Self> {
        if bytes.len() == 4 {
            Some(vstd::bytes::spec_u32_from_le_bytes(bytes))
        } else {
            None
        }
    }

    proof fn image_round_trip(value: Self) {
        vstd::bytes::lemma_auto_spec_u32_to_from_le_bytes();
    }

    fn type_id() -> (id: TypeId) {
        TypeId { tag: 3 }
    }

    fn layout() -> (layout: Layout) {
        Layout { size: 4, align: 4 }
    }

    fn drop_fn() -> (hook: Option<ImposterDrop>) {
        None
    }

    fn into_bytes(self) -> (bytes: Vec<u8>) {
        vstd::bytes::u32_to_le_bytes(self)
    }

    fn from_bytes(bytes: &[u8]) -> (value: Option<Self>) {
        if bytes.len() == 4 {
            Some(vstd::bytes::u32_from_le_bytes(bytes))
        } else {
            None
        }
    }
}

/// Stored as its bytes, lowest first.
impl Erasable for u64 {
    open spec fn spec_type_id() -> TypeId {
        TypeId { tag: 4 }
    }

    open spec fn spec_layout() -> Layout {
        Layout { size: 8, align: 8 }
    }

    open spec fn spec_drop_fn() -> Option<ImposterDrop> {
        None
    }

    open spec fn image(&self) -> Seq<u8> {
        vstd::bytes::spec_u64_to_le_bytes(*self)
    }

    open spec fn from_image(bytes: Seq<u8>) -> Option<Self> {
        if bytes.len() == 8 {
            Some(vstd::bytes::spec_u64_from_le_bytes(bytes))
        } else {
            None
        }
    }

    proof fn image_round_trip(value: Self) {
        vstd::bytes::lemma_auto_spec_u64_to_from_le_bytes();
    }

    fn type_id() -> (id: TypeId) {
        TypeId { tag: 4 }
    }

    fn layout() -> (layout: Layout) {
        Layout { size: 8, align: 8 }
    }

    fn drop_fn() -> (hook: Option<ImposterDrop>) {
        None
    }

    fn into_bytes(self) -> (bytes: Vec<u8>) {
        vstd::bytes::u64_to_le_bytes(self)
    }

    fn from_bytes(bytes: &[u8]) -> (value: Option<Self>) {
        if bytes.len() == 8 {
            Some(vstd::bytes::u64_from_le_bytes(bytes))
        } else {
            None
        }
    }
}

/// A record of two `u32` fields, one after the other.
impl Erasable for (u32, u32) {
    open spec fn spec_type_id() -> TypeId {
        TypeId { tag: 5 }
    }

    open spec fn spec_layout() -> Layout {
        Layout { size: 8, align: 4 }
    }

    open spec fn spec_drop_fn() -> Option<ImposterDrop> {
        None
    }

    open spec fn image(&self) -> Seq<u8> {
        self.0.image() + self.1.image()
    }

    open spec fn from_image(bytes: Seq<u8>) -> Option<Self> {
        if bytes.len() == 8 {
            Some(
                (
                    vstd::bytes::spec_u32_from_le_bytes(bytes.subrange(0, 4)),
                    vstd::bytes::spec_u32_from_le_bytes(bytes.subrange(4, 8)),
                ),
            )
        } else {
            None
        }
    }

    proof fn image_round_trip(value: Self) {
        vstd::bytes::lemma_auto_spec_u32_to_from_le_bytes();
        let first = value.0.image();
        let second = value.1.image();
        assert((first + second).subrange(0, 4) =~= first);
        assert((first + second).subrange(4, 8) =~= second);
    }

    fn type_id() -> (id: TypeId) {
        TypeId { tag: 5 }
    }

    fn layout() -> (layout: Layout) {
        Layout { size: 8, align: 4 }
    }

    fn drop_fn() -> (hook: Option<ImposterDrop>) {
        None
    }

    fn into_bytes(self) -> (bytes: Vec<u8>) {
        let mut bytes = self.0.into_bytes();
        let mut rest = self.1.into_bytes();
        bytes.append(&mut rest);
        bytes
    }

    fn from_bytes(bytes: &[u8]) -> (value: Option<Self>) {
        if bytes.len() == 8 {
            let first = vstd::bytes::u32_from_le_bytes(vstd::slice::slice_subrange(bytes, 0, 4));
            let second = vstd::bytes::u32_from_le_bytes(vstd::slice::slice_subrange(bytes, 4, 8));
            Some((first, second))
        } else {
            None
        }
    }
}

} // verus!
