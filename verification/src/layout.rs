//! The two descriptors every erased value carries: which type it is, and how
//! many bytes of which alignment it occupies.

use vstd::prelude::*;

verus! {

/// An equality-comparable tag that tells one stored type from another.
///
/// Tags carry no order; two values are of the same type exactly when their
/// tags are equal.
#[derive(Clone, Copy, PartialEq, Eq, Structural, Debug, Hash)]
pub struct TypeId {
    pub tag: u64,
}

/// Size and alignment of one value, in bytes.
#[derive(Clone, Copy, PartialEq, Eq, Structural, Debug, Hash)]
pub struct Layout {
    pub size: usize,
    pub align: usize,
}

} // verus!
