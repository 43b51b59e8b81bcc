//! Collections of erased values.

pub mod vec;
