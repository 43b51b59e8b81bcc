//! Type-erased storage: a single-value container and a growable vector whose
//! element type is chosen at run time, both kept as byte images over a managed
//! buffer.

pub mod collections;
pub mod erase;
pub mod imposter;
pub mod laws;
pub mod layout;
pub mod memory;

pub use crate::erase::{Erasable, Finalize, ImposterDrop};
pub use crate::imposter::Imposter;
pub use crate::layout::{Layout, TypeId};
pub use crate::memory::RawMemory;
