//! Inline storage cells: a byte array of a capacity fixed by the cell's type,
//! which holds one value's encoding without allocating, together with the
//! descriptor needed to rebuild the value from it.

pub mod space;
pub mod stackbox;
pub mod value;

pub use stackbox::{StackBox, into_values};
pub use value::{Descriptor, Value};
