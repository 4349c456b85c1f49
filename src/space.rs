//! Capacity tags: byte sizes to give a cell as its type's capacity
//! (`StackBox<U4>`); any other constant size serves as well.

use vstd::prelude::*;

verus! {

/// Bytes in one machine word.
pub const WORD: usize = 8;

/// A buffer of one word.
pub const U1: usize = 8;

/// A buffer of two words.
pub const U2: usize = 16;

/// A buffer of four words: the general-purpose default.
pub const U4: usize = 32;

/// A buffer of eight words.
pub const U8: usize = 64;

} // verus!
