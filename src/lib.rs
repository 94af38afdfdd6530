//! An array of small unsigned values packed into a single `u128`.
//!
//! The word holds, least significant bits first, a 3-bit size class (the log2 of
//! the element width), a 5-bit length and then the elements themselves, each
//! `width` bits wide, element 0 at the lowest offset.

pub mod layout;
pub mod array;
pub mod laws;

pub use array::{UintArray, UintArrayError};
