//! A vector that can only grow at its end.
//!
//! Elements are stored in a sequence of bins whose sizes double: bin `b`
//! holds `8 << b` elements.  A bin is allocated with room for all its
//! elements when its first element is pushed and is then written in place,
//! so an element keeps its location (bin, allocation, slot) once pushed.
//!
//! - `layout`: which bin and which slot of it hold a given index.
//! - `bin`: one bin, a buffer allocated once with fixed room.
//! - `bins`: the bins, and what it means for them to hold `n` elements.
//! - `AppendOnlyVec`: the vector, whose view is the sequence of its elements.
//! - `IntoIter`: the elements taken out of a vector, from either end.

pub mod bins;
pub mod layout;
mod append_vec;
pub mod bin;
mod into_iter;
mod remaining;

pub use append_vec::AppendOnlyVec;
pub use into_iter::IntoIter;
pub use layout::{bin_size, indices};
