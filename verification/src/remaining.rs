//! The values an `IntoIter` still holds.
use vstd::prelude::*;

verus! {

use std::collections::VecDeque;

/// The values left, front first, in a queue that gives them up from either
/// end.  It bears the name of the standard vector iterator, so that
/// `Debug` prints it as that iterator is printed: `IntoIter([..])`.
#[derive(Debug)]
pub struct IntoIter<T>(pub(crate) VecDeque<T>);

} // verus!
