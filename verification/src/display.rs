//! Display objects.

use vstd::prelude::*;

verus! {

/// A bitmap, shape, container, movie clip, user interface component or
/// three-dimensional object.
pub struct DisplayObject {}

} // verus!
