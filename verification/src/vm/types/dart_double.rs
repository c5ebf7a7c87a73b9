//! Marker for handles to a Dart `double`.

use vstd::prelude::*;

verus! {

/// Marks a handle to a Dart `double`.
#[derive(Clone, Copy, Debug)]
pub struct DartDouble;

} // verus!
