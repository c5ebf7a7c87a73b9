//! Marker for handles to a Dart `int`.

use vstd::prelude::*;

verus! {

/// Marks a handle to a Dart `int`.
#[derive(Clone, Copy, Debug)]
pub struct DartInteger;

} // verus!
