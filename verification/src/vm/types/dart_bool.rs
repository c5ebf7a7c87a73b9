//! Marker for handles to a Dart `bool`.

use vstd::prelude::*;

verus! {

/// Marks a handle to a Dart `bool`.
#[derive(Clone, Copy, Debug)]
pub struct DartBool;

} // verus!
