//! Marker for handles to a Dart `String`.

use vstd::prelude::*;

verus! {

/// Marks a handle to a Dart `String`.
#[derive(Clone, Copy, Debug)]
pub struct DartString;

} // verus!
