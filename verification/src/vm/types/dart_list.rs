//! Marker for handles to a Dart `List`.

use vstd::prelude::*;

verus! {

/// Marks a handle to a Dart `List`.
#[derive(Clone, Copy, Debug)]
pub struct DartList;

} // verus!
