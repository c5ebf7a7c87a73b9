//! Markers for the kinds of value a Dart VM handle refers to.

pub mod dart_bool;
pub mod dart_double;
pub mod dart_integer;
pub mod dart_list;
pub mod dart_string;
