//! Errors reported by the Dart VM.

pub mod exception;
