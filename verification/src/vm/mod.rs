//! Values and errors of the Dart VM that the library reports to.

pub mod instance;
pub mod types;
