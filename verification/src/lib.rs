//! Tools for reading CAN bus dumps: decoding candump lines, indexing the
//! lines of a dump held in memory, and looking up signal definitions.

pub mod collections;
pub mod text;
pub mod picana_core;
pub mod picana;
pub mod vm;
