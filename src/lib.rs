//! Marshalling of host values across a C-compatible call boundary, the
//! dependency-ordered type declarations that describe them, and the text of
//! the bindings generated for exposed functions.

pub mod error;
pub mod marshal;
pub mod entry;
pub mod resolve;
pub mod lua;
pub mod generator;
pub mod unit;
pub mod example;
pub mod adapt;
