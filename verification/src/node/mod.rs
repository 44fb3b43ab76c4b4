//! Node tree data structures representing mathematical expressions in various formats.
//!
//! Unstructured nodes are suited to input and cursor navigation, but do not have enough structure
//! to be evaluated. Structured nodes follow a rigid format which can be evaluated. Unstructured
//! nodes are converted to structured nodes by upgrading them.

pub mod function;
pub mod unstructured;
pub mod common;
pub mod structured;
pub mod parser;
pub mod compiled;
pub mod simplified;
pub mod values;
