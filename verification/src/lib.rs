//! A framework for implementing intuitive mathematical expression editors.

pub mod error;
pub mod evaluate;
pub mod nav;
pub mod node;
pub mod number;
pub mod render;
pub mod renderers;
pub mod serialize;

pub use crate::node::unstructured::{
    Token, UnstructuredItem, UnstructuredNode, UnstructuredNodeList, UnstructuredNodeRoot,
};

