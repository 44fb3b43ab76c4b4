//! The unstructured node tree, suited to user input.
//!
//! Unstructured nodes use a flat list of tokens where possible, only introducing nodes with a more
//! rigid layout where verticality is required (e.g. fractions). They are upgraded to a tree of
//! structured nodes before they can be evaluated.

mod node;
pub use node::{
    ListModel, NodeModel, Token, UnstructuredItem, UnstructuredNode, UnstructuredNodeList,
    UnstructuredNodeRoot,
};

mod navigation;
mod paths;
pub mod layout;
pub mod serialize;
pub use navigation::{ItemModel, MoveResult, Navigable, TraceItem};
mod upgrade;
pub use upgrade::Upgradable;
