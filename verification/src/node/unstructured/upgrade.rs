//! Upgrading unstructured node trees into structured ones.

use vstd::prelude::*;

use crate::error::NodeError;
use crate::node::parser::{list_models, spec_upgrade_list, spec_upgrade_node, upgrade_args, upgrade_list, upgraded};
use crate::node::structured::{tree_numbers_wf, StructuredNode, Tree};

use super::node::{UnstructuredNode, UnstructuredNodeList, UnstructuredNodeRoot};

verus! {

/// Implemented by types which can be upgraded: converted into a structured node tree.
///
/// Failures occur due to syntax errors; for example, `3+` is a valid unstructured node tree (a
/// pair of two tokens, `3` and `+`), but is not a syntactically valid mathematical expression, so
/// it cannot be a structured node tree.
pub trait Upgradable {
    /// The structured tree which this upgrades into, or the error met.
    spec fn spec_upgrade(&self) -> Result<Tree, NodeError>;

    /// Attempts to upgrade this node tree, and returns a [StructuredNode] if it succeeds.
    fn upgrade(&self) -> (r: Result<StructuredNode, NodeError>)
        ensures
            upgraded(r, self.spec_upgrade()),
            r matches Ok(n) ==> tree_numbers_wf(n@),
    ;
}

impl Upgradable for UnstructuredNodeList {
    open spec fn spec_upgrade(&self) -> Result<Tree, NodeError> {
        spec_upgrade_list(self@)
    }

    fn upgrade(&self) -> (r: Result<StructuredNode, NodeError>) {
        upgrade_list(self)
    }
}

impl Upgradable for UnstructuredNodeRoot {
    open spec fn spec_upgrade(&self) -> Result<Tree, NodeError> {
        spec_upgrade_list(self@)
    }

    fn upgrade(&self) -> (r: Result<StructuredNode, NodeError>) {
        upgrade_list(&self.root)
    }
}

impl Upgradable for UnstructuredNode {
    open spec fn spec_upgrade(&self) -> Result<Tree, NodeError> {
        spec_upgrade_node(self@)
    }

    fn upgrade(&self) -> (r: Result<StructuredNode, NodeError>) {
        match self {
            UnstructuredNode::Sqrt(inner) => Ok(StructuredNode::Sqrt(Box::new(upgrade_list(inner)?))),
            UnstructuredNode::Parentheses(inner) => Ok(StructuredNode::Parentheses(Box::new(upgrade_list(inner)?))),
            UnstructuredNode::Fraction(a, b) => {
                let top = upgrade_list(a)?;
                let bottom = upgrade_list(b)?;
                Ok(StructuredNode::Divide(Box::new(top), Box::new(bottom)))
            },
            // A power is handled by the parser, together with its base
            UnstructuredNode::Power(_) => Err(NodeError::PowerMissingBase),
            UnstructuredNode::FunctionCall(f, args) => {
                proof {
                    assert(self@->FunctionCall_1 =~= list_models(args@));
                }
                let upgraded_args = upgrade_args(args)?;
                let call = StructuredNode::FunctionCall(*f, upgraded_args);
                proof {
                    assert(call@->FunctionCall_1 =~= spec_upgrade_node(self@)->Ok_0->FunctionCall_1);
                }
                Ok(call)
            },
            UnstructuredNode::Token(_) => Err(NodeError::CannotUpgradeToken),
        }
    }
}

} // verus!
