//! Error types for various operations.

use vstd::prelude::*;

use crate::serialize::{prefix_at, Serializable};

verus! {

/// An error which occurs while parsing or upgrading a node tree.
#[derive(PartialEq, Eq, Debug, Clone, Copy)]
pub enum NodeError {
    /// The parser was unable to use all of the tokens it was given, indicating a syntax error.
    UnexpectedTokensAtEnd,
    /// A power was used, but while upgrading, there was no suitable node preceding it to use as a
    /// base.
    PowerMissingBase,
    /// The parser was expecting a node which could be parsed as a unit, but could not find one,
    /// indicating a syntax error.
    ExpectedUnit,
    /// While upgrading, a token was found. These should always be handled by the parser, so
    /// finding one during an upgrade represents an internal error.
    CannotUpgradeToken,
    /// A numeral used in an expression does not fit into the number representation.
    Overflow,
}

/// A mathematical error encountered while evaluating a node tree.
#[derive(PartialEq, Eq, Debug, Clone, Copy)]
pub enum MathsError {
    /// Attempted to divide by zero.
    DivisionByZero,
    /// A square root operation was invalid.
    InvalidSqrt,
    /// A variable was used in the expression, but variables cannot currently have values, so this
    /// is invalid.
    MissingVariable,
    /// The result of an operation does not fit into the number representation.
    Overflow,
    /// Raising to a power would give an imaginary result, which cannot be represented.
    Imaginary,
}

/// The message describing a node error.
pub open spec fn node_error_message(e: NodeError) -> Seq<char> {
    match e {
        NodeError::UnexpectedTokensAtEnd => "syntax error"@,
        NodeError::PowerMissingBase => "no base given for power"@,
        NodeError::ExpectedUnit => "syntax error"@,
        NodeError::CannotUpgradeToken => "internal syntax error"@,
        NodeError::Overflow => "numeric overflow"@,
    }
}

/// The message describing a maths error.
pub open spec fn maths_error_message(e: MathsError) -> Seq<char> {
    match e {
        MathsError::DivisionByZero => "division by zero"@,
        MathsError::InvalidSqrt => "invalid square root"@,
        MathsError::MissingVariable => "cannot evaluate variable"@,
        MathsError::Overflow => "numeric overflow"@,
        MathsError::Imaginary => "imaginary"@,
    }
}

impl NodeError {
    /// A short description of this error, for display to a user.
    pub fn message(&self) -> (r: &'static str)
        ensures
            r@ == node_error_message(*self),
    {
        match self {
            NodeError::UnexpectedTokensAtEnd => "syntax error",
            NodeError::PowerMissingBase => "no base given for power",
            NodeError::ExpectedUnit => "syntax error",
            NodeError::CannotUpgradeToken => "internal syntax error",
            NodeError::Overflow => "numeric overflow",
        }
    }
}

impl MathsError {
    /// A short description of this error, for display to a user.
    pub fn message(&self) -> (r: &'static str)
        ensures
            r@ == maths_error_message(*self),
    {
        match self {
            MathsError::DivisionByZero => "division by zero",
            MathsError::InvalidSqrt => "invalid square root",
            MathsError::MissingVariable => "cannot evaluate variable",
            MathsError::Overflow => "numeric overflow",
            MathsError::Imaginary => "imaginary",
        }
    }
}

/// The byte of a node error.
pub open spec fn node_error_byte(e: NodeError) -> u8 {
    match e {
        NodeError::UnexpectedTokensAtEnd => 1,
        NodeError::PowerMissingBase => 2,
        NodeError::ExpectedUnit => 3,
        NodeError::CannotUpgradeToken => 4,
        NodeError::Overflow => 5,
    }
}

/// The byte of a maths error.
pub open spec fn maths_error_byte(e: MathsError) -> u8 {
    match e {
        MathsError::DivisionByZero => 1,
        MathsError::InvalidSqrt => 2,
        MathsError::MissingVariable => 3,
        MathsError::Overflow => 4,
        MathsError::Imaginary => 5,
    }
}

impl Serializable for NodeError {
    open spec fn serializable(&self) -> bool {
        true
    }

    open spec fn spec_serialize(&self) -> Seq<u8> {
        seq![node_error_byte(*self)]
    }

    fn serialize(&self) -> (r: Vec<u8>) {
        let mut r: Vec<u8> = Vec::new();
        r.push(
            match self {
                NodeError::UnexpectedTokensAtEnd => 1,
                NodeError::PowerMissingBase => 2,
                NodeError::ExpectedUnit => 3,
                NodeError::CannotUpgradeToken => 4,
                NodeError::Overflow => 5,
            },
        );
        assert(r@ =~= seq![node_error_byte(*self)]);
        r
    }

    fn deserialize(bytes: &[u8], pos: &mut usize) -> (r: Option<Self>)
        ensures
            forall|e: NodeError|
                prefix_at(bytes@, *old(pos) as int, seq![node_error_byte(e)]) ==> r == Some(e) && *final(pos)
                    == *old(pos) + 1,
    {
        if *pos >= bytes.len() {
            return None;
        }
        let byte = bytes[*pos];
        *pos = *pos + 1;
        let r = match byte {
            1 => Some(NodeError::UnexpectedTokensAtEnd),
            2 => Some(NodeError::PowerMissingBase),
            3 => Some(NodeError::ExpectedUnit),
            4 => Some(NodeError::CannotUpgradeToken),
            5 => Some(NodeError::Overflow),
            _ => None,
        };
        proof {
            if let Some(e) = r {
                assert(bytes@.subrange(*old(pos) as int, *pos as int) =~= seq![node_error_byte(e)]);
            }
            assert forall|e: NodeError| prefix_at(bytes@, *old(pos) as int, seq![node_error_byte(e)]) implies r
                == Some(e) by {
                assert(bytes@.subrange(*old(pos) as int, *old(pos) + 1)[0] == bytes@[*old(pos) as int]);
            }
        }
        r
    }
}

impl Serializable for MathsError {
    open spec fn serializable(&self) -> bool {
        true
    }

    open spec fn spec_serialize(&self) -> Seq<u8> {
        seq![maths_error_byte(*self)]
    }

    fn serialize(&self) -> (r: Vec<u8>) {
        let mut r: Vec<u8> = Vec::new();
        r.push(
            match self {
                MathsError::DivisionByZero => 1,
                MathsError::InvalidSqrt => 2,
                MathsError::MissingVariable => 3,
                MathsError::Overflow => 4,
                MathsError::Imaginary => 5,
            },
        );
        assert(r@ =~= seq![maths_error_byte(*self)]);
        r
    }

    fn deserialize(bytes: &[u8], pos: &mut usize) -> (r: Option<Self>)
        ensures
            forall|e: MathsError|
                prefix_at(bytes@, *old(pos) as int, seq![maths_error_byte(e)]) ==> r == Some(e) && *final(pos)
                    == *old(pos) + 1,
    {
        if *pos >= bytes.len() {
            return None;
        }
        let byte = bytes[*pos];
        *pos = *pos + 1;
        let r = match byte {
            1 => Some(MathsError::DivisionByZero),
            2 => Some(MathsError::InvalidSqrt),
            3 => Some(MathsError::MissingVariable),
            4 => Some(MathsError::Overflow),
            5 => Some(MathsError::Imaginary),
            _ => None,
        };
        proof {
            if let Some(e) = r {
                assert(bytes@.subrange(*old(pos) as int, *pos as int) =~= seq![maths_error_byte(e)]);
            }
            assert forall|e: MathsError| prefix_at(bytes@, *old(pos) as int, seq![maths_error_byte(e)]) implies r
                == Some(e) by {
                assert(bytes@.subrange(*old(pos) as int, *old(pos) + 1)[0] == bytes@[*old(pos) as int]);
            }
        }
        r
    }
}

} // verus!
