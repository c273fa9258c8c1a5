//! Why source text could not be turned into a syntax tree.
use vstd::prelude::*;

verus! {

/// What is wrong with the source text.
#[derive(Debug, Clone, Copy, PartialEq, Eq, Structural)]
pub enum SyntaxProblem {
    /// The text is empty.
    NoInput,
    /// The text does not start with what the rule asks for.
    Unexpected,
    /// The rule matched, but text is left behind the match.
    ExtraInput,
}

/// Why parsing failed.
#[derive(Debug, Clone, Copy, PartialEq, Eq, Structural)]
pub enum ParseError {
    /// The text does not follow the grammar. The position is that of the first byte
    /// that is left over, or 0.
    Syntax { problem: SyntaxProblem, position: usize },
    /// The text has more names or more constants than there are ids for them.
    TooLarge,
    /// The tree does not have the shape that its nodes ask for.
    Malformed,
    /// The node store did not know one of its own nodes.
    NodeId,
}

} // verus!
