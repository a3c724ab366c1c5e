//! The ways in which a compilation can fail.

use vstd::prelude::*;

verus! {

/// Why a compilation stopped. Each failure ends the whole run.
#[derive(Clone, Copy, Debug, PartialEq, Eq, Structural)]
pub enum CompileError {
    /// A lexeme that looks like a number but is not one, or an unusable pattern.
    Lex,
    /// An `end` without an opener, or a block that is never closed.
    Segmentation,
    /// A statement that fits none of the statement forms.
    Parse,
    /// A name without a binding, or an inferred type that is no type.
    Type,
    /// A tree that cannot be written out.
    Render,
}

/// Where in its input a run failed. Every index counts from zero.
#[derive(Clone, Copy, Debug, PartialEq, Eq, Structural)]
pub enum Place {
    /// A line of the source text.
    Line(usize),
    /// A token of the token sequence.
    Token(usize),
    /// A statement of those that the token sequence is cut into.
    Statement(usize),
    /// A top-level node of the syntax tree.
    Node(usize),
}

/// A failure together with the place of its cause.
#[derive(Clone, Copy, Debug, PartialEq, Eq, Structural)]
pub struct Failure {
    pub error: CompileError,
    pub place: Place,
}

} // verus!
