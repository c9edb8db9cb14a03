use crate::token::{ParseToken, TokView};
use vstd::prelude::*;

verus! {

/// A failure in one stage of the pipeline.
///
/// Every stage returns a `Result` instead of aborting; the first error ends
/// the compilation of that unit and nothing is emitted.
#[derive(Debug)]
pub enum CompileError {
    /// The lexer hit a character that cannot begin any token.
    InvalidCharacter(char),
    /// A numeric literal's text is not a well-formed number.
    InvalidNumberLiteral,
    /// A declaration's left-hand side does not begin with an identifier.
    InvalidAssignment,
    /// A postfix stream held a token the evaluator cannot classify.
    InvalidToken(ParseToken),
    /// An operator or call found too few operands on the evaluation stack.
    OperandError,
    /// A referenced identifier has no assigned version.
    NameError(String),
}

/// Ghost mirror of `CompileError`.
pub enum ErrView {
    InvalidCharacter(char),
    InvalidNumberLiteral,
    InvalidAssignment,
    InvalidToken(TokView),
    OperandError,
    NameError(Seq<char>),
}

impl DeepView for CompileError {
    type V = ErrView;

    open spec fn deep_view(&self) -> ErrView {
        match self {
            CompileError::InvalidCharacter(c) => ErrView::InvalidCharacter(*c),
            CompileError::InvalidNumberLiteral => ErrView::InvalidNumberLiteral,
            CompileError::InvalidAssignment => ErrView::InvalidAssignment,
            CompileError::InvalidToken(t) => ErrView::InvalidToken(t.deep_view()),
            CompileError::OperandError => ErrView::OperandError,
            CompileError::NameError(s) => ErrView::NameError(s@),
        }
    }
}

impl View for CompileError {
    type V = ErrView;

    open spec fn view(&self) -> ErrView {
        self.deep_view()
    }
}

/// A failure of the statement builder, annotated with the 0-based number of
/// the source line on which it arose.
#[derive(Debug)]
pub struct ParseError {
    pub line: usize,
    pub error: CompileError,
}

/// Ghost mirror of `ParseError`.
pub struct ParseErrView {
    pub line: nat,
    pub error: ErrView,
}

impl DeepView for ParseError {
    type V = ParseErrView;

    open spec fn deep_view(&self) -> ParseErrView {
        ParseErrView { line: self.line as nat, error: self.error.deep_view() }
    }
}

impl View for ParseError {
    type V = ParseErrView;

    open spec fn view(&self) -> ParseErrView {
        self.deep_view()
    }
}

} // verus!
