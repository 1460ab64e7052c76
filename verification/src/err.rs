//! The error type shared by the converter and the reducer.

use vstd::prelude::*;

verus! {

/// The failure classes of the engine. Every error the engine returns carries
/// exactly one of these, so callers can react to the class instead of
/// inspecting message text.
#[derive(Clone, Copy, Debug, PartialEq, Eq, Structural)]
pub enum CalcErrKind {
    /// A character outside the accepted set occurs in the input.
    InvalidInput,
    /// No grammar rule matches at the carried character offset.
    UnrecognizedToken(usize),
    /// Bracket nesting does not balance, in either direction.
    UnmatchedBracket,
    /// A matched numeral could not be converted to a number.
    NumberParseError,
    /// An operation was reduced with too few operands on the stack.
    StackUnderflow,
    /// Reduction left more than one operand on the stack.
    MalformedExpression,
    /// The postfix sequence was empty before reduction.
    EmptyExpression,
    /// An internal invariant was violated.
    InternalError,
}

/// The fixed human-readable message that accompanies each failure class.
pub open spec fn kind_msg(k: CalcErrKind) -> Seq<char> {
    match k {
        CalcErrKind::InvalidInput => "Input contains a character outside the accepted set."@,
        CalcErrKind::UnrecognizedToken(_) => "Can't process the expression at the reported offset."@,
        CalcErrKind::UnmatchedBracket => "Brackets don't match in the expression."@,
        CalcErrKind::NumberParseError => "Failed to parse a number in the expression."@,
        CalcErrKind::StackUnderflow => "An operation is missing an operand."@,
        CalcErrKind::MalformedExpression => "The expression leaves extra operands behind."@,
        CalcErrKind::EmptyExpression => "The expression is empty."@,
        CalcErrKind::InternalError => "An internal invariant of the engine was violated."@,
    }
}

/// Calculation error type.
#[derive(Debug)]
pub struct CalcErr {
    pub kind: CalcErrKind,
    pub msg: String,
}

impl CalcErr {
    /// Creates an error from a bare message, classified as an internal
    /// invariant violation; the engine's own failures are built with
    /// `from_kind` instead.
    pub fn new(text: &str) -> (e: CalcErr)
        ensures
            e.kind == CalcErrKind::InternalError,
            e.msg@ == text@,
    {
        CalcErr { kind: CalcErrKind::InternalError, msg: text.to_owned() }
    }

    /// Creates the error of the given class, carrying its fixed message.
    pub fn from_kind(kind: CalcErrKind) -> (e: CalcErr)
        ensures
            e.kind == kind,
            e.msg@ == kind_msg(kind),
    {
        let text: &str = match kind {
            CalcErrKind::InvalidInput => "Input contains a character outside the accepted set.",
            CalcErrKind::UnrecognizedToken(_) => "Can't process the expression at the reported offset.",
            CalcErrKind::UnmatchedBracket => "Brackets don't match in the expression.",
            CalcErrKind::NumberParseError => "Failed to parse a number in the expression.",
            CalcErrKind::StackUnderflow => "An operation is missing an operand.",
            CalcErrKind::MalformedExpression => "The expression leaves extra operands behind.",
            CalcErrKind::EmptyExpression => "The expression is empty.",
            CalcErrKind::InternalError => "An internal invariant of the engine was violated.",
        };
        CalcErr { kind, msg: text.to_owned() }
    }
}

} // verus!
