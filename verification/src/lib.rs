//! An engine for evaluating infix arithmetic expressions.
//!
//! The engine works in two stages, both verified. The converter scans an
//! input string and rewrites it into a postfix (Reverse Polish) sequence of
//! expression items, applying operator precedence and bracket resolution as
//! it goes — the shunting-yard algorithm. The reducer folds that sequence
//! into a single expression plan while checking its stack discipline. Every
//! stage returns exactly what its specification denotes, and each failure
//! carries the class of error the input deserves.
//!
//! The engine stops at the expression plan: carrying out the floating-point
//! arithmetic the plan describes is left to the caller, since floating-point
//! computation is outside what the engine verifies. A plan's numerals keep
//! their source text, and the engine proves that each is well-formed, so
//! converting them to numbers cannot fail.

mod calc;
mod convert;
mod err;
mod item;
mod laws;
mod reduce;

pub use calc::plan_of;
pub use calc::SimpleCalc;
pub use convert::convert_to_rpn;
pub use convert::rpn_of;
pub use err::CalcErr;
pub use err::CalcErrKind;
pub use item::BinKind;
pub use item::CalcExprItem;
pub use item::RpnItem;
pub use item::UnaryKind;
pub use laws::is_numeral;
pub use laws::lemma_calc_deterministic;
pub use laws::lemma_plan_never_internal_error;
pub use laws::lemma_rpn_has_no_brackets;
pub use laws::lemma_rpn_numbers_are_numerals;
pub use laws::rpn_wf;
pub use reduce::calc_from_rpn;
pub use reduce::reduce_rpn;
pub use reduce::CalcExpr;
pub use reduce::ExprTree;
