//! Failure scenarios: each error class reached from a concrete input.

use rust_calc::CalcErr;
use rust_calc::CalcErrKind;
use rust_calc::SimpleCalc;

fn fail(input: &str) -> CalcErr {
    let calc = SimpleCalc;
    match calc.calc(input) {
        Ok(_) => panic!("expected an error for {:?}", input),
        Err(e) => e,
    }
}

#[test]
fn open_bracket_without_partner() {
    assert_eq!(fail("(1+2").kind, CalcErrKind::UnmatchedBracket);
}

#[test]
fn close_bracket_without_partner() {
    assert_eq!(fail("1+2)").kind, CalcErrKind::UnmatchedBracket);
}

#[test]
fn empty_input() {
    assert_eq!(fail("").kind, CalcErrKind::EmptyExpression);
}

#[test]
fn whitespace_only_input() {
    assert_eq!(fail("   ").kind, CalcErrKind::EmptyExpression);
}

#[test]
fn two_numbers_without_operator() {
    assert_eq!(fail("1 2").kind, CalcErrKind::MalformedExpression);
}

#[test]
fn leading_plus_lacks_left_operand() {
    assert_eq!(fail("+1").kind, CalcErrKind::StackUnderflow);
}

#[test]
fn trailing_operator_lacks_right_operand() {
    assert_eq!(fail("1+").kind, CalcErrKind::StackUnderflow);
}

#[test]
fn non_ascii_input_is_invalid() {
    assert_eq!(fail("1+\u{e9}").kind, CalcErrKind::InvalidInput);
}

#[test]
fn disallowed_ascii_character_is_invalid() {
    assert_eq!(fail("1%2").kind, CalcErrKind::InvalidInput);
}

#[test]
fn lone_decimal_point_is_unrecognized() {
    assert_eq!(fail(".").kind, CalcErrKind::UnrecognizedToken(0));
}

#[test]
fn unknown_function_name_is_unrecognized() {
    assert_eq!(fail("1+log(2)").kind, CalcErrKind::UnrecognizedToken(2));
}

#[test]
fn truncated_function_name_is_unrecognized() {
    assert_eq!(fail("si").kind, CalcErrKind::UnrecognizedToken(0));
}

#[test]
fn error_carries_a_message() {
    let e = fail("(1+2");
    assert!(!e.msg.is_empty());
}

#[test]
fn bare_message_constructor_is_internal() {
    let e = CalcErr::new("something went wrong");
    assert_eq!(e.kind, CalcErrKind::InternalError);
    assert_eq!(e.msg, "something went wrong");
}
