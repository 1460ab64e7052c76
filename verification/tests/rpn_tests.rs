//! The converter's postfix output and the reducer's plan, looked at
//! directly.

use rust_calc::calc_from_rpn;
use rust_calc::convert_to_rpn;
use rust_calc::BinKind;
use rust_calc::CalcErrKind;
use rust_calc::CalcExpr;
use rust_calc::CalcExprItem;
use rust_calc::UnaryKind;

fn number(text: &str) -> CalcExprItem {
    CalcExprItem::Number(text.to_string())
}

#[test]
fn postfix_order_respects_priorities() {
    let rpn = convert_to_rpn("1+2*3").unwrap();
    let expected = vec![
        number("1"),
        number("2"),
        number("3"),
        CalcExprItem::BinOp(BinKind::Mul),
        CalcExprItem::BinOp(BinKind::Add),
    ];
    assert_eq!(rpn, expected);
}

#[test]
fn equal_priorities_pop_left_to_right() {
    let rpn = convert_to_rpn("1-2+3").unwrap();
    let expected = vec![
        number("1"),
        number("2"),
        CalcExprItem::BinOp(BinKind::Sub),
        number("3"),
        CalcExprItem::BinOp(BinKind::Add),
    ];
    assert_eq!(rpn, expected);
}

#[test]
fn brackets_override_priorities() {
    let rpn = convert_to_rpn("(1+2)*3").unwrap();
    let expected = vec![
        number("1"),
        number("2"),
        CalcExprItem::BinOp(BinKind::Add),
        number("3"),
        CalcExprItem::BinOp(BinKind::Mul),
    ];
    assert_eq!(rpn, expected);
}

#[test]
fn function_is_emitted_after_its_argument() {
    let rpn = convert_to_rpn("sin(90)").unwrap();
    let expected = vec![number("90"), CalcExprItem::UniOp(UnaryKind::Sin)];
    assert_eq!(rpn, expected);
}

#[test]
fn function_pops_before_any_operator() {
    let rpn = convert_to_rpn("1-sin(90)").unwrap();
    let expected = vec![
        number("1"),
        number("90"),
        CalcExprItem::UniOp(UnaryKind::Sin),
        CalcExprItem::BinOp(BinKind::Sub),
    ];
    assert_eq!(rpn, expected);
}

#[test]
fn leading_minus_is_part_of_the_numeral() {
    let rpn = convert_to_rpn("-1+1").unwrap();
    let expected = vec![number("-1"), number("1"), CalcExprItem::BinOp(BinKind::Add)];
    assert_eq!(rpn, expected);
}

#[test]
fn minus_after_a_number_is_an_operator() {
    let rpn = convert_to_rpn("10-1").unwrap();
    let expected = vec![number("10"), number("1"), CalcExprItem::BinOp(BinKind::Sub)];
    assert_eq!(rpn, expected);
}

#[test]
fn numeral_text_is_kept_verbatim() {
    let rpn = convert_to_rpn("10.+0.5").unwrap();
    let expected = vec![number("10."), number("0.5"), CalcExprItem::BinOp(BinKind::Add)];
    assert_eq!(rpn, expected);
}

#[test]
fn items_compare_by_name_and_value() {
    assert_eq!(number("1.5"), number("1.5"));
    assert_ne!(number("1.5"), number("2.5"));
    assert_eq!(
        CalcExprItem::BinOp(BinKind::Add),
        CalcExprItem::BinOp(BinKind::Add)
    );
    assert_ne!(
        CalcExprItem::BinOp(BinKind::Add),
        CalcExprItem::BinOp(BinKind::Sub)
    );
    assert_ne!(CalcExprItem::UniOp(UnaryKind::Sin), CalcExprItem::OpenBracket);
    assert_eq!(CalcExprItem::OpenBracket, CalcExprItem::OpenBracket);
    assert_ne!(CalcExprItem::OpenBracket, CalcExprItem::CloseBracket);
}

#[test]
fn reducer_builds_the_plan_for_a_sum_of_a_product() {
    let rpn = vec![
        number("1"),
        number("2"),
        number("3"),
        CalcExprItem::BinOp(BinKind::Mul),
        CalcExprItem::BinOp(BinKind::Add),
    ];
    match calc_from_rpn(rpn) {
        Ok(CalcExpr::BinOp(BinKind::Add, l, r)) => {
            match *l {
                CalcExpr::Number(s) => assert_eq!(s, "1"),
                _ => panic!("left operand should be the number 1"),
            }
            match *r {
                CalcExpr::BinOp(BinKind::Mul, rl, rr) => {
                    match *rl {
                        CalcExpr::Number(s) => assert_eq!(s, "2"),
                        _ => panic!("left factor should be the number 2"),
                    }
                    match *rr {
                        CalcExpr::Number(s) => assert_eq!(s, "3"),
                        _ => panic!("right factor should be the number 3"),
                    }
                }
                _ => panic!("right operand should be the product"),
            }
        }
        _ => panic!("expected the plan of 1 + (2 * 3)"),
    }
}

#[test]
fn reducer_rejects_a_bracket_item() {
    let rpn = vec![number("1"), CalcExprItem::OpenBracket];
    match calc_from_rpn(rpn) {
        Err(e) => assert_eq!(e.kind, CalcErrKind::InternalError),
        Ok(_) => panic!("a bracket item must not reduce"),
    }
}

#[test]
fn reducer_rejects_an_empty_sequence() {
    match calc_from_rpn(Vec::new()) {
        Err(e) => assert_eq!(e.kind, CalcErrKind::EmptyExpression),
        Ok(_) => panic!("an empty sequence must not reduce"),
    }
}
