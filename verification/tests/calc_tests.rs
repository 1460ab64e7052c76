//! Evaluation scenarios: the engine's plan folded down to a number.

use rust_calc::BinKind;
use rust_calc::CalcErr;
use rust_calc::CalcExpr;
use rust_calc::SimpleCalc;
use rust_calc::UnaryKind;

/// Folds a plan into a number: the floating-point half of evaluation that
/// the engine leaves to its caller.
fn eval_expr(e: &CalcExpr) -> f64 {
    match e {
        CalcExpr::Number(s) => s.parse::<f64>().unwrap(),
        CalcExpr::UniOp(u, a) => {
            let v = eval_expr(a);
            let rad = v * std::f64::consts::PI / 180.0;
            match u {
                UnaryKind::Sin => rad.sin(),
                UnaryKind::Cos => rad.cos(),
                UnaryKind::Tan => rad.tan(),
            }
        }
        CalcExpr::BinOp(b, l, r) => {
            let x = eval_expr(l);
            let y = eval_expr(r);
            match b {
                BinKind::Add => x + y,
                BinKind::Sub => x - y,
                BinKind::Mul => x * y,
                BinKind::Div => x / y,
                BinKind::Pow => x.powf(y),
            }
        }
    }
}

fn evaluate(input: &str) -> Result<f64, CalcErr> {
    let calc = SimpleCalc;
    match calc.calc(input) {
        Ok(plan) => Ok(eval_expr(&plan)),
        Err(e) => Err(e),
    }
}

#[test]
fn simple_add() {
    assert_eq!(evaluate("2+2").unwrap(), 4.0);
}

#[test]
fn simple_substract() {
    assert_eq!(evaluate("10-1").unwrap(), 9.0);
}

#[test]
fn complex() {
    assert_eq!(evaluate("3 + 4 * 2 / (1 - 5) * 2").unwrap(), -1.0);
}

#[test]
fn add_first_neg() {
    assert_eq!(evaluate("-1+1").unwrap(), 0.0);
}

#[test]
fn mult_first_neg() {
    assert_eq!(evaluate("-1*2").unwrap(), -2.0);
}

#[test]
fn simple_sin() {
    assert!((evaluate("1-sin(90)").unwrap()).abs() < 1e-9);
}

#[test]
fn simple_cos() {
    assert!((evaluate("cos(90)+1").unwrap() - 1.0).abs() < 1e-9);
}

#[test]
fn simple_tan() {
    assert!((evaluate("tan(0)").unwrap()).abs() < 1e-9);
}

#[test]
fn incomplete_decimals() {
    assert_eq!(evaluate("10.0+10.").unwrap(), 20.0);
}

#[test]
fn simpl_exp() {
    assert_eq!(evaluate("2^10").unwrap(), 1024.0);
}

#[test]
fn chained_exponent_is_left_associative() {
    // equal priorities pop, so 2^3^2 groups as (2^3)^2, not 2^(3^2)
    assert_eq!(evaluate("2^3^2").unwrap(), 64.0);
}

#[test]
fn whitespace_is_insignificant_in_complex() {
    let spaced = evaluate("3 + 4 * 2 / (1 - 5) * 2").unwrap();
    let packed = evaluate("3+4*2/(1-5)*2").unwrap();
    assert_eq!(spaced, packed);
    assert_eq!(packed, -1.0);
}

#[test]
fn tabs_count_as_whitespace() {
    assert_eq!(evaluate("1\t+\t2").unwrap(), 3.0);
}

#[test]
fn repeated_evaluation_gives_same_result() {
    let calc = SimpleCalc;
    let first = eval_expr(&calc.calc("3 + 4 * 2 / (1 - 5) * 2").unwrap());
    let second = eval_expr(&calc.calc("3 + 4 * 2 / (1 - 5) * 2").unwrap());
    assert_eq!(first, second);
    let third = evaluate("2+2").unwrap();
    let fourth = evaluate("2+2").unwrap();
    assert_eq!(third, fourth);
}

#[test]
fn division_by_zero_is_infinite() {
    assert!(evaluate("1/0").unwrap().is_infinite());
}

#[test]
fn zero_to_a_negative_power_is_infinite() {
    assert!(evaluate("0^-1").unwrap().is_infinite());
}

#[test]
fn nested_brackets() {
    assert_eq!(evaluate("((2+3)*(4-1))").unwrap(), 15.0);
}

#[test]
fn unary_minus_after_open_bracket() {
    assert_eq!(evaluate("2*(-3+1)").unwrap(), -4.0);
}

#[test]
fn unary_minus_after_operator() {
    assert_eq!(evaluate("6/-2").unwrap(), -3.0);
}

#[test]
fn decimal_fractions() {
    assert_eq!(evaluate("0.5+0.25").unwrap(), 0.75);
}

#[test]
fn function_argument_expression() {
    assert!((evaluate("sin(45+45)").unwrap() - 1.0).abs() < 1e-9);
}
