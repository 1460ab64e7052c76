//! The engine facade: conversion and reduction in sequence.

use vstd::prelude::*;

use crate::convert::convert_to_rpn;
use crate::convert::rpn_of;
use crate::err::kind_msg;
use crate::err::CalcErr;
use crate::err::CalcErrKind;
use crate::reduce::calc_from_rpn;
use crate::reduce::reduce_rpn;
use crate::reduce::CalcExpr;
use crate::reduce::ExprTree;

verus! {

/// What evaluating an input denotes: the expression plan of its postfix
/// form, or the error of whichever stage fails first.
pub open spec fn plan_of(s: Seq<char>) -> Result<ExprTree, CalcErrKind> {
    match rpn_of(s) {
        Ok(items) => reduce_rpn(items),
        Err(k) => Err(k),
    }
}

/// The expression engine. It holds no state, so one value can serve any
/// number of evaluations, concurrent ones included.
pub struct SimpleCalc;

impl SimpleCalc {
    /// Evaluates an infix expression down to its expression plan: the
    /// converter turns the input into postfix form and the reducer folds
    /// that form into the plan. Returns exactly what the specification
    /// `plan_of` denotes for the input, both on success and in the class of
    /// the error.
    pub fn calc(&self, input: &str) -> (r: Result<CalcExpr, CalcErr>)
        ensures
            (match plan_of(input@) {
                Ok(t) => r matches Ok(e) && e@ == t,
                Err(k) => r matches Err(e) && e.kind == k && e.msg@ == kind_msg(k),
            }),
    {
        let rpn = match convert_to_rpn(input) {
            Ok(v) => v,
            Err(e) => {
                return Err(e);
            },
        };
        calc_from_rpn(rpn)
    }
}

} // verus!
