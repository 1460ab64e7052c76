//! The reducer: folds a postfix sequence into a single expression plan.
//!
//! The reducer checks the stack discipline of the sequence — every operation
//! must find its operands, and exactly one value must remain at the end —
//! and records the applications it would perform as a tree. Carrying out the
//! floating-point arithmetic on that tree is the caller's concern, so the
//! whole reduction itself is verified.

use vstd::prelude::*;

use crate::err::kind_msg;
use crate::err::CalcErr;
use crate::err::CalcErrKind;
use crate::item::items_view;
use crate::item::BinKind;
use crate::item::CalcExprItem;
use crate::item::RpnItem;
use crate::item::UnaryKind;

verus! {

/// The expression plan a successful reduction produces: which function and
/// operator applications, in which order and on which numerals, evaluate
/// the expression. A number carries the text of its numeral.
#[derive(Debug)]
pub enum CalcExpr {
    Number(String),
    UniOp(UnaryKind, Box<CalcExpr>),
    BinOp(BinKind, Box<CalcExpr>, Box<CalcExpr>),
}

/// The mathematical shadow of `CalcExpr`, which the contracts speak of.
pub enum ExprTree {
    Number(Seq<char>),
    UniOp(UnaryKind, Box<ExprTree>),
    BinOp(BinKind, Box<ExprTree>, Box<ExprTree>),
}

/// The shadow of a plan: each numeral as its character sequence.
pub open spec fn expr_view(e: &CalcExpr) -> ExprTree
    decreases e,
{
    match e {
        CalcExpr::Number(s) => ExprTree::Number(s@),
        CalcExpr::UniOp(u, a) => ExprTree::UniOp(*u, Box::new(expr_view(a))),
        CalcExpr::BinOp(b, l, r) => ExprTree::BinOp(*b, Box::new(expr_view(l)), Box::new(expr_view(r))),
    }
}

impl View for CalcExpr {
    type V = ExprTree;

    open spec fn view(&self) -> ExprTree {
        expr_view(self)
    }
}

/// The view of the reducer's operand stack.
pub open spec fn trees_view(v: Seq<CalcExpr>) -> Seq<ExprTree> {
    v.map_values(|x: CalcExpr| x@)
}

/// One pass over the remaining items with the operand stack built so far:
/// a number is pushed; a unary function replaces the top of the stack with
/// its application; a binary operator replaces the top two, the deeper one
/// being its left operand. At the end exactly one value must remain. A
/// bracket cannot occur in a converted sequence, so meeting one here is an
/// internal invariant violation.
pub open spec fn reduce_step(items: Seq<RpnItem>, stack: Seq<ExprTree>) -> Result<
    ExprTree,
    CalcErrKind,
>
    decreases items.len(),
{
    if items.len() == 0 {
        if stack.len() == 1 {
            Ok(stack[0])
        } else if stack.len() == 0 {
            Err(CalcErrKind::StackUnderflow)
        } else {
            Err(CalcErrKind::MalformedExpression)
        }
    } else {
        match items[0] {
            RpnItem::Number(q) => reduce_step(items.drop_first(), stack.push(ExprTree::Number(q))),
            RpnItem::UniOp(u) => if stack.len() >= 1 {
                reduce_step(
                    items.drop_first(),
                    stack.drop_last().push(ExprTree::UniOp(u, Box::new(stack.last()))),
                )
            } else {
                Err(CalcErrKind::StackUnderflow)
            },
            RpnItem::BinOp(b) => if stack.len() >= 2 {
                reduce_step(
                    items.drop_first(),
                    stack.drop_last().drop_last().push(
                        ExprTree::BinOp(
                            b,
                            Box::new(stack[stack.len() - 2]),
                            Box::new(stack.last()),
                        ),
                    ),
                )
            } else {
                Err(CalcErrKind::StackUnderflow)
            },
            _ => Err(CalcErrKind::InternalError),
        }
    }
}

/// What the reducer computes for a postfix sequence: an empty sequence is
/// an empty expression, anything else is reduced from an empty operand
/// stack.
pub open spec fn reduce_rpn(items: Seq<RpnItem>) -> Result<ExprTree, CalcErrKind> {
    if items.len() == 0 {
        Err(CalcErrKind::EmptyExpression)
    } else {
        reduce_step(items, Seq::empty())
    }
}

proof fn lemma_trees_view_push(v: Seq<CalcExpr>, x: CalcExpr)
    ensures
        trees_view(v.push(x)) == trees_view(v).push(x@),
{
    assert(trees_view(v.push(x)) =~= trees_view(v).push(x@));
}

proof fn lemma_trees_view_drop_last(v: Seq<CalcExpr>)
    requires
        v.len() > 0,
    ensures
        trees_view(v.drop_last()) == trees_view(v).drop_last(),
        trees_view(v).last() == v.last()@,
{
    assert(trees_view(v.drop_last()) =~= trees_view(v).drop_last());
}

/// Clones a number's text.
fn clone_string(s: &String) -> (r: String)
    ensures
        r@ == s@,
{
    let borrowed: &str = s.as_str();
    borrowed.to_owned()
}

/// Folds a postfix sequence into the expression plan it denotes. For
/// example, `[Number(1), Number(2), Number(3), BinOp(*), BinOp(+)]` reduces
/// to the plan of `1 + (2 * 3)`. Returns exactly what the specification
/// `reduce_rpn` denotes for the sequence, both on success and in the class
/// of the error.
#[verifier::loop_isolation(false)]
pub fn calc_from_rpn(rpn_vec: Vec<CalcExprItem>) -> (r: Result<CalcExpr, CalcErr>)
    ensures
        (match reduce_rpn(items_view(rpn_vec@)) {
            Ok(t) => r matches Ok(e) && e@ == t,
            Err(k) => r matches Err(e) && e.kind == k && e.msg@ == kind_msg(k),
        }),
{
    let ghost items = items_view(rpn_vec@);
    if rpn_vec.len() == 0 {
        return Err(CalcErr::from_kind(CalcErrKind::EmptyExpression));
    }
    let mut stack: Vec<CalcExpr> = Vec::new();
    proof {
        assert(trees_view(stack@) =~= Seq::<ExprTree>::empty());
        assert(items.skip(0) =~= items);
    }
    let mut k: usize = 0;
    while k < rpn_vec.len()
        invariant
            k <= rpn_vec@.len(),
            reduce_step(items.skip(k as int), trees_view(stack@)) == reduce_step(
                items,
                Seq::empty(),
            ),
        decreases rpn_vec@.len() - k,
    {
        let ghost rest = items.skip(k as int);
        let ghost st0 = stack@;
        proof {
            assert(rest[0] == rpn_vec@[k as int]@);
            assert(rest.drop_first() =~= items.skip(k as int + 1));
        }
        match &rpn_vec[k] {
            CalcExprItem::Number(s) => {
                let text = clone_string(s);
                let item = CalcExpr::Number(text);
                proof {
                    lemma_trees_view_push(stack@, item);
                }
                stack.push(item);
            },
            CalcExprItem::UniOp(u) => {
                match stack.pop() {
                    None => {
                        return Err(CalcErr::from_kind(CalcErrKind::StackUnderflow));
                    },
                    Some(a) => {
                        proof {
                            lemma_trees_view_drop_last(st0);
                            assert(st0.subrange(0, st0.len() - 1) =~= st0.drop_last());
                        }
                        let item = CalcExpr::UniOp(*u, Box::new(a));
                        proof {
                            lemma_trees_view_push(stack@, item);
                        }
                        stack.push(item);
                    },
                }
            },
            CalcExprItem::BinOp(b) => {
                match stack.pop() {
                    None => {
                        return Err(CalcErr::from_kind(CalcErrKind::StackUnderflow));
                    },
                    Some(right) => {
                        proof {
                            lemma_trees_view_drop_last(st0);
                            assert(st0.subrange(0, st0.len() - 1) =~= st0.drop_last());
                        }
                        let ghost st1 = stack@;
                        match stack.pop() {
                            None => {
                                return Err(CalcErr::from_kind(CalcErrKind::StackUnderflow));
                            },
                            Some(left) => {
                                proof {
                                    lemma_trees_view_drop_last(st1);
                                    assert(st1.subrange(0, st1.len() - 1) =~= st1.drop_last());
                                    assert(trees_view(st1).drop_last() == trees_view(
                                        st0,
                                    ).drop_last().drop_last());
                                }
                                let item = CalcExpr::BinOp(*b, Box::new(left), Box::new(right));
                                proof {
                                    lemma_trees_view_push(stack@, item);
                                    assert(trees_view(st0)[trees_view(st0).len() - 2] == left@);
                                }
                                stack.push(item);
                            },
                        }
                    },
                }
            },
            CalcExprItem::OpenBracket => {
                return Err(CalcErr::from_kind(CalcErrKind::InternalError));
            },
            CalcExprItem::CloseBracket => {
                return Err(CalcErr::from_kind(CalcErrKind::InternalError));
            },
        }
        k = k + 1;
    }
    proof {
        assert(items.skip(k as int) =~= Seq::<RpnItem>::empty());
    }
    let ghost fin = stack@;
    match stack.pop() {
        None => Err(CalcErr::from_kind(CalcErrKind::StackUnderflow)),
        Some(top) => {
            if stack.len() == 0 {
                proof {
                    assert(trees_view(fin).len() == 1);
                    assert(trees_view(fin)[0] == top@);
                }
                Ok(top)
            } else {
                Err(CalcErr::from_kind(CalcErrKind::MalformedExpression))
            }
        },
    }
}

} // verus!
