//! Properties of the engine as a whole, proved once and for all inputs.

use vstd::prelude::*;

use crate::calc::plan_of;
use crate::convert::bin_kind_of;
use crate::convert::bin_pop;
use crate::convert::close_pop;
use crate::convert::digits_end;
use crate::convert::drain_stack;
use crate::convert::func_kind_at;
use crate::convert::is_digit_char;
use crate::convert::is_space_char;
use crate::convert::lemma_digits_end_bounds;
use crate::convert::lemma_numeral_end_bounds;
use crate::convert::numeral_end;
use crate::convert::numeral_start;
use crate::convert::rpn_of;
use crate::convert::scan;
use crate::err::CalcErrKind;
use crate::item::priority;
use crate::item::RpnItem;
use crate::reduce::reduce_step;
use crate::reduce::ExprTree;

verus! {

/// A numeral as the converter emits it: scanned from its first character,
/// the numeral fills its whole text. Concretely that text is an optional
/// minus sign, one or more digits, and an optional decimal point with
/// optional trailing digits.
pub open spec fn is_numeral(q: Seq<char>) -> bool {
    q.len() > 0 && numeral_end(q, 0, true) == q.len()
}

/// What holds of every item of a successfully converted sequence: no
/// brackets survive conversion, and every number carries a well-formed
/// numeral.
pub open spec fn item_wf(it: RpnItem) -> bool {
    match it {
        RpnItem::Number(q) => is_numeral(q),
        RpnItem::OpenBracket => false,
        RpnItem::CloseBracket => false,
        _ => true,
    }
}

pub open spec fn rpn_wf(items: Seq<RpnItem>) -> bool {
    forall|i: int| 0 <= i < items.len() ==> item_wf(#[trigger] items[i])
}

/// What holds of the converter's working stack at every point: it only ever
/// carries operators, functions and opening brackets.
spec fn stack_ok(stack: Seq<RpnItem>) -> bool {
    forall|i: int|
        0 <= i < stack.len() ==> ((#[trigger] stack[i]) is UniOp || stack[i] is BinOp
            || stack[i] is OpenBracket)
}

proof fn lemma_close_pop_wf(stack: Seq<RpnItem>, result: Seq<RpnItem>)
    requires
        stack_ok(stack),
        rpn_wf(result),
    ensures
        close_pop(stack, result) matches Some(sr) ==> stack_ok(sr.0) && rpn_wf(sr.1),
    decreases stack.len(),
{
    if stack.len() > 0 && !(stack.last() is OpenBracket) {
        assert(stack_ok(stack.drop_last()));
        assert(rpn_wf(result.push(stack.last())));
        lemma_close_pop_wf(stack.drop_last(), result.push(stack.last()));
    }
}

proof fn lemma_bin_pop_wf(stack: Seq<RpnItem>, result: Seq<RpnItem>, p: nat)
    requires
        stack_ok(stack),
        rpn_wf(result),
    ensures
        stack_ok(bin_pop(stack, result, p).0),
        rpn_wf(bin_pop(stack, result, p).1),
    decreases stack.len(),
{
    if stack.len() > 0 {
        let moves = match stack.last() {
            RpnItem::UniOp(_) => true,
            RpnItem::BinOp(b) => priority(b) >= p,
            _ => false,
        };
        if moves {
            assert(stack_ok(stack.drop_last()));
            assert(rpn_wf(result.push(stack.last())));
            lemma_bin_pop_wf(stack.drop_last(), result.push(stack.last()), p);
        }
    }
}

proof fn lemma_drain_wf(stack: Seq<RpnItem>, result: Seq<RpnItem>)
    requires
        stack_ok(stack),
        rpn_wf(result),
    ensures
        drain_stack(stack, result) matches Ok(out) ==> rpn_wf(out),
        drain_stack(stack, result) matches Err(k) ==> k == CalcErrKind::UnmatchedBracket,
    decreases stack.len(),
{
    if stack.len() > 0 && !(stack.last() is OpenBracket) && !(stack.last() is CloseBracket) {
        assert(stack_ok(stack.drop_last()));
        assert(rpn_wf(result.push(stack.last())));
        lemma_drain_wf(stack.drop_last(), result.push(stack.last()));
    }
}

/// A run of digits within a window of the input is the same run within the
/// window taken out as a sequence of its own.
proof fn lemma_digits_end_in_subrange(s: Seq<char>, lo: int, j: int, e: int)
    requires
        0 <= lo <= j <= e <= s.len(),
        digits_end(s, j as nat) <= e,
    ensures
        digits_end(s.subrange(lo, e), (j - lo) as nat) == digits_end(s, j as nat) - lo,
    decreases e - j,
{
    let q = s.subrange(lo, e);
    if j < e && is_digit_char(s[j]) {
        assert(q[j - lo] == s[j]);
        lemma_digits_end_in_subrange(s, lo, j + 1, e);
    } else if j < e {
        assert(q[j - lo] == s[j]);
    } else {
        if j < s.len() && is_digit_char(s[j]) {
            lemma_digits_end_bounds(s, (j + 1) as nat);
        }
    }
}

/// The text of a scanned numeral is itself a well-formed numeral.
proof fn lemma_numeral_payload(s: Seq<char>, i: nat, neg_ok: bool)
    requires
        i < s.len(),
        numeral_end(s, i, neg_ok) > i,
    ensures
        is_numeral(s.subrange(i as int, numeral_end(s, i, neg_ok) as int)),
{
    let e = numeral_end(s, i, neg_ok) as int;
    lemma_numeral_end_bounds(s, i, neg_ok);
    let q = s.subrange(i as int, e);
    let start = numeral_start(s, i, neg_ok) as int;
    assert(start < s.len() && is_digit_char(s[start]));
    let d = digits_end(s, start as nat) as int;
    lemma_digits_end_bounds(s, (start + 1) as nat);
    assert(d >= start + 1);
    if d < s.len() && s[d] == '.' {
        lemma_digits_end_bounds(s, (d + 1) as nat);
        assert(e == digits_end(s, (d + 1) as nat));
        assert(e >= d + 1);
    } else {
        assert(e == d);
    }
    assert(q.len() == e - i);
    assert(q[start - i] == s[start]);
    if start > i {
        assert(q[0] == s[i as int]);
        assert(q[1] == s[i as int + 1]);
    }
    assert(numeral_start(q, 0, true) == start - i);
    lemma_digits_end_in_subrange(s, i as int, start, e);
    if d < s.len() && s[d] == '.' {
        assert(q[d - i] == s[d]);
        lemma_digits_end_in_subrange(s, i as int, d + 1, e);
    }
}

/// The converter's invariant, carried through the whole scan: with a
/// well-formed working stack and output, whatever the scan returns is
/// well-formed, and the scan never reports an internal error.
proof fn lemma_scan_wf(s: Seq<char>, i: nat, neg_ok: bool, stack: Seq<RpnItem>, result: Seq<
    RpnItem,
>)
    requires
        i <= s.len(),
        stack_ok(stack),
        rpn_wf(result),
    ensures
        scan(s, i, neg_ok, stack, result) matches Ok(out) ==> rpn_wf(out),
        scan(s, i, neg_ok, stack, result) != Err::<Seq<RpnItem>, CalcErrKind>(CalcErrKind::InternalError),
    decreases s.len() - i,
{
    if i >= s.len() {
        lemma_drain_wf(stack, result);
    } else {
        let c = s[i as int];
        if is_space_char(c) {
            lemma_scan_wf(s, i + 1, neg_ok, stack, result);
        } else if c == '(' {
            assert(stack_ok(stack.push(RpnItem::OpenBracket)));
            lemma_scan_wf(s, i + 1, true, stack.push(RpnItem::OpenBracket), result);
        } else if c == ')' {
            match close_pop(stack, result) {
                Some(sr) => {
                    lemma_close_pop_wf(stack, result);
                    lemma_scan_wf(s, i + 1, false, sr.0, sr.1);
                },
                None => {},
            }
        } else if numeral_end(s, i, neg_ok) > i {
            let e = numeral_end(s, i, neg_ok);
            lemma_numeral_end_bounds(s, i, neg_ok);
            lemma_numeral_payload(s, i, neg_ok);
            let pushed = result.push(RpnItem::Number(s.subrange(i as int, e as int)));
            assert(rpn_wf(pushed));
            lemma_scan_wf(s, e, false, stack, pushed);
        } else if bin_kind_of(c) is Some {
            let b = bin_kind_of(c)->Some_0;
            lemma_bin_pop_wf(stack, result, priority(b));
            let sr = bin_pop(stack, result, priority(b));
            assert(stack_ok(sr.0.push(RpnItem::BinOp(b))));
            lemma_scan_wf(s, i + 1, true, sr.0.push(RpnItem::BinOp(b)), sr.1);
        } else if func_kind_at(s, i) is Some {
            let u = func_kind_at(s, i)->Some_0;
            assert(stack_ok(stack.push(RpnItem::UniOp(u))));
            lemma_scan_wf(s, i + 3, true, stack.push(RpnItem::UniOp(u)), result);
        }
    }
}

/// Conversion never lets a bracket through: a successfully converted
/// sequence consists of numbers, unary functions and binary operators
/// alone, so the reducer's internal-error guard can never be hit by it.
pub proof fn lemma_rpn_has_no_brackets(s: Seq<char>)
    ensures
        rpn_of(s) matches Ok(out) ==> forall|i: int|
            0 <= i < out.len() ==> !((#[trigger] out[i]) is OpenBracket) && !(out[i]
                is CloseBracket),
{
    if rpn_of(s) is Ok {
        lemma_scan_wf(s, 0, true, Seq::empty(), Seq::empty());
    }
}

/// Every number of a successfully converted sequence carries a well-formed
/// numeral: an optional minus sign, digits, and an optional decimal point
/// with optional trailing digits. Converting such a text to a number cannot
/// fail.
pub proof fn lemma_rpn_numbers_are_numerals(s: Seq<char>)
    ensures
        rpn_of(s) matches Ok(out) ==> forall|i: int|
            0 <= i < out.len() ==> ((#[trigger] out[i]) matches RpnItem::Number(q)
                ==> is_numeral(q)),
{
    if rpn_of(s) is Ok {
        lemma_scan_wf(s, 0, true, Seq::empty(), Seq::empty());
    }
}

proof fn lemma_reduce_no_internal(items: Seq<RpnItem>, stack: Seq<ExprTree>)
    requires
        rpn_wf(items),
    ensures
        reduce_step(items, stack) != Err::<ExprTree, CalcErrKind>(CalcErrKind::InternalError),
    decreases items.len(),
{
    if items.len() > 0 {
        assert(item_wf(items[0]));
        assert(rpn_wf(items.drop_first()));
        match items[0] {
            RpnItem::Number(q) => {
                lemma_reduce_no_internal(items.drop_first(), stack.push(ExprTree::Number(q)));
            },
            RpnItem::UniOp(u) => {
                if stack.len() >= 1 {
                    lemma_reduce_no_internal(
                        items.drop_first(),
                        stack.drop_last().push(ExprTree::UniOp(u, Box::new(stack.last()))),
                    );
                }
            },
            RpnItem::BinOp(b) => {
                if stack.len() >= 2 {
                    lemma_reduce_no_internal(
                        items.drop_first(),
                        stack.drop_last().drop_last().push(
                            ExprTree::BinOp(
                                b,
                                Box::new(stack[stack.len() - 2]),
                                Box::new(stack.last()),
                            ),
                        ),
                    );
                }
            },
            _ => {},
        }
    }
}

/// The engine never reports an internal invariant violation: the converter
/// only ever fails on the input itself, and what it hands the reducer has
/// the shape the reducer expects.
pub proof fn lemma_plan_never_internal_error(s: Seq<char>)
    ensures
        plan_of(s) != Err::<ExprTree, CalcErrKind>(CalcErrKind::InternalError),
{
    lemma_scan_wf(s, 0, true, Seq::empty(), Seq::empty());
    match rpn_of(s) {
        Ok(items) => {
            if items.len() > 0 {
                lemma_reduce_no_internal(items, Seq::empty());
            }
        },
        Err(_) => {},
    }
}

/// Evaluating the same text twice gives the same outcome: the engine's
/// result is a function of the input alone, with no state carried between
/// calls.
pub proof fn lemma_calc_deterministic(s1: Seq<char>, s2: Seq<char>)
    requires
        s1 == s2,
    ensures
        plan_of(s1) == plan_of(s2),
{
}

} // verus!
