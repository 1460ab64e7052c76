//! The converter: scans an infix expression and emits its postfix form.
//!
//! The executable scanner mirrors, step by step, a recursive specification of
//! the shunting-yard algorithm (`scan`), and its contract says that it
//! returns exactly what that specification denotes.

use vstd::prelude::*;

use crate::err::kind_msg;
use crate::err::CalcErr;
use crate::err::CalcErrKind;
use crate::item::items_view;
use crate::item::lemma_items_view_drop_last;
use crate::item::lemma_items_view_push;
use crate::item::op_priority;
use crate::item::priority;
use crate::item::BinKind;
use crate::item::CalcExprItem;
use crate::item::RpnItem;
use crate::item::UnaryKind;

verus! {

/// The whitespace the scanner skips.
pub open spec fn is_space_char(c: char) -> bool {
    c == ' ' || c == '\t'
}

pub open spec fn is_digit_char(c: char) -> bool {
    '0' <= c && c <= '9'
}

pub open spec fn is_letter_char(c: char) -> bool {
    ('a' <= c && c <= 'z') || ('A' <= c && c <= 'Z')
}

/// The infix operator a character denotes, if any.
pub open spec fn bin_kind_of(c: char) -> Option<BinKind> {
    if c == '+' {
        Some(BinKind::Add)
    } else if c == '-' {
        Some(BinKind::Sub)
    } else if c == '*' {
        Some(BinKind::Mul)
    } else if c == '/' {
        Some(BinKind::Div)
    } else if c == '^' {
        Some(BinKind::Pow)
    } else {
        None
    }
}

/// The accepted character set: letters (for function names), digits, the
/// decimal point, the operators, brackets, space and tab. Anything else in
/// the input makes the whole input invalid.
pub open spec fn is_allowed_char(c: char) -> bool {
    ||| is_space_char(c)
    ||| is_digit_char(c)
    ||| is_letter_char(c)
    ||| c == '.'
    ||| c == '('
    ||| c == ')'
    ||| bin_kind_of(c) is Some
}

pub open spec fn input_allowed(s: Seq<char>) -> bool {
    forall|i: int| 0 <= i < s.len() ==> is_allowed_char(#[trigger] s[i])
}

/// The end of the maximal run of digits beginning at `i`.
pub open spec fn digits_end(s: Seq<char>, i: nat) -> nat
    decreases s.len() - i,
    when i <= s.len()
{
    if i < s.len() && is_digit_char(s[i as int]) {
        digits_end(s, i + 1)
    } else {
        i
    }
}

pub proof fn lemma_digits_end_bounds(s: Seq<char>, i: nat)
    requires
        i <= s.len(),
    ensures
        i <= digits_end(s, i) <= s.len(),
    decreases s.len() - i,
{
    if i < s.len() && is_digit_char(s[i as int]) {
        lemma_digits_end_bounds(s, i + 1);
    }
}

/// Where the digits of a numeral at `i` begin. A minus sign directly
/// followed by a digit is taken as the sign of the numeral, but only where
/// `neg_ok` says that no binary operator could stand: at the start of the
/// expression and after an opening bracket or an operator. Everywhere else
/// the minus is left for the operator scanner.
pub open spec fn numeral_start(s: Seq<char>, i: nat, neg_ok: bool) -> nat {
    if neg_ok && i < s.len() && s[i as int] == '-' && i + 1 < s.len() && is_digit_char(
        s[i as int + 1],
    ) {
        i + 1
    } else {
        i
    }
}

/// The end of the numeral beginning at `i`: an optional minus sign, one or
/// more digits, and an optional decimal point with optional trailing digits.
/// Equals `i` when no numeral begins there.
pub open spec fn numeral_end(s: Seq<char>, i: nat, neg_ok: bool) -> nat {
    let start = numeral_start(s, i, neg_ok);
    if start < s.len() && is_digit_char(s[start as int]) {
        let d = digits_end(s, start);
        if d < s.len() && s[d as int] == '.' {
            digits_end(s, d + 1)
        } else {
            d
        }
    } else {
        i
    }
}

pub proof fn lemma_numeral_end_bounds(s: Seq<char>, i: nat, neg_ok: bool)
    requires
        i <= s.len(),
    ensures
        i <= numeral_end(s, i, neg_ok) <= s.len(),
    decreases s.len() - i,
{
    let start = numeral_start(s, i, neg_ok);
    if start < s.len() && is_digit_char(s[start as int]) {
        lemma_digits_end_bounds(s, start);
        let d = digits_end(s, start);
        if d < s.len() && s[d as int] == '.' {
            lemma_digits_end_bounds(s, d + 1);
        }
    }
}

/// The unary function named at `i`: exactly `sin`, `cos` or `tan`,
/// case-sensitive, three characters each.
pub open spec fn func_kind_at(s: Seq<char>, i: nat) -> Option<UnaryKind> {
    if i + 3 <= s.len() {
        if s[i as int] == 's' && s[i as int + 1] == 'i' && s[i as int + 2] == 'n' {
            Some(UnaryKind::Sin)
        } else if s[i as int] == 'c' && s[i as int + 1] == 'o' && s[i as int + 2] == 's' {
            Some(UnaryKind::Cos)
        } else if s[i as int] == 't' && s[i as int + 1] == 'a' && s[i as int + 2] == 'n' {
            Some(UnaryKind::Tan)
        } else {
            None
        }
    } else {
        None
    }
}

/// What a closing bracket does to the working stack: items move to the
/// output until an opening bracket is found and discarded. `None` means the
/// stack ran out first, which is an unmatched bracket.
pub open spec fn close_pop(stack: Seq<RpnItem>, result: Seq<RpnItem>) -> Option<
    (Seq<RpnItem>, Seq<RpnItem>),
>
    decreases stack.len(),
{
    if stack.len() == 0 {
        None
    } else if stack.last() is OpenBracket {
        Some((stack.drop_last(), result))
    } else {
        close_pop(stack.drop_last(), result.push(stack.last()))
    }
}

/// What an incoming binary operator of priority `p` does to the working
/// stack: unary functions, and binary operators of equal or higher priority,
/// move to the output. Equal priority moving means the operators are
/// left-associative.
pub open spec fn bin_pop(stack: Seq<RpnItem>, result: Seq<RpnItem>, p: nat) -> (
    Seq<RpnItem>,
    Seq<RpnItem>,
)
    decreases stack.len(),
{
    if stack.len() == 0 {
        (stack, result)
    } else {
        match stack.last() {
            RpnItem::UniOp(_) => bin_pop(stack.drop_last(), result.push(stack.last()), p),
            RpnItem::BinOp(b) => if priority(b) >= p {
                bin_pop(stack.drop_last(), result.push(stack.last()), p)
            } else {
                (stack, result)
            },
            _ => (stack, result),
        }
    }
}

/// What the end of the scan does to the working stack: everything moves to
/// the output, and a bracket still on the stack is an unmatched bracket.
pub open spec fn drain_stack(stack: Seq<RpnItem>, result: Seq<RpnItem>) -> Result<
    Seq<RpnItem>,
    CalcErrKind,
>
    decreases stack.len(),
{
    if stack.len() == 0 {
        Ok(result)
    } else if stack.last() is OpenBracket || stack.last() is CloseBracket {
        Err(CalcErrKind::UnmatchedBracket)
    } else {
        drain_stack(stack.drop_last(), result.push(stack.last()))
    }
}

/// One left-to-right scan of the input from position `i`, with the working
/// stack and the output built so far. This is the shunting-yard algorithm
/// itself; the executable converter returns exactly what it denotes.
pub open spec fn scan(
    s: Seq<char>,
    i: nat,
    neg_ok: bool,
    stack: Seq<RpnItem>,
    result: Seq<RpnItem>,
) -> Result<Seq<RpnItem>, CalcErrKind>
    decreases s.len() - i,
    when i <= s.len()
    via scan_decreases
{
    if i >= s.len() {
        drain_stack(stack, result)
    } else {
        let c = s[i as int];
        if is_space_char(c) {
            scan(s, i + 1, neg_ok, stack, result)
        } else if c == '(' {
            scan(s, i + 1, true, stack.push(RpnItem::OpenBracket), result)
        } else if c == ')' {
            match close_pop(stack, result) {
                Some(sr) => scan(s, i + 1, false, sr.0, sr.1),
                None => Err(CalcErrKind::UnmatchedBracket),
            }
        } else if numeral_end(s, i, neg_ok) > i {
            let e = numeral_end(s, i, neg_ok);
            scan(s, e, false, stack, result.push(RpnItem::Number(s.subrange(i as int, e as int))))
        } else if bin_kind_of(c) is Some {
            let b = bin_kind_of(c)->Some_0;
            let sr = bin_pop(stack, result, priority(b));
            scan(s, i + 1, true, sr.0.push(RpnItem::BinOp(b)), sr.1)
        } else if func_kind_at(s, i) is Some {
            scan(s, i + 3, true, stack.push(RpnItem::UniOp(func_kind_at(s, i)->Some_0)), result)
        } else {
            Err(CalcErrKind::UnrecognizedToken(i as usize))
        }
    }
}

#[via_fn]
proof fn scan_decreases(s: Seq<char>, i: nat, neg_ok: bool, stack: Seq<RpnItem>, result: Seq<RpnItem>) {
    if i < s.len() {
        lemma_numeral_end_bounds(s, i, neg_ok);
    }
}

/// The postfix form of an input, or the error the scan ends in. This is what
/// `convert_to_rpn` computes.
pub open spec fn rpn_of(s: Seq<char>) -> Result<Seq<RpnItem>, CalcErrKind> {
    if input_allowed(s) {
        scan(s, 0, true, Seq::empty(), Seq::empty())
    } else {
        Err(CalcErrKind::InvalidInput)
    }
}

fn is_space_exec(c: char) -> (r: bool)
    ensures
        r == is_space_char(c),
{
    c == ' ' || c == '\t'
}

fn is_digit_exec(c: char) -> (r: bool)
    ensures
        r == is_digit_char(c),
{
    '0' <= c && c <= '9'
}

fn allowed_char(c: char) -> (r: bool)
    ensures
        r == is_allowed_char(c),
{
    is_space_exec(c) || is_digit_exec(c) || ('a' <= c && c <= 'z') || ('A' <= c && c <= 'Z')
        || c == '.' || c == '(' || c == ')' || bin_kind_exec(c).is_some()
}

fn bin_kind_exec(c: char) -> (r: Option<BinKind>)
    ensures
        r == bin_kind_of(c),
{
    if c == '+' {
        Some(BinKind::Add)
    } else if c == '-' {
        Some(BinKind::Sub)
    } else if c == '*' {
        Some(BinKind::Mul)
    } else if c == '/' {
        Some(BinKind::Div)
    } else if c == '^' {
        Some(BinKind::Pow)
    } else {
        None
    }
}

/// The length of a string in characters.
fn char_len(input: &str) -> (n: usize)
    ensures
        n == input@.len(),
{
    input.unicode_len()
}

/// Walks to the end of the run of digits beginning at `i`.
fn digits_end_exec(input: &str, i: usize) -> (j: usize)
    requires
        input.is_ascii(),
        i <= input@.len(),
    ensures
        j == digits_end(input@, i as nat),
        i <= j <= input@.len(),
{
    let n = char_len(input);
    let mut j: usize = i;
    loop
        invariant
            input.is_ascii(),
            n == input@.len(),
            i <= j <= n,
            digits_end(input@, j as nat) == digits_end(input@, i as nat),
        ensures
            j == digits_end(input@, i as nat),
            i <= j <= n,
        decreases n - j,
    {
        if j < n {
            let c = input.get_char(j);
            if is_digit_exec(c) {
                j = j + 1;
            } else {
                break ;
            }
        } else {
            break ;
        }
    }
    j
}

/// Scans the tokens the scan handles ahead of everything else:
/// whitespace to skip, an opening bracket to stack, or a closing bracket
/// that pops the stack back to its opening partner. Returns how many
/// characters were consumed, `Ok(0)` meaning that none of the three was
/// present; the only failure is a closing bracket with no partner.
fn parse_prefix(c: char, stack: &mut Vec<CalcExprItem>, result: &mut Vec<CalcExprItem>) -> (r:
    Result<usize, CalcErr>)
    ensures
        ({
            let st0 = items_view(old(stack)@);
            let rs0 = items_view(old(result)@);
            let st1 = items_view(final(stack)@);
            let rs1 = items_view(final(result)@);
            match r {
                Ok(len) => {
                    &&& (is_space_char(c) ==> len == 1 && st1 == st0 && rs1 == rs0)
                    &&& (c == '(' ==> len == 1 && st1 == st0.push(RpnItem::OpenBracket) && rs1
                        == rs0)
                    &&& (c == ')' ==> len == 1 && (close_pop(st0, rs0) matches Some(sr) && st1
                        == sr.0 && rs1 == sr.1))
                    &&& (!(is_space_char(c) || c == '(' || c == ')') ==> len == 0 && st1 == st0
                        && rs1 == rs0)
                },
                Err(e) => {
                    &&& c == ')'
                    &&& close_pop(st0, rs0) is None
                    &&& e.kind == CalcErrKind::UnmatchedBracket
                    &&& e.msg@ == kind_msg(CalcErrKind::UnmatchedBracket)
                },
            }
        }),
{
    let ghost st0 = stack@;
    let ghost rs0 = result@;
    if is_space_exec(c) {
        Ok(1)
    } else if c == '(' {
        proof {
            lemma_items_view_push(stack@, CalcExprItem::OpenBracket);
        }
        stack.push(CalcExprItem::OpenBracket);
        Ok(1)
    } else if c == ')' {
        loop
            invariant_except_break
                c == ')',
                st0 == old(stack)@,
                rs0 == old(result)@,
                close_pop(items_view(stack@), items_view(result@)) == close_pop(
                    items_view(st0),
                    items_view(rs0),
                ),
            ensures
                close_pop(items_view(st0), items_view(rs0)) matches Some(sr) && items_view(stack@)
                    == sr.0 && items_view(result@) == sr.1,
            decreases stack@.len(),
        {
            let ghost prev = stack@;
            let ghost prevr = result@;
            proof {
                if prev.len() > 0 {
                    lemma_items_view_drop_last(prev);
                    assert(prev.subrange(0, prev.len() - 1) =~= prev.drop_last());
                }
            }
            match stack.pop() {
                Some(CalcExprItem::OpenBracket) => {
                    break ;
                },
                Some(x) => {
                    proof {
                        lemma_items_view_push(prevr, x);
                    }
                    result.push(x);
                },
                None => {
                    return Err(CalcErr::from_kind(CalcErrKind::UnmatchedBracket));
                },
            }
        }
        Ok(1)
    } else {
        Ok(0)
    }
}

/// Scans the numeral beginning at `i`, if any, and appends it to the output
/// as a number item carrying its text. Returns the position after the
/// numeral, which is `i` itself when no numeral begins there.
fn parse_number(input: &str, i: usize, neg_ok: bool, result: &mut Vec<CalcExprItem>) -> (end:
    usize)
    requires
        input.is_ascii(),
        i < input@.len(),
    ensures
        end == numeral_end(input@, i as nat, neg_ok),
        i <= end <= input@.len(),
        end > i ==> items_view(final(result)@) == items_view(old(result)@).push(
            RpnItem::Number(input@.subrange(i as int, end as int)),
        ),
        end == i ==> final(result)@ == old(result)@,
{
    let n = char_len(input);
    let mut start: usize = i;
    if neg_ok && input.get_char(i) == '-' && i + 1 < n {
        if is_digit_exec(input.get_char(i + 1)) {
            start = i + 1;
        }
    }
    proof {
        assert(start == numeral_start(input@, i as nat, neg_ok));
    }
    if is_digit_exec(input.get_char(start)) {
        proof {
            lemma_digits_end_bounds(input@, (start + 1) as nat);
        }
        let d = digits_end_exec(input, start);
        let mut e = d;
        if d < n {
            if input.get_char(d) == '.' {
                e = digits_end_exec(input, d + 1);
            }
        }
        let text = input.substring_ascii(i, e);
        let item = CalcExprItem::Number(text.to_owned());
        proof {
            lemma_items_view_push(result@, item);
        }
        result.push(item);
        e
    } else {
        i
    }
}

/// Scans a binary operator. When `c` names one, the working stack is popped
/// to the output as long as its top is a unary function or an operator of
/// equal or higher priority, and the new operator is pushed; one character
/// is consumed. Returns how many characters were consumed.
fn parse_binary_op(c: char, stack: &mut Vec<CalcExprItem>, result: &mut Vec<CalcExprItem>) -> (len:
    usize)
    ensures
        (match bin_kind_of(c) {
            Some(b) => len == 1 && ({
                let sr = bin_pop(items_view(old(stack)@), items_view(old(result)@), priority(b));
                items_view(final(stack)@) == sr.0.push(RpnItem::BinOp(b)) && items_view(
                    final(result)@,
                ) == sr.1
            }),
            None => len == 0 && final(stack)@ == old(stack)@ && final(result)@ == old(result)@,
        }),
{
    let ghost st0 = stack@;
    let ghost rs0 = result@;
    match bin_kind_exec(c) {
        None => 0,
        Some(b) => {
            let p = op_priority(b);
            loop
                invariant
                    p == priority(b),
                    bin_pop(items_view(stack@), items_view(result@), priority(b)) == bin_pop(
                        items_view(st0),
                        items_view(rs0),
                        priority(b),
                    ),
                ensures
                    ({
                        let sr = bin_pop(items_view(st0), items_view(rs0), priority(b));
                        items_view(stack@) == sr.0 && items_view(result@) == sr.1
                    }),
                decreases stack@.len(),
            {
                let ghost prev = stack@;
                let ghost prevr = result@;
                proof {
                    if prev.len() > 0 {
                        lemma_items_view_drop_last(prev);
                        assert(prev.subrange(0, prev.len() - 1) =~= prev.drop_last());
                    }
                }
                match stack.pop() {
                    None => {
                        break ;
                    },
                    Some(it) => {
                        let mut keep = false;
                        match &it {
                            CalcExprItem::UniOp(_) => {},
                            CalcExprItem::BinOp(tb) => {
                                if op_priority(*tb) < p {
                                    keep = true;
                                }
                            },
                            _ => {
                                keep = true;
                            },
                        }
                        if keep {
                            stack.push(it);
                            proof {
                                assert(stack@ =~= prev);
                            }
                            break ;
                        } else {
                            proof {
                                lemma_items_view_push(prevr, it);
                            }
                            result.push(it);
                        }
                    },
                }
            }
            proof {
                lemma_items_view_push(stack@, CalcExprItem::BinOp(b));
            }
            stack.push(CalcExprItem::BinOp(b));
            1
        },
    }
}

/// Scans a unary function name (`sin`, `cos` or `tan`) at `i` and pushes the
/// matching item onto the working stack. Returns how many characters were
/// consumed.
fn parse_unary_op(input: &str, i: usize, stack: &mut Vec<CalcExprItem>) -> (len: usize)
    requires
        input.is_ascii(),
        i < input@.len(),
    ensures
        (match func_kind_at(input@, i as nat) {
            Some(u) => len == 3 && items_view(final(stack)@) == items_view(old(stack)@).push(
                RpnItem::UniOp(u),
            ),
            None => len == 0 && final(stack)@ == old(stack)@,
        }),
{
    let n = char_len(input);
    if n - i >= 3 {
        let c0 = input.get_char(i);
        let c1 = input.get_char(i + 1);
        let c2 = input.get_char(i + 2);
        let kind_opt: Option<UnaryKind> = if c0 == 's' && c1 == 'i' && c2 == 'n' {
            Some(UnaryKind::Sin)
        } else if c0 == 'c' && c1 == 'o' && c2 == 's' {
            Some(UnaryKind::Cos)
        } else if c0 == 't' && c1 == 'a' && c2 == 'n' {
            Some(UnaryKind::Tan)
        } else {
            None
        };
        match kind_opt {
            Some(u) => {
                let item = CalcExprItem::UniOp(u);
                proof {
                    lemma_items_view_push(stack@, item);
                }
                stack.push(item);
                3
            },
            None => 0,
        }
    } else {
        0
    }
}

/// Converts an input string into the postfix (Reverse Polish) sequence of
/// its expression items. For example, `1+2*3` converts to
/// `[Number(1), Number(2), Number(3), BinOp(*), BinOp(+)]`. Returns exactly
/// what the specification `rpn_of` denotes for the input, both on success
/// and in the class of the error.
#[verifier::loop_isolation(false)]
pub fn convert_to_rpn(input: &str) -> (r: Result<Vec<CalcExprItem>, CalcErr>)
    ensures
        (match rpn_of(input@) {
            Ok(items) => r matches Ok(v) && items_view(v@) == items,
            Err(k) => r matches Err(e) && e.kind == k && e.msg@ == kind_msg(k),
        }),
{
    if !input.is_ascii() {
        proof {
            if input_allowed(input@) {
                assert forall|t: int| 0 <= t < input@.len() implies '\0' <= #[trigger] input@[t]
                    <= '\u{7f}' by {
                    assert(is_allowed_char(input@[t]));
                }
            }
        }
        return Err(CalcErr::from_kind(CalcErrKind::InvalidInput));
    }
    let n = char_len(input);
    let mut j: usize = 0;
    while j < n
        invariant
            j <= n,
            forall|t: int| 0 <= t < j ==> is_allowed_char(#[trigger] input@[t]),
        decreases n - j,
    {
        if !allowed_char(input.get_char(j)) {
            return Err(CalcErr::from_kind(CalcErrKind::InvalidInput));
        }
        j = j + 1;
    }
    let mut stack: Vec<CalcExprItem> = Vec::new();
    let mut result: Vec<CalcExprItem> = Vec::new();
    proof {
        assert(items_view(stack@) =~= Seq::<RpnItem>::empty());
        assert(items_view(result@) =~= Seq::<RpnItem>::empty());
    }
    let mut i: usize = 0;
    let mut neg_ok: bool = true;
    while i < n
        invariant
            i <= n,
            scan(input@, i as nat, neg_ok, items_view(stack@), items_view(result@)) == rpn_of(
                input@,
            ),
        decreases n - i,
    {
        let c = input.get_char(i);
        match parse_prefix(c, &mut stack, &mut result) {
            Err(e) => {
                return Err(e);
            },
            Ok(len) => {
                if len > 0 {
                    if c == '(' {
                        neg_ok = true;
                    } else if c == ')' {
                        neg_ok = false;
                    }
                    i = i + 1;
                    continue ;
                }
            },
        }
        let end = parse_number(input, i, neg_ok, &mut result);
        if end > i {
            i = end;
            neg_ok = false;
            continue ;
        }
        let len = parse_binary_op(c, &mut stack, &mut result);
        if len > 0 {
            i = i + 1;
            neg_ok = true;
            continue ;
        }
        let len = parse_unary_op(input, i, &mut stack);
        if len > 0 {
            i = i + 3;
            neg_ok = true;
            continue ;
        }
        return Err(CalcErr::from_kind(CalcErrKind::UnrecognizedToken(i)));
    }
    loop
        invariant
            drain_stack(items_view(stack@), items_view(result@)) == rpn_of(input@),
        decreases stack@.len(),
    {
        let ghost prev = stack@;
        let ghost prevr = result@;
        proof {
            if prev.len() > 0 {
                lemma_items_view_drop_last(prev);
                assert(prev.subrange(0, prev.len() - 1) =~= prev.drop_last());
            }
        }
        match stack.pop() {
            None => {
                break ;
            },
            Some(CalcExprItem::OpenBracket) => {
                return Err(CalcErr::from_kind(CalcErrKind::UnmatchedBracket));
            },
            Some(CalcExprItem::CloseBracket) => {
                return Err(CalcErr::from_kind(CalcErrKind::UnmatchedBracket));
            },
            Some(x) => {
                proof {
                    lemma_items_view_push(prevr, x);
                }
                result.push(x);
            },
        }
    }
    Ok(result)
}

} // verus!
