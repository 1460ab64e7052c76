//! The expression items that the converter emits and the reducer consumes.

use vstd::prelude::*;

verus! {

/// A prefix function of one argument. The engine only records which function
/// was named; applying it to a number is the caller's concern.
#[derive(Clone, Copy, Debug, PartialEq, Eq, Structural)]
pub enum UnaryKind {
    /// Degree-based sine.
    Sin,
    /// Degree-based cosine.
    Cos,
    /// Degree-based tangent.
    Tan,
}

/// An infix operator of two arguments.
#[derive(Clone, Copy, Debug, PartialEq, Eq, Structural)]
pub enum BinKind {
    Add,
    Sub,
    Mul,
    Div,
    Pow,
}

/// The fixed priority table of the infix operators: a higher number binds
/// tighter.
pub open spec fn priority(b: BinKind) -> nat {
    match b {
        BinKind::Add => 0,
        BinKind::Sub => 0,
        BinKind::Mul => 1,
        BinKind::Div => 1,
        BinKind::Pow => 2,
    }
}

/// Executable access to the priority table.
pub fn op_priority(b: BinKind) -> (p: u8)
    ensures
        p == priority(b),
{
    match b {
        BinKind::Add => 0,
        BinKind::Sub => 0,
        BinKind::Mul => 1,
        BinKind::Div => 1,
        BinKind::Pow => 2,
    }
}

/// One element of the postfix stream, or of the converter's working stack.
/// A number carries the text of the numeral it was scanned from, so that the
/// caller can convert it without re-tokenizing. The brackets are structural
/// markers: they live only on the working stack during conversion and are
/// never part of a successfully converted sequence.
#[derive(Debug)]
pub enum CalcExprItem {
    Number(String),
    UniOp(UnaryKind),
    BinOp(BinKind),
    OpenBracket,
    CloseBracket,
}

/// The mathematical shadow of `CalcExprItem`: a number is its sequence of
/// characters. The contracts of the engine speak of these.
pub enum RpnItem {
    Number(Seq<char>),
    UniOp(UnaryKind),
    BinOp(BinKind),
    OpenBracket,
    CloseBracket,
}

impl View for CalcExprItem {
    type V = RpnItem;

    open spec fn view(&self) -> RpnItem {
        match self {
            CalcExprItem::Number(s) => RpnItem::Number(s@),
            CalcExprItem::UniOp(u) => RpnItem::UniOp(*u),
            CalcExprItem::BinOp(b) => RpnItem::BinOp(*b),
            CalcExprItem::OpenBracket => RpnItem::OpenBracket,
            CalcExprItem::CloseBracket => RpnItem::CloseBracket,
        }
    }
}

/// The view of a whole sequence of items.
pub open spec fn items_view(v: Seq<CalcExprItem>) -> Seq<RpnItem> {
    v.map_values(|x: CalcExprItem| x@)
}

pub proof fn lemma_items_view_push(v: Seq<CalcExprItem>, x: CalcExprItem)
    ensures
        items_view(v.push(x)) == items_view(v).push(x@),
{
    assert(items_view(v.push(x)) =~= items_view(v).push(x@));
}

pub proof fn lemma_items_view_drop_last(v: Seq<CalcExprItem>)
    requires
        v.len() > 0,
    ensures
        items_view(v.drop_last()) == items_view(v).drop_last(),
        items_view(v).last() == v.last()@,
{
    assert(items_view(v.drop_last()) =~= items_view(v).drop_last());
}

impl PartialEq for CalcExprItem {
    /// Items compare by operator name and numeral text; brackets compare by
    /// variant alone.
    fn eq(&self, other: &Self) -> (r: bool) {
        match (self, other) {
            (CalcExprItem::UniOp(x), CalcExprItem::UniOp(y)) => *x == *y,
            (CalcExprItem::BinOp(x), CalcExprItem::BinOp(y)) => *x == *y,
            (CalcExprItem::Number(x), CalcExprItem::Number(y)) => *x == *y,
            (CalcExprItem::OpenBracket, CalcExprItem::OpenBracket) => true,
            (CalcExprItem::CloseBracket, CalcExprItem::CloseBracket) => true,
            _ => false,
        }
    }
}

impl vstd::std_specs::cmp::PartialEqSpecImpl for CalcExprItem {
    open spec fn obeys_eq_spec() -> bool {
        true
    }

    open spec fn eq_spec(&self, other: &Self) -> bool {
        match (self, other) {
            (CalcExprItem::UniOp(x), CalcExprItem::UniOp(y)) => x == y,
            (CalcExprItem::BinOp(x), CalcExprItem::BinOp(y)) => x == y,
            (CalcExprItem::Number(x), CalcExprItem::Number(y)) => x@ == y@,
            (CalcExprItem::OpenBracket, CalcExprItem::OpenBracket) => true,
            (CalcExprItem::CloseBracket, CalcExprItem::CloseBracket) => true,
            _ => false,
        }
    }
}

} // verus!
