//! Which alternative reads an expression, decided by its first token: the
//! laws that tie the expression parser to the place, boolean and arithmetic
//! parsers, and to itself inside parentheses.
use vstd::prelude::*;

use crate::ast::SpecExpr;
use crate::grammar::{
    arith, arith_atom, bool_atom, boolean, conj, expr, expr_inner, expr_items, is_kind, lemma_skip_ws, lhs,
    negation, op, op2, product, skip_ws, sum, unary, variable,
};
use crate::laws::{law_guards_never_fire, law_leading_whitespace, law_trailing_whitespace};
use crate::token::{Token, TokenKind};

verus! {

/// Skipping whitespace twice is skipping it once.
pub proof fn lemma_skip_ws_idempotent(t: Seq<Token>, p: int)
    ensures
        skip_ws(t, skip_ws(t, p)) == skip_ws(t, p),
{
    lemma_skip_ws(t, p);
}

/// No arithmetic expression starts at `q` when the token there can begin
/// none (it is no number, `-`, `(`, `sizeof` or place).
proof fn lemma_no_arith(t: Seq<Token>, q: int)
    requires
        !is_kind(t, q, TokenKind::Whitespace),
        !is_kind(t, q, TokenKind::Nat),
        !is_kind(t, q, TokenKind::Minus),
        !is_kind(t, q, TokenKind::LParen),
        !is_kind(t, q, TokenKind::Sizeof),
        lhs(t, q) is None,
    ensures
        arith(t, q) is None,
{
    assert(skip_ws(t, q) == q);
    assert(op(t, q, TokenKind::Minus) is None);
    assert(op(t, q, TokenKind::LParen) is None);
    assert(op(t, q, TokenKind::Sizeof) is None);
    assert(arith_atom(t, q) is None);
    assert(unary(t, q) is None);
    assert(product(t, q) is None);
    assert(sum(t, q) is None);
}

/// No boolean expression starts at `q` when the token there can begin
/// none (it is no `!`, literal, `(` or place) and no comparison starts
/// there.
proof fn lemma_no_bool(t: Seq<Token>, q: int)
    requires
        !is_kind(t, q, TokenKind::Whitespace),
        !is_kind(t, q, TokenKind::Bang),
        !is_kind(t, q, TokenKind::True),
        !is_kind(t, q, TokenKind::False),
        !is_kind(t, q, TokenKind::LParen),
        lhs(t, q) is None,
        arith(t, q) is None,
    ensures
        boolean(t, q) is None,
{
    assert(skip_ws(t, q) == q);
    assert(op(t, q, TokenKind::Bang) is None);
    assert(op(t, q, TokenKind::LParen) is None);
    assert(bool_atom(t, q) is None);
    assert(negation(t, q) is None);
    assert(conj(t, q) is None);
}

/// Reading an expression, a boolean or an arithmetic expression at `p` is
/// reading it at the first position from `p` that holds no whitespace, where
/// the expression parser tries its alternatives.
proof fn lemma_expr_at(t: Seq<Token>, p: int)
    requires
        0 <= p,
    ensures
        expr(t, p) == expr(t, skip_ws(t, p)),
        expr(t, skip_ws(t, p)) == match expr_inner(t, skip_ws(t, p)) {
            Some((n, v)) => Some((skip_ws(t, n), v)),
            None => None,
        },
        boolean(t, p) == boolean(t, skip_ws(t, p)),
        arith(t, p) == arith(t, skip_ws(t, p)),
        !is_kind(t, skip_ws(t, p), TokenKind::Whitespace),
{
    law_leading_whitespace(t, p);
    lemma_skip_ws(t, p);
}

/// An expression that starts with `!`, `true` or `false` is a boolean
/// expression: the expression parser reads exactly what the boolean parser
/// reads at the same position, and makes it a boolean expression; where
/// the boolean parser fails, so does the expression parser.
pub proof fn law_expr_boolean(t: Seq<Token>, p: int)
    requires
        0 <= p,
        is_kind(t, skip_ws(t, p), TokenKind::Bang) || is_kind(t, skip_ws(t, p), TokenKind::True)
            || is_kind(t, skip_ws(t, p), TokenKind::False),
    ensures
        boolean(t, p) matches Some((n, b)) ==> expr(t, p) == Some(
            (n, SpecExpr::Bool(Box::new(b))),
        ),
        boolean(t, p) is None ==> expr(t, p) is None,
{
    let q = skip_ws(t, p);
    lemma_expr_at(t, p);
    assert(lhs(t, q) is None);
    assert(op(t, q, TokenKind::LParen) is None);
    assert(op(t, q, TokenKind::Amp) is None);
    assert(op2(t, q, TokenKind::Amp, TokenKind::Mut) is None);
    lemma_no_arith(t, q);
    if let Some((n, b)) = boolean(t, q) {
        lemma_ends_past_whitespace(t, q);
        lemma_skip_ws_idempotent(t, n);
        assert(skip_ws(t, n) == n);
    }
}


/// An expression that starts with a number, `-` or `sizeof` is read as a
/// boolean expression where the boolean parser matches there (a
/// comparison), and otherwise as the arithmetic expression that the
/// arithmetic parser reads; where both fail, the expression parser fails.
pub proof fn law_expr_arithmetic(t: Seq<Token>, p: int)
    requires
        0 <= p,
        is_kind(t, skip_ws(t, p), TokenKind::Nat) || is_kind(t, skip_ws(t, p), TokenKind::Minus)
            || is_kind(t, skip_ws(t, p), TokenKind::Sizeof),
    ensures
        boolean(t, p) matches Some((n, b)) ==> expr(t, p) == Some(
            (n, SpecExpr::Bool(Box::new(b))),
        ),
        boolean(t, p) is None ==> (arith(t, p) matches Some((n, a)) ==> expr(t, p) == Some(
            (n, SpecExpr::Int(Box::new(a))),
        )),
        boolean(t, p) is None && arith(t, p) is None ==> expr(t, p) is None,
{
    let q = skip_ws(t, p);
    lemma_expr_at(t, p);
    assert(lhs(t, q) is None);
    assert(op(t, q, TokenKind::LParen) is None);
    assert(op(t, q, TokenKind::Amp) is None);
    assert(op2(t, q, TokenKind::Amp, TokenKind::Mut) is None);
    lemma_ends_past_whitespace(t, q);
    if let Some((n, b)) = boolean(t, q) {
        lemma_skip_ws_idempotent(t, n);
    }
    if let Some((n, a)) = arith(t, q) {
        lemma_skip_ws_idempotent(t, n);
    }
}

/// An expression that starts with a variable or `*` is a place: the
/// expression parser reads exactly the place that the place parser reads
/// at the first token, with the whitespace after it; where the place
/// parser fails, so does the expression parser.
pub proof fn law_expr_place(t: Seq<Token>, p: int)
    requires
        0 <= p,
        is_kind(t, skip_ws(t, p), TokenKind::Var) || is_kind(
            t,
            skip_ws(t, p),
            TokenKind::Multiply,
        ),
    ensures
        lhs(t, skip_ws(t, p)) matches Some((n, l)) ==> expr(t, p) == Some(
            (skip_ws(t, n), SpecExpr::Lvalue(Box::new(l))),
        ),
        lhs(t, skip_ws(t, p)) is None ==> expr(t, p) is None,
{
    let q = skip_ws(t, p);
    lemma_expr_at(t, p);
    assert(op(t, q, TokenKind::LParen) is None);
    assert(op(t, q, TokenKind::Amp) is None);
    assert(op2(t, q, TokenKind::Amp, TokenKind::Mut) is None);
    if lhs(t, q) is None {
        lemma_no_arith(t, q);
        lemma_no_bool(t, q);
    } else {
        let n = lhs(t, q).unwrap().0;
        lemma_skip_ws_idempotent(t, n);
    }
}

/// `& x` reads as an immutable reference to `x`, and `&mut x` (with `&`
/// and `mut` adjacent) as a mutable one, whitespace allowed before the
/// variable; an expression that starts with `&` and is neither fails.
pub proof fn law_expr_reference(t: Seq<Token>, p: int)
    requires
        0 <= p,
        is_kind(t, skip_ws(t, p), TokenKind::Amp),
    ensures
        ({
            let q = skip_ws(t, p);
            let a = skip_ws(t, q + 1);
            let b = skip_ws(t, q + 2);
            &&& variable(t, a) matches Some((n, s)) ==> expr(t, p) == Some(
                (skip_ws(t, n), SpecExpr::ImmutRef(s)),
            )
            &&& is_kind(t, q + 1, TokenKind::Mut) ==> (variable(t, b) matches Some((n, s))
                ==> expr(t, p) == Some((skip_ws(t, n), SpecExpr::MutRef(s))))
            &&& variable(t, a) is None && !(is_kind(t, q + 1, TokenKind::Mut) && variable(
                t,
                b,
            ) is Some) ==> expr(t, p) is None
        }),
{
    let q = skip_ws(t, p);
    let a = skip_ws(t, q + 1);
    lemma_expr_at(t, p);
    assert(lhs(t, q) is None);
    assert(op(t, q, TokenKind::LParen) is None);
    assert(op(t, q, TokenKind::Amp) == Some(a));
    lemma_no_arith(t, q);
    lemma_no_bool(t, q);
    if is_kind(t, q + 1, TokenKind::Mut) {
        assert(a == q + 1);
        assert(variable(t, a) is None);
        assert(op2(t, q, TokenKind::Amp, TokenKind::Mut) == Some(skip_ws(t, q + 2)));
    } else {
        assert(op2(t, q, TokenKind::Amp, TokenKind::Mut) is None);
    }
    if let Some((n, s)) = variable(t, a) {
        lemma_skip_ws_idempotent(t, n);
    }
    if let Some((n, s)) = variable(t, skip_ws(t, q + 2)) {
        lemma_skip_ws_idempotent(t, n);
    }
}

/// Parentheses around an expression are transparent: where the expression
/// after `(` reads `e` and is followed by `)`, the whole reads `e`, ending
/// after the `)` and the whitespace after it.
pub proof fn law_expr_parenthesized(t: Seq<Token>, p: int)
    requires
        0 <= p,
        is_kind(t, skip_ws(t, p), TokenKind::LParen),
        expr(t, skip_ws(t, p) + 1) matches Some((m, _)) && is_kind(t, m, TokenKind::RParen),
    ensures
        expr(t, skip_ws(t, p) + 1) matches Some((m, e)) && expr(t, p) == Some(
            (skip_ws(t, m + 1), e),
        ),
{
    let q = skip_ws(t, p);
    let a = skip_ws(t, q + 1);
    lemma_expr_at(t, p);
    lemma_expr_at(t, q + 1);
    assert(lhs(t, q) is None);
    assert(op(t, q, TokenKind::LParen) == Some(a));
    let (m, e) = expr(t, q + 1).unwrap();
    let (n, v) = expr_inner(t, a).unwrap();
    assert(m == skip_ws(t, n));
    assert(op(t, n, TokenKind::RParen) == Some(skip_ws(t, m + 1)));
    lemma_skip_ws_idempotent(t, m + 1);
}


/// Consecutive reads of the inner expression parser from `ps[j]`, collected
/// after the first `j` items, give all the items and stop at the last
/// position.
proof fn lemma_items_read(t: Seq<Token>, ps: Seq<int>, items: Seq<SpecExpr>, j: int)
    requires
        ps.len() == items.len() + 1,
        0 <= j <= items.len(),
        forall|i: int|
            0 <= i < items.len() ==> expr_inner(t, ps[i]) == Some((ps[i + 1], #[trigger] items[i])),
        expr_inner(t, ps[items.len() as int]) is None,
    ensures
        expr_items(t, ps[j], items.take(j)) == (ps[items.len() as int], items),
    decreases items.len() - j,
{
    law_guards_never_fire(t, ps[j]);
    if j < items.len() {
        assert(expr_inner(t, ps[j]) == Some((ps[j + 1], items[j])));
        assert(items.take(j).push(items[j]) =~= items.take(j + 1));
        lemma_items_read(t, ps, items, j + 1);
    } else {
        assert(items.take(j) =~= items);
    }
}

/// A tuple `[ e1 e2 ... ]`: where the inner expression parser reads the
/// items one after the other from just after `[` (item `i` from `ps[i]` to
/// `ps[i + 1]`) and reads nothing at `ps[k]`, the expression is the tuple of
/// exactly those items, in order, if `]` stands at `ps[k]`; otherwise the
/// expression parser fails.
pub proof fn law_expr_tuple(t: Seq<Token>, p: int, ps: Seq<int>, items: Seq<SpecExpr>)
    requires
        0 <= p,
        is_kind(t, skip_ws(t, p), TokenKind::LSqBra),
        ps.len() == items.len() + 1,
        ps[0] == skip_ws(t, p) + 1,
        forall|i: int|
            0 <= i < items.len() ==> expr_inner(t, ps[i]) == Some((ps[i + 1], #[trigger] items[i])),
        expr_inner(t, ps[items.len() as int]) is None,
    ensures
        is_kind(t, ps[items.len() as int], TokenKind::RSqBra) ==> expr(t, p) == Some(
            (skip_ws(t, ps[items.len() as int] + 1), SpecExpr::Tuple(items)),
        ),
        !is_kind(t, ps[items.len() as int], TokenKind::RSqBra) ==> expr(t, p) is None,
{
    let q = skip_ws(t, p);
    lemma_expr_at(t, p);
    lemma_items_read(t, ps, items, 0);
    assert(items.take(0) =~= seq![]);
    assert(lhs(t, q) is None);
    assert(op(t, q, TokenKind::LParen) is None);
    assert(op(t, q, TokenKind::Amp) is None);
    assert(op2(t, q, TokenKind::Amp, TokenKind::Mut) is None);
    lemma_no_arith(t, q);
    lemma_no_bool(t, q);
}


/// No expression starts at the keyword `alloc`.
pub(crate) proof fn lemma_no_expr_at_alloc(t: Seq<Token>, q: int)
    requires
        is_kind(t, q, TokenKind::Alloc),
    ensures
        expr(t, q) is None,
{
    assert(skip_ws(t, q) == q);
    assert(lhs(t, q) is None);
    lemma_no_arith(t, q);
    lemma_no_bool(t, q);
    assert(op(t, q, TokenKind::LParen) is None);
    assert(op(t, q, TokenKind::Amp) is None);
    assert(op2(t, q, TokenKind::Amp, TokenKind::Mut) is None);
    assert(expr_inner(t, q) is None);
}

/// The boolean, arithmetic and expression parsers end on the first token
/// after their trailing whitespace.
proof fn lemma_ends_past_whitespace(t: Seq<Token>, q: int)
    ensures
        boolean(t, q) matches Some((n, _)) ==> skip_ws(t, n) == n,
        arith(t, q) matches Some((n, _)) ==> skip_ws(t, n) == n,
        expr(t, q) matches Some((n, _)) ==> skip_ws(t, n) == n,
{
    law_trailing_whitespace(t, q);
}

} // verus!
