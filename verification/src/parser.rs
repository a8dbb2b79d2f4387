//! Executable parsers, each proved to compute exactly the corresponding
//! function of `grammar`.
use vstd::prelude::*;

use crate::ast::{
    lemma_prod_view, lemma_tuple_view, expr_seq_view, type_seq_view, ArithExpr, BoolExpr, Cmd,
    Expr, Lhs, SpecCmd, Type,
};
use crate::grammar;
use crate::grammar::{lemma_op, lemma_op2, lemma_skip_ws};
use crate::token::{Token, TokenKind};

verus! {

/// The model of a parse result: the end position as an integer and the
/// model of the value.
pub open spec fn view_opt<T: View>(r: Option<(usize, T)>) -> Option<(int, T::V)> {
    match r {
        Some((n, v)) => Some((n as int, v@)),
        None => None,
    }
}

/// The model of an optional position.
pub open spec fn pos_opt(r: Option<usize>) -> Option<int> {
    match r {
        Some(n) => Some(n as int),
        None => None,
    }
}

/// Why a token sequence is not a whole program.
#[derive(Clone, Copy, Debug, PartialEq, Eq, Structural)]
pub enum ParseError {
    /// No command starts at the beginning of the input.
    NoParse,
    /// A command was read, but it ends at this position, before the end
    /// of the input.
    TrailingTokens(usize),
}

/// What reading a whole program gives: the command that the command
/// parser reads from position 0, if it reaches the end of the input.
pub open spec fn program(t: Seq<Token>) -> Result<SpecCmd, ParseError> {
    match grammar::command(t, 0) {
        Some((n, c)) => if n == t.len() {
            Ok(c)
        } else {
            Err(ParseError::TrailingTokens(n as usize))
        },
        None => Err(ParseError::NoParse),
    }
}

/// The model of the result of `parse_command`.
pub open spec fn program_view(r: Result<Cmd, ParseError>) -> Result<SpecCmd, ParseError> {
    match r {
        Ok(c) => Ok(c@),
        Err(e) => Err(e),
    }
}

// ---------------------------------------------------------------------------
// Primitives
// ---------------------------------------------------------------------------

fn at(toks: &[Token], p: usize, k: TokenKind) -> (b: bool)
    ensures
        b == grammar::is_kind(toks@, p as int, k),
        b ==> p < toks.len(),
{
    p < toks.len() && toks[p].kind() == k
}

fn skip_whitespace(toks: &[Token], p: usize) -> (q: usize)
    ensures
        q as int == grammar::skip_ws(toks@, p as int),
{
    let mut q = p;
    while at(toks, q, TokenKind::Whitespace)
        invariant
            p <= q,
            grammar::skip_ws(toks@, q as int) == grammar::skip_ws(toks@, p as int),
        decreases toks@.len() - q,
    {
        q = q + 1;
    }
    q
}

fn op(toks: &[Token], p: usize, k: TokenKind) -> (r: Option<usize>)
    ensures
        pos_opt(r) == grammar::op(toks@, p as int, k),
        r matches Some(a) ==> p < a <= toks.len(),
{
    proof {
        lemma_op(toks@, p as int, k);
    }
    let q = skip_whitespace(toks, p);
    if at(toks, q, k) {
        Some(skip_whitespace(toks, q + 1))
    } else {
        None
    }
}

fn op2(toks: &[Token], p: usize, k1: TokenKind, k2: TokenKind) -> (r: Option<usize>)
    ensures
        pos_opt(r) == grammar::op2(toks@, p as int, k1, k2),
        r matches Some(a) ==> p < a <= toks.len(),
{
    proof {
        lemma_op2(toks@, p as int, k1, k2);
    }
    let q = skip_whitespace(toks, p);
    if at(toks, q, k1) && at(toks, q + 1, k2) {
        Some(skip_whitespace(toks, q + 2))
    } else {
        None
    }
}

fn variable(toks: &[Token], p: usize) -> (r: Option<(usize, String)>)
    ensures
        match r {
            Some((n, s)) => grammar::variable(toks@, p as int) == Some((n as int, s@)),
            None => grammar::variable(toks@, p as int) is None,
        },
        r matches Some((n, _)) ==> p < n <= toks.len(),
{
    if p < toks.len() {
        match &toks[p] {
            Token::Var(s) => Some((p + 1, s.clone())),
            _ => None,
        }
    } else {
        None
    }
}

// ---------------------------------------------------------------------------
// Places
// ---------------------------------------------------------------------------

/// Reads a place at `pos`: zero or more `*` tokens and then a variable,
/// with no whitespace; each `*` wraps the place in a dereference. Returns
/// the position after the variable and the place, or `None`.
pub fn lhs_parser(toks: &[Token], pos: usize) -> (res: Option<(usize, Lhs)>)
    ensures
        view_opt(res) == grammar::lhs(toks@, pos as int),
        res matches Some((n, _)) ==> pos < n <= toks.len(),
    decreases toks@.len() - pos,
{
    if at(toks, pos, TokenKind::Multiply) {
        match lhs_parser(toks, pos + 1) {
            Some((n, l)) => Some((n, Lhs::Deref(Box::new(l)))),
            None => None,
        }
    } else {
        match variable(toks, pos) {
            Some((n, s)) => Some((n, Lhs::Var(s))),
            None => None,
        }
    }
}

// ---------------------------------------------------------------------------
// Types
// ---------------------------------------------------------------------------

/// Reads a type at `pos`, skipping whitespace before and after it:
/// `int`, `bool`, `ref<true|false, T>`, `loc<T>` or a product
/// `[T, T, ...]` (possibly empty, with an optional trailing comma).
/// Returns the position after the type and its trailing whitespace.
pub fn type_parser(toks: &[Token], pos: usize) -> (res: Option<(usize, Type)>)
    ensures
        view_opt(res) == grammar::ty(toks@, pos as int),
        res matches Some((n, _)) ==> pos < n <= toks.len(),
    decreases toks@.len() - pos, 2int,
{
    if at(toks, pos, TokenKind::Whitespace) {
        return type_parser(toks, pos + 1);
    }
    match ty_core(toks, pos) {
        Some((n, v)) => {
            proof {
                lemma_skip_ws(toks@, n as int);
            }
            Some((skip_whitespace(toks, n), v))
        },
        None => None,
    }
}

fn ty_atom(toks: &[Token], p: usize) -> (res: Option<(usize, Type)>)
    ensures
        view_opt(res) == grammar::ty_atom(toks@, p as int),
        res matches Some((n, _)) ==> p < n <= toks.len(),
{
    if at(toks, p, TokenKind::Int) {
        Some((p + 1, Type::Int))
    } else if at(toks, p, TokenKind::Bool) {
        Some((p + 1, Type::Bool))
    } else {
        None
    }
}

fn ty_core(toks: &[Token], p: usize) -> (res: Option<(usize, Type)>)
    ensures
        view_opt(res) == grammar::ty_core(toks@, p as int),
        res matches Some((n, _)) ==> p < n <= toks.len(),
    decreases toks@.len() - p, 1int,
{
    let r = ty_atom(toks, p);
    if r.is_some() {
        return r;
    }
    let r = ty_ref(toks, p);
    if r.is_some() {
        return r;
    }
    let r = ty_loc(toks, p);
    if r.is_some() {
        return r;
    }
    ty_prod(toks, p)
}

fn ty_ref(toks: &[Token], p: usize) -> (res: Option<(usize, Type)>)
    ensures
        view_opt(res) == grammar::ty_ref(toks@, p as int),
        res matches Some((n, _)) ==> p < n <= toks.len(),
    decreases toks@.len() - p, 0int,
{
    if !at(toks, p, TokenKind::Ref) {
        return None;
    }
    let a = match op(toks, p + 1, TokenKind::LessThan) {
        Some(a) => a,
        None => return None,
    };
    let m = if at(toks, a, TokenKind::True) {
        true
    } else if at(toks, a, TokenKind::False) {
        false
    } else {
        return None;
    };
    if !at(toks, a + 1, TokenKind::Comma) {
        return None;
    }
    let (c, inner) = match type_parser(toks, a + 2) {
        Some(r) => r,
        None => return None,
    };
    match op(toks, c, TokenKind::GreaterThan) {
        Some(d) => Some((d, Type::Ref { mutable: m, inner_type: Box::new(inner) })),
        None => None,
    }
}

fn ty_loc(toks: &[Token], p: usize) -> (res: Option<(usize, Type)>)
    ensures
        view_opt(res) == grammar::ty_loc(toks@, p as int),
        res matches Some((n, _)) ==> p < n <= toks.len(),
    decreases toks@.len() - p, 0int,
{
    if !at(toks, p, TokenKind::Loc) {
        return None;
    }
    let a = match op(toks, p + 1, TokenKind::LessThan) {
        Some(a) => a,
        None => return None,
    };
    let (c, inner) = match type_parser(toks, a) {
        Some(r) => r,
        None => return None,
    };
    match op(toks, c, TokenKind::GreaterThan) {
        Some(d) => Some((d, Type::Loc(Box::new(inner)))),
        None => None,
    }
}

fn ty_prod(toks: &[Token], p: usize) -> (res: Option<(usize, Type)>)
    ensures
        view_opt(res) == grammar::ty_prod(toks@, p as int),
        res matches Some((n, _)) ==> p < n <= toks.len(),
    decreases toks@.len() - p, 0int,
{
    let a = match op(toks, p, TokenKind::LSqBra) {
        Some(a) => a,
        None => return None,
    };
    let (b, items) = ty_list(toks, a);
    match op(toks, b, TokenKind::RSqBra) {
        Some(c) => {
            proof {
                lemma_prod_view(items);
            }
            Some((c, Type::Prod(items)))
        },
        None => None,
    }
}

fn ty_list(toks: &[Token], p: usize) -> (r: (usize, Vec<Type>))
    requires
        p <= toks.len(),
    ensures
        (r.0 as int, type_seq_view(r.1@)) == grammar::ty_list(toks@, p as int),
        p <= r.0 <= toks.len(),
    decreases toks@.len() - p, 3int,
{
    match type_parser(toks, p) {
        Some((n, x)) => {
            let ghost xv = x@;
            let mut items = Vec::new();
            items.push(x);
            proof {
                assert(type_seq_view(items@) =~= seq![xv]);
            }
            ty_list_rest(toks, n, items)
        },
        None => {
            let items = Vec::new();
            proof {
                assert(type_seq_view(items@) =~= seq![]);
            }
            (p, items)
        },
    }
}

fn ty_list_rest(toks: &[Token], p: usize, acc: Vec<Type>) -> (r: (usize, Vec<Type>))
    requires
        p <= toks.len(),
    ensures
        (r.0 as int, type_seq_view(r.1@)) == grammar::ty_list_rest(
            toks@,
            p as int,
            type_seq_view(acc@),
        ),
        p <= r.0 <= toks.len(),
    decreases toks@.len() - p, 3int,
{
    match op(toks, p, TokenKind::Comma) {
        Some(a) => match type_parser(toks, a) {
            Some((n, x)) => {
                let ghost xv = x@;
                let ghost before = acc@;
                let mut acc = acc;
                acc.push(x);
                proof {
                    assert(type_seq_view(acc@) =~= type_seq_view(before).push(xv));
                }
                ty_list_rest(toks, n, acc)
            },
            None => (a, acc),
        },
        None => (p, acc),
    }
}

// ---------------------------------------------------------------------------
// Arithmetic expressions
// ---------------------------------------------------------------------------

/// Reads an arithmetic expression at `pos`, skipping whitespace before and
/// after it. `+` and `-` bind loosest, then `*` and `/`, all associating to
/// the left; then prefix `-`; the atoms are numbers, places, parenthesized
/// expressions and `sizeof T`.
pub fn arith_parser(toks: &[Token], pos: usize) -> (res: Option<(usize, ArithExpr)>)
    ensures
        view_opt(res) == grammar::arith(toks@, pos as int),
        res matches Some((n, _)) ==> pos < n <= toks.len(),
    decreases toks@.len() - pos,
{
    if at(toks, pos, TokenKind::Whitespace) {
        return arith_parser(toks, pos + 1);
    }
    match sum(toks, pos) {
        Some((n, v)) => {
            proof {
                lemma_skip_ws(toks@, n as int);
            }
            Some((skip_whitespace(toks, n), v))
        },
        None => None,
    }
}

fn sum(toks: &[Token], p: usize) -> (res: Option<(usize, ArithExpr)>)
    ensures
        view_opt(res) == grammar::sum(toks@, p as int),
        res matches Some((n, _)) ==> p < n <= toks.len(),
    decreases toks@.len() - p, 3int,
{
    match product(toks, p) {
        Some((n, v)) => Some(sum_rest(toks, n, v)),
        None => None,
    }
}

fn sum_rest(toks: &[Token], p: usize, acc: ArithExpr) -> (r: (usize, ArithExpr))
    requires
        p <= toks.len(),
    ensures
        (r.0 as int, r.1@) == grammar::sum_rest(toks@, p as int, acc@),
        p <= r.0 <= toks.len(),
    decreases toks@.len() - p, 3int,
{
    match op(toks, p, TokenKind::Plus) {
        Some(a) => match product(toks, a) {
            Some((n, r)) => sum_rest(toks, n, ArithExpr::Plus(Box::new(acc), Box::new(r))),
            None => (p, acc),
        },
        None => match op(toks, p, TokenKind::Minus) {
            Some(a) => match product(toks, a) {
                Some((n, r)) => sum_rest(toks, n, ArithExpr::Minus(Box::new(acc), Box::new(r))),
                None => (p, acc),
            },
            None => (p, acc),
        },
    }
}

fn product(toks: &[Token], p: usize) -> (res: Option<(usize, ArithExpr)>)
    ensures
        view_opt(res) == grammar::product(toks@, p as int),
        res matches Some((n, _)) ==> p < n <= toks.len(),
    decreases toks@.len() - p, 2int,
{
    match unary(toks, p) {
        Some((n, v)) => Some(product_rest(toks, n, v)),
        None => None,
    }
}

fn product_rest(toks: &[Token], p: usize, acc: ArithExpr) -> (r: (usize, ArithExpr))
    requires
        p <= toks.len(),
    ensures
        (r.0 as int, r.1@) == grammar::product_rest(toks@, p as int, acc@),
        p <= r.0 <= toks.len(),
    decreases toks@.len() - p, 2int,
{
    match op(toks, p, TokenKind::Multiply) {
        Some(a) => match unary(toks, a) {
            Some((n, r)) => product_rest(toks, n, ArithExpr::Mult(Box::new(acc), Box::new(r))),
            None => (p, acc),
        },
        None => match op(toks, p, TokenKind::Divide) {
            Some(a) => match unary(toks, a) {
                Some((n, r)) => product_rest(toks, n, ArithExpr::Div(Box::new(acc), Box::new(r))),
                None => (p, acc),
            },
            None => (p, acc),
        },
    }
}

fn unary(toks: &[Token], p: usize) -> (res: Option<(usize, ArithExpr)>)
    ensures
        view_opt(res) == grammar::unary(toks@, p as int),
        res matches Some((n, _)) ==> p < n <= toks.len(),
    decreases toks@.len() - p, 1int,
{
    match op(toks, p, TokenKind::Minus) {
        Some(a) => match unary(toks, a) {
            Some((n, v)) => Some((n, ArithExpr::Neg(Box::new(v)))),
            None => None,
        },
        None => arith_atom(toks, p),
    }
}

fn nat_literal(toks: &[Token], p: usize) -> (res: Option<(usize, ArithExpr)>)
    ensures
        view_opt(res) == grammar::nat_literal(toks@, p as int),
        res matches Some((n, _)) ==> p < n <= toks.len(),
{
    if p < toks.len() {
        match &toks[p] {
            Token::Nat(n) => Some((p + 1, ArithExpr::Nat(*n))),
            _ => None,
        }
    } else {
        None
    }
}

fn arith_lvalue(toks: &[Token], p: usize) -> (res: Option<(usize, ArithExpr)>)
    ensures
        view_opt(res) == grammar::arith_lvalue(toks@, p as int),
        res matches Some((n, _)) ==> p < n <= toks.len(),
{
    match lhs_parser(toks, p) {
        Some((n, l)) => Some((n, ArithExpr::Lvalue(Box::new(l)))),
        None => None,
    }
}

fn arith_sizeof(toks: &[Token], p: usize) -> (res: Option<(usize, ArithExpr)>)
    ensures
        view_opt(res) == grammar::arith_sizeof(toks@, p as int),
        res matches Some((n, _)) ==> p < n <= toks.len(),
{
    match op(toks, p, TokenKind::Sizeof) {
        Some(a) => match type_parser(toks, a) {
            Some((n, x)) => Some((n, ArithExpr::Sizeof(Box::new(x)))),
            None => None,
        },
        None => None,
    }
}

fn arith_atom(toks: &[Token], p: usize) -> (res: Option<(usize, ArithExpr)>)
    ensures
        view_opt(res) == grammar::arith_atom(toks@, p as int),
        res matches Some((n, _)) ==> p < n <= toks.len(),
    decreases toks@.len() - p, 0int,
{
    let r = nat_literal(toks, p);
    if r.is_some() {
        return r;
    }
    let r = arith_lvalue(toks, p);
    if r.is_some() {
        return r;
    }
    if let Some(a) = op(toks, p, TokenKind::LParen) {
        if let Some((b, v)) = sum(toks, a) {
            if let Some(c) = op(toks, b, TokenKind::RParen) {
                return Some((c, v));
            }
        }
    }
    arith_sizeof(toks, p)
}

// ---------------------------------------------------------------------------
// Boolean expressions
// ---------------------------------------------------------------------------

/// Reads a boolean expression at `pos`, skipping whitespace before and
/// after it: operands joined by `&&` (associating to the left), each under
/// zero or more `!`; the atoms are `true`, `false`, places, parenthesized
/// expressions and comparisons `A == B` and `A < B` of arithmetic
/// expressions, both of which build an equality node.
pub fn bool_parser(toks: &[Token], pos: usize) -> (res: Option<(usize, BoolExpr)>)
    ensures
        view_opt(res) == grammar::boolean(toks@, pos as int),
        res matches Some((n, _)) ==> pos < n <= toks.len(),
    decreases toks@.len() - pos,
{
    if at(toks, pos, TokenKind::Whitespace) {
        return bool_parser(toks, pos + 1);
    }
    match conj(toks, pos) {
        Some((n, v)) => {
            proof {
                lemma_skip_ws(toks@, n as int);
            }
            Some((skip_whitespace(toks, n), v))
        },
        None => None,
    }
}

fn conj(toks: &[Token], p: usize) -> (res: Option<(usize, BoolExpr)>)
    ensures
        view_opt(res) == grammar::conj(toks@, p as int),
        res matches Some((n, _)) ==> p < n <= toks.len(),
    decreases toks@.len() - p, 3int,
{
    match negation(toks, p) {
        Some((n, v)) => Some(conj_rest(toks, n, v)),
        None => None,
    }
}

fn conj_rest(toks: &[Token], p: usize, acc: BoolExpr) -> (r: (usize, BoolExpr))
    requires
        p <= toks.len(),
    ensures
        (r.0 as int, r.1@) == grammar::conj_rest(toks@, p as int, acc@),
        p <= r.0 <= toks.len(),
    decreases toks@.len() - p, 3int,
{
    match op(toks, p, TokenKind::And) {
        Some(a) => match negation(toks, a) {
            Some((n, r)) => conj_rest(toks, n, BoolExpr::And(Box::new(acc), Box::new(r))),
            None => (p, acc),
        },
        None => (p, acc),
    }
}

fn negation(toks: &[Token], p: usize) -> (res: Option<(usize, BoolExpr)>)
    ensures
        view_opt(res) == grammar::negation(toks@, p as int),
        res matches Some((n, _)) ==> p < n <= toks.len(),
    decreases toks@.len() - p, 2int,
{
    match op(toks, p, TokenKind::Bang) {
        Some(a) => match negation(toks, a) {
            Some((n, v)) => Some((n, BoolExpr::Bang(Box::new(v)))),
            None => None,
        },
        None => bool_atom(toks, p),
    }
}

fn bool_literal(toks: &[Token], p: usize) -> (res: Option<(usize, BoolExpr)>)
    ensures
        view_opt(res) == grammar::bool_literal(toks@, p as int),
        res matches Some((n, _)) ==> p < n <= toks.len(),
{
    if at(toks, p, TokenKind::True) {
        Some((p + 1, BoolExpr::True))
    } else if at(toks, p, TokenKind::False) {
        Some((p + 1, BoolExpr::False))
    } else {
        None
    }
}

fn bool_lvalue(toks: &[Token], p: usize) -> (res: Option<(usize, BoolExpr)>)
    ensures
        view_opt(res) == grammar::bool_lvalue(toks@, p as int),
        res matches Some((n, _)) ==> p < n <= toks.len(),
{
    match lhs_parser(toks, p) {
        Some((n, l)) => Some((n, BoolExpr::Lvalue(Box::new(l)))),
        None => None,
    }
}

/// Both comparison alternatives, in order; the left operand is read once.
fn comparison(toks: &[Token], p: usize) -> (res: Option<(usize, BoolExpr)>)
    ensures
        view_opt(res) == grammar::first(
            grammar::comparison_eq(toks@, p as int),
            grammar::comparison_lt(toks@, p as int),
        ),
        res matches Some((n, _)) ==> p < n <= toks.len(),
{
    let (a, x) = match arith_parser(toks, p) {
        Some(r) => r,
        None => return None,
    };
    match op2(toks, a, TokenKind::Equals, TokenKind::Equals) {
        Some(b) => match arith_parser(toks, b) {
            Some((c, y)) => Some((c, BoolExpr::Eq(Box::new(x), Box::new(y)))),
            None => None,
        },
        None => match op(toks, a, TokenKind::LessThan) {
            Some(b) => match arith_parser(toks, b) {
                Some((c, y)) => Some((c, BoolExpr::Eq(Box::new(x), Box::new(y)))),
                None => None,
            },
            None => None,
        },
    }
}

fn bool_atom(toks: &[Token], p: usize) -> (res: Option<(usize, BoolExpr)>)
    ensures
        view_opt(res) == grammar::bool_atom(toks@, p as int),
        res matches Some((n, _)) ==> p < n <= toks.len(),
    decreases toks@.len() - p, 1int,
{
    let r = bool_literal(toks, p);
    if r.is_some() {
        return r;
    }
    let r = bool_lvalue(toks, p);
    if r.is_some() {
        return r;
    }
    if let Some(a) = op(toks, p, TokenKind::LParen) {
        if let Some((b, v)) = conj(toks, a) {
            if let Some(c) = op(toks, b, TokenKind::RParen) {
                return Some((c, v));
            }
        }
    }
    comparison(toks, p)
}

// ---------------------------------------------------------------------------
// Expressions
// ---------------------------------------------------------------------------

/// Reads an expression at `pos`, skipping whitespace before and after it.
/// The alternatives are tried in order: a place, a tuple `[e e ...]`, a
/// parenthesized expression, `&x`, `&mut x`, a boolean expression, an
/// arithmetic expression; the first that matches is taken.
pub fn expr_parser(toks: &[Token], pos: usize) -> (res: Option<(usize, Expr)>)
    ensures
        view_opt(res) == grammar::expr(toks@, pos as int),
        res matches Some((n, _)) ==> pos < n <= toks.len(),
    decreases toks@.len() - pos,
{
    if at(toks, pos, TokenKind::Whitespace) {
        return expr_parser(toks, pos + 1);
    }
    match expr_inner(toks, pos) {
        Some((n, v)) => {
            proof {
                lemma_skip_ws(toks@, n as int);
            }
            Some((skip_whitespace(toks, n), v))
        },
        None => None,
    }
}

fn expr_lvalue(toks: &[Token], p: usize) -> (res: Option<(usize, Expr)>)
    ensures
        view_opt(res) == grammar::expr_lvalue(toks@, p as int),
        res matches Some((n, _)) ==> p < n <= toks.len(),
{
    match lhs_parser(toks, p) {
        Some((n, l)) => Some((n, Expr::Lvalue(Box::new(l)))),
        None => None,
    }
}

fn expr_ref(toks: &[Token], p: usize) -> (res: Option<(usize, Expr)>)
    ensures
        view_opt(res) == grammar::expr_ref(toks@, p as int),
        res matches Some((n, _)) ==> p < n <= toks.len(),
{
    match op(toks, p, TokenKind::Amp) {
        Some(a) => match variable(toks, a) {
            Some((n, s)) => Some((n, Expr::ImmutRef(s))),
            None => None,
        },
        None => None,
    }
}

fn expr_mut_ref(toks: &[Token], p: usize) -> (res: Option<(usize, Expr)>)
    ensures
        view_opt(res) == grammar::expr_mut_ref(toks@, p as int),
        res matches Some((n, _)) ==> p < n <= toks.len(),
{
    match op2(toks, p, TokenKind::Amp, TokenKind::Mut) {
        Some(a) => match variable(toks, a) {
            Some((n, s)) => Some((n, Expr::MutRef(s))),
            None => None,
        },
        None => None,
    }
}

fn expr_bool(toks: &[Token], p: usize) -> (res: Option<(usize, Expr)>)
    ensures
        view_opt(res) == grammar::expr_bool(toks@, p as int),
        res matches Some((n, _)) ==> p < n <= toks.len(),
{
    match bool_parser(toks, p) {
        Some((n, b)) => Some((n, Expr::Bool(Box::new(b)))),
        None => None,
    }
}

fn expr_int(toks: &[Token], p: usize) -> (res: Option<(usize, Expr)>)
    ensures
        view_opt(res) == grammar::expr_int(toks@, p as int),
        res matches Some((n, _)) ==> p < n <= toks.len(),
{
    match arith_parser(toks, p) {
        Some((n, a)) => Some((n, Expr::Int(Box::new(a)))),
        None => None,
    }
}

fn expr_inner(toks: &[Token], p: usize) -> (res: Option<(usize, Expr)>)
    ensures
        view_opt(res) == grammar::expr_inner(toks@, p as int),
        res matches Some((n, _)) ==> p < n <= toks.len(),
    decreases toks@.len() - p, 0int,
{
    let r = expr_lvalue(toks, p);
    if r.is_some() {
        return r;
    }
    if at(toks, p, TokenKind::LSqBra) {
        let empty = Vec::new();
        proof {
            assert(expr_seq_view(empty@) =~= seq![]);
        }
        let (b, items) = expr_items(toks, p + 1, empty);
        if at(toks, b, TokenKind::RSqBra) {
            proof {
                lemma_tuple_view(items);
            }
            return Some((b + 1, Expr::Tuple(items)));
        }
    }
    if let Some(a) = op(toks, p, TokenKind::LParen) {
        if let Some((b, v)) = expr_inner(toks, a) {
            if let Some(c) = op(toks, b, TokenKind::RParen) {
                return Some((c, v));
            }
        }
    }
    let r = expr_ref(toks, p);
    if r.is_some() {
        return r;
    }
    let r = expr_mut_ref(toks, p);
    if r.is_some() {
        return r;
    }
    let r = expr_bool(toks, p);
    if r.is_some() {
        return r;
    }
    expr_int(toks, p)
}

fn expr_items(toks: &[Token], p: usize, acc: Vec<Expr>) -> (r: (usize, Vec<Expr>))
    requires
        p <= toks.len(),
    ensures
        (r.0 as int, expr_seq_view(r.1@)) == grammar::expr_items(
            toks@,
            p as int,
            expr_seq_view(acc@),
        ),
        p <= r.0 <= toks.len(),
    decreases toks@.len() - p, 1int,
{
    match expr_inner(toks, p) {
        Some((n, e)) => {
            let ghost ev = e@;
            let ghost before = acc@;
            let mut acc = acc;
            acc.push(e);
            proof {
                assert(expr_seq_view(acc@) =~= expr_seq_view(before).push(ev));
            }
            expr_items(toks, n, acc)
        },
        None => (p, acc),
    }
}

// ---------------------------------------------------------------------------
// Commands
// ---------------------------------------------------------------------------

/// Reads a command at `pos`, skipping whitespace before and after it:
/// atomic commands joined by `;` (associating to the left). The atomic
/// commands are tried in order: `skip`, `let x : T = e`,
/// `let mut x : T = e`, `let x : T = alloc(A)`, `let mut x : T = alloc(A)`,
/// `place = e`, `free(place)`, `while B do C`, `if B then C else C`; the
/// bodies of `while` and `if` are whole sequences.
pub fn command_parser(toks: &[Token], pos: usize) -> (res: Option<(usize, Cmd)>)
    ensures
        view_opt(res) == grammar::command(toks@, pos as int),
        res matches Some((n, _)) ==> pos < n <= toks.len(),
    decreases toks@.len() - pos,
{
    if at(toks, pos, TokenKind::Whitespace) {
        return command_parser(toks, pos + 1);
    }
    match cmd_seq(toks, pos) {
        Some((n, v)) => {
            proof {
                lemma_skip_ws(toks@, n as int);
            }
            Some((skip_whitespace(toks, n), v))
        },
        None => None,
    }
}

/// Reads a whole program: a command starting at the first token and
/// reaching the end of the input.
pub fn parse_command(toks: &[Token]) -> (res: Result<Cmd, ParseError>)
    ensures
        program_view(res) == program(toks@),
{
    match command_parser(toks, 0) {
        Some((n, c)) => if n == toks.len() {
            Ok(c)
        } else {
            Err(ParseError::TrailingTokens(n))
        },
        None => Err(ParseError::NoParse),
    }
}

fn cmd_seq(toks: &[Token], p: usize) -> (res: Option<(usize, Cmd)>)
    ensures
        view_opt(res) == grammar::cmd_seq(toks@, p as int),
        res matches Some((n, _)) ==> p < n <= toks.len(),
    decreases toks@.len() - p, 2int,
{
    match cmd_atom(toks, p) {
        Some((n, c)) => Some(cmd_seq_rest(toks, n, c)),
        None => None,
    }
}

fn cmd_seq_rest(toks: &[Token], p: usize, acc: Cmd) -> (r: (usize, Cmd))
    requires
        p <= toks.len(),
    ensures
        (r.0 as int, r.1@) == grammar::cmd_seq_rest(toks@, p as int, acc@),
        p <= r.0 <= toks.len(),
    decreases toks@.len() - p, 2int,
{
    match op(toks, p, TokenKind::Semicolon) {
        Some(a) => match cmd_atom(toks, a) {
            Some((n, c)) => cmd_seq_rest(toks, n, Cmd::Sequence(Box::new(acc), Box::new(c))),
            None => (p, acc),
        },
        None => (p, acc),
    }
}

fn cmd_skip(toks: &[Token], p: usize) -> (res: Option<(usize, Cmd)>)
    ensures
        view_opt(res) == grammar::cmd_skip(toks@, p as int),
        res matches Some((n, _)) ==> p < n <= toks.len(),
{
    match op(toks, p, TokenKind::Skip) {
        Some(a) => Some((a, Cmd::Skip)),
        None => None,
    }
}

fn binding_head(toks: &[Token], p: usize) -> (res: Option<(usize, (String, Type))>)
    ensures
        match res {
            Some((n, (name, x))) => grammar::binding_head(toks@, p as int) == Some(
                (n as int, (name@, x@)),
            ),
            None => grammar::binding_head(toks@, p as int) is None,
        },
        res matches Some((n, _)) ==> p < n <= toks.len(),
{
    let (a, name) = match variable(toks, p) {
        Some(r) => r,
        None => return None,
    };
    let b = match op(toks, a, TokenKind::Colon) {
        Some(b) => b,
        None => return None,
    };
    let (c, x) = match type_parser(toks, b) {
        Some(r) => r,
        None => return None,
    };
    match op(toks, c, TokenKind::Equals) {
        Some(d) => Some((d, (name, x))),
        None => None,
    }
}

fn alloc_arg(toks: &[Token], p: usize) -> (res: Option<(usize, ArithExpr)>)
    ensures
        view_opt(res) == grammar::alloc_arg(toks@, p as int),
        res matches Some((n, _)) ==> p < n <= toks.len(),
{
    let a = match op(toks, p, TokenKind::Alloc) {
        Some(a) => a,
        None => return None,
    };
    let b = match op(toks, a, TokenKind::LParen) {
        Some(b) => b,
        None => return None,
    };
    let (c, x) = match arith_parser(toks, b) {
        Some(r) => r,
        None => return None,
    };
    match op(toks, c, TokenKind::RParen) {
        Some(d) => Some((d, x)),
        None => None,
    }
}

fn cmd_let(toks: &[Token], p: usize) -> (res: Option<(usize, Cmd)>)
    ensures
        view_opt(res) == grammar::cmd_let(toks@, p as int),
        res matches Some((n, _)) ==> p < n <= toks.len(),
{
    let a = match op(toks, p, TokenKind::Let) {
        Some(a) => a,
        None => return None,
    };
    let (b, (name, x)) = match binding_head(toks, a) {
        Some(r) => r,
        None => return None,
    };
    match expr_parser(toks, b) {
        Some((c, e)) => Some((c, Cmd::Let(name, Box::new(x), Box::new(e)))),
        None => None,
    }
}

fn cmd_let_mut(toks: &[Token], p: usize) -> (res: Option<(usize, Cmd)>)
    ensures
        view_opt(res) == grammar::cmd_let_mut(toks@, p as int),
        res matches Some((n, _)) ==> p < n <= toks.len(),
{
    let a = match op(toks, p, TokenKind::Let) {
        Some(a) => a,
        None => return None,
    };
    let a2 = match op(toks, a, TokenKind::Mut) {
        Some(a2) => a2,
        None => return None,
    };
    let (b, (name, x)) = match binding_head(toks, a2) {
        Some(r) => r,
        None => return None,
    };
    match expr_parser(toks, b) {
        Some((c, e)) => Some((c, Cmd::LetMut(name, Box::new(x), Box::new(e)))),
        None => None,
    }
}

fn cmd_let_alloc(toks: &[Token], p: usize) -> (res: Option<(usize, Cmd)>)
    ensures
        view_opt(res) == grammar::cmd_let_alloc(toks@, p as int),
        res matches Some((n, _)) ==> p < n <= toks.len(),
{
    let a = match op(toks, p, TokenKind::Let) {
        Some(a) => a,
        None => return None,
    };
    let (b, (name, x)) = match binding_head(toks, a) {
        Some(r) => r,
        None => return None,
    };
    match alloc_arg(toks, b) {
        Some((c, e)) => Some((c, Cmd::LetAlloc(name, Box::new(x), Box::new(e)))),
        None => None,
    }
}

fn cmd_let_mut_alloc(toks: &[Token], p: usize) -> (res: Option<(usize, Cmd)>)
    ensures
        view_opt(res) == grammar::cmd_let_mut_alloc(toks@, p as int),
        res matches Some((n, _)) ==> p < n <= toks.len(),
{
    let a = match op(toks, p, TokenKind::Let) {
        Some(a) => a,
        None => return None,
    };
    let a2 = match op(toks, a, TokenKind::Mut) {
        Some(a2) => a2,
        None => return None,
    };
    let (b, (name, x)) = match binding_head(toks, a2) {
        Some(r) => r,
        None => return None,
    };
    match alloc_arg(toks, b) {
        Some((c, e)) => Some((c, Cmd::LetMutAlloc(name, Box::new(x), Box::new(e)))),
        None => None,
    }
}

fn cmd_assign(toks: &[Token], p: usize) -> (res: Option<(usize, Cmd)>)
    ensures
        view_opt(res) == grammar::cmd_assign(toks@, p as int),
        res matches Some((n, _)) ==> p < n <= toks.len(),
{
    let (a, l) = match lhs_parser(toks, p) {
        Some(r) => r,
        None => return None,
    };
    let b = match op(toks, a, TokenKind::Equals) {
        Some(b) => b,
        None => return None,
    };
    match expr_parser(toks, b) {
        Some((c, e)) => Some((c, Cmd::Assign(Box::new(l), Box::new(e)))),
        None => None,
    }
}

fn cmd_free(toks: &[Token], p: usize) -> (res: Option<(usize, Cmd)>)
    ensures
        view_opt(res) == grammar::cmd_free(toks@, p as int),
        res matches Some((n, _)) ==> p < n <= toks.len(),
{
    let a = match op(toks, p, TokenKind::Free) {
        Some(a) => a,
        None => return None,
    };
    let b = match op(toks, a, TokenKind::LParen) {
        Some(b) => b,
        None => return None,
    };
    let (c, l) = match lhs_parser(toks, b) {
        Some(r) => r,
        None => return None,
    };
    match op(toks, c, TokenKind::RParen) {
        Some(d) => Some((d, Cmd::Free(Box::new(l)))),
        None => None,
    }
}

fn cmd_while(toks: &[Token], p: usize) -> (res: Option<(usize, Cmd)>)
    ensures
        view_opt(res) == grammar::cmd_while(toks@, p as int),
        res matches Some((n, _)) ==> p < n <= toks.len(),
    decreases toks@.len() - p, 0int,
{
    let a = match op(toks, p, TokenKind::While) {
        Some(a) => a,
        None => return None,
    };
    let (b, cond) = match bool_parser(toks, a) {
        Some(r) => r,
        None => return None,
    };
    let c = match op(toks, b, TokenKind::Do) {
        Some(c) => c,
        None => return None,
    };
    match cmd_seq(toks, c) {
        Some((d, body)) => Some((d, Cmd::While(Box::new(cond), Box::new(body)))),
        None => None,
    }
}

fn cmd_if(toks: &[Token], p: usize) -> (res: Option<(usize, Cmd)>)
    ensures
        view_opt(res) == grammar::cmd_if(toks@, p as int),
        res matches Some((n, _)) ==> p < n <= toks.len(),
    decreases toks@.len() - p, 0int,
{
    let a = match op(toks, p, TokenKind::If) {
        Some(a) => a,
        None => return None,
    };
    let (b, cond) = match bool_parser(toks, a) {
        Some(r) => r,
        None => return None,
    };
    let c = match op(toks, b, TokenKind::Then) {
        Some(c) => c,
        None => return None,
    };
    let (d, c1) = match cmd_seq(toks, c) {
        Some(r) => r,
        None => return None,
    };
    let e = match op(toks, d, TokenKind::Else) {
        Some(e) => e,
        None => return None,
    };
    match cmd_seq(toks, e) {
        Some((f, c2)) => Some((f, Cmd::If(Box::new(cond), Box::new(c1), Box::new(c2)))),
        None => None,
    }
}

fn cmd_atom(toks: &[Token], p: usize) -> (res: Option<(usize, Cmd)>)
    ensures
        view_opt(res) == grammar::cmd_atom(toks@, p as int),
        res matches Some((n, _)) ==> p < n <= toks.len(),
    decreases toks@.len() - p, 1int,
{
    let r = cmd_skip(toks, p);
    if r.is_some() {
        return r;
    }
    let r = cmd_let(toks, p);
    if r.is_some() {
        return r;
    }
    let r = cmd_let_mut(toks, p);
    if r.is_some() {
        return r;
    }
    let r = cmd_let_alloc(toks, p);
    if r.is_some() {
        return r;
    }
    let r = cmd_let_mut_alloc(toks, p);
    if r.is_some() {
        return r;
    }
    let r = cmd_assign(toks, p);
    if r.is_some() {
        return r;
    }
    let r = cmd_free(toks, p);
    if r.is_some() {
        return r;
    }
    let r = cmd_while(toks, p);
    if r.is_some() {
        return r;
    }
    cmd_if(toks, p)
}

} // verus!
