//! Printing syntax trees back to tokens, fully parenthesized, and the laws
//! that reading a printout gives back the tree.
use vstd::prelude::*;

use crate::ast::{
    arith_view, bool_view, lemma_prod_view, lhs_view, type_seq_view, type_view, ArithExpr,
    BoolExpr, Lhs, SpecArith, SpecBool, SpecType, Type,
};
use crate::embedding::{embedded, lemma_embedded_split};
use crate::grammar::{arith, arith_atom, bool_atom, boolean, comparison_eq, comparison_lt, conj, conj_rest, is_kind, lhs, negation, op, op2, product, product_rest, skip_ws, sum, sum_rest, ty, ty_core, ty_list, ty_list_rest, ty_loc, ty_prod, ty_ref, unary};
use crate::token::{kind_of, Token, TokenKind};

verus! {

// ---------------------------------------------------------------------------
// Printers
// ---------------------------------------------------------------------------

/// A place: one `*` per dereference, then the variable.
pub open spec fn lhs_tokens(l: Lhs) -> Seq<Token>
    decreases l,
{
    match l {
        Lhs::Var(s) => seq![Token::Var(s)],
        Lhs::Deref(b) => seq![Token::Multiply] + lhs_tokens(*b),
    }
}

/// A type, with no whitespace.
pub open spec fn type_tokens(t: Type) -> Seq<Token>
    decreases t,
{
    match t {
        Type::Int => seq![Token::Int],
        Type::Bool => seq![Token::Bool],
        Type::Ref { mutable, inner_type } => seq![
            Token::Ref,
            Token::LessThan,
            if mutable {
                Token::True
            } else {
                Token::False
            },
            Token::Comma,
        ] + type_tokens(*inner_type) + seq![Token::GreaterThan],
        Type::Loc(b) => seq![Token::Loc, Token::LessThan] + type_tokens(*b) + seq![
            Token::GreaterThan,
        ],
        Type::Prod(v) => seq![Token::LSqBra] + type_list_tokens(v@) + seq![Token::RSqBra],
    }
}

/// Types separated by commas.
pub open spec fn type_list_tokens(s: Seq<Type>) -> Seq<Token>
    decreases s,
{
    if s.len() == 0 {
        seq![]
    } else if s.len() == 1 {
        type_tokens(s[0])
    } else {
        type_tokens(s[0]) + seq![Token::Comma] + type_list_tokens(s.drop_first())
    }
}

/// `( s )`.
pub open spec fn parens(s: Seq<Token>) -> Seq<Token> {
    seq![Token::LParen] + s + seq![Token::RParen]
}

/// An arithmetic expression with every operation parenthesized.
pub open spec fn arith_tokens(a: ArithExpr) -> Seq<Token>
    decreases a,
{
    match a {
        ArithExpr::Nat(n) => seq![Token::Nat(n)],
        ArithExpr::Lvalue(l) => lhs_tokens(*l),
        ArithExpr::Sizeof(t) => seq![Token::Sizeof] + type_tokens(*t),
        ArithExpr::Neg(b) => seq![Token::Minus] + parens(arith_tokens(*b)),
        ArithExpr::Mult(b, c) => parens(arith_tokens(*b)) + seq![Token::Multiply] + parens(
            arith_tokens(*c),
        ),
        ArithExpr::Div(b, c) => parens(arith_tokens(*b)) + seq![Token::Divide] + parens(
            arith_tokens(*c),
        ),
        ArithExpr::Plus(b, c) => parens(arith_tokens(*b)) + seq![Token::Plus] + parens(
            arith_tokens(*c),
        ),
        ArithExpr::Minus(b, c) => parens(arith_tokens(*b)) + seq![Token::Minus] + parens(
            arith_tokens(*c),
        ),
    }
}

/// A boolean expression with every operation parenthesized; `==` is two
/// `=` tokens.
pub open spec fn bool_tokens(b: BoolExpr) -> Seq<Token>
    decreases b,
{
    match b {
        BoolExpr::True => seq![Token::True],
        BoolExpr::False => seq![Token::False],
        BoolExpr::Lvalue(l) => lhs_tokens(*l),
        BoolExpr::Bang(c) => seq![Token::Bang] + parens(bool_tokens(*c)),
        BoolExpr::And(c, d) => parens(bool_tokens(*c)) + seq![Token::And] + parens(
            bool_tokens(*d),
        ),
        BoolExpr::Eq(x, y) => parens(arith_tokens(*x)) + seq![Token::Equals, Token::Equals]
            + parens(arith_tokens(*y)),
    }
}

/// No comparison has a bare place as its left operand (such a place reads
/// as a boolean place, and the comparison is not reached).
pub open spec fn comparisons_readable(b: BoolExpr) -> bool
    decreases b,
{
    match b {
        BoolExpr::Eq(x, _) => !(*x is Lvalue),
        BoolExpr::Bang(c) => comparisons_readable(*c),
        BoolExpr::And(c, d) => comparisons_readable(*c) && comparisons_readable(*d),
        _ => true,
    }
}

// ---------------------------------------------------------------------------
// Shapes of printouts
// ---------------------------------------------------------------------------

proof fn lemma_split3(whole: Seq<Token>, u: Seq<Token>, p: int, a: Seq<Token>, b: Seq<Token>, c: Seq<Token>)
    requires
        embedded(whole, u, p),
        whole == a + b + c,
    ensures
        embedded(a, u, p),
        embedded(b, u, p + a.len()),
        embedded(c, u, p + a.len() + b.len()),
{
    lemma_embedded_split(whole, u, p, a + b, c);
    lemma_embedded_split(a + b, u, p, a, b);
}

proof fn lemma_lhs_shape(l: Lhs)
    ensures
        lhs_tokens(l).len() >= 1,
        kind_of(lhs_tokens(l)[0]) == TokenKind::Multiply || kind_of(lhs_tokens(l)[0])
            == TokenKind::Var,
    decreases l,
{
    if let Lhs::Deref(b) = l {
        lemma_lhs_shape(*b);
    }
}

pub open spec fn starts_type(k: TokenKind) -> bool {
    ||| k == TokenKind::Int
    ||| k == TokenKind::Bool
    ||| k == TokenKind::Ref
    ||| k == TokenKind::Loc
    ||| k == TokenKind::LSqBra
}

proof fn lemma_type_shape(t: Type)
    ensures
        type_tokens(t).len() >= 1,
        starts_type(kind_of(type_tokens(t)[0])),
{
}

proof fn lemma_type_list_shape(s: Seq<Type>)
    ensures
        s.len() > 0 ==> type_list_tokens(s).len() >= 1 && starts_type(
            kind_of(type_list_tokens(s)[0]),
        ),
{
    if s.len() > 0 {
        lemma_type_shape(s[0]);
        if s.len() > 1 {
            assert(type_list_tokens(s)[0] == type_tokens(s[0])[0]);
        }
    }
}

// ---------------------------------------------------------------------------
// Places and types read back
// ---------------------------------------------------------------------------

proof fn lemma_lhs_readback(u: Seq<Token>, p: int, l: Lhs)
    requires
        embedded(lhs_tokens(l), u, p),
    ensures
        lhs(u, p) == Some((p + lhs_tokens(l).len(), lhs_view(l))),
    decreases l,
{
    let s = lhs_tokens(l);
    assert(u[p + 0] == s[0]);
    match l {
        Lhs::Var(_) => {},
        Lhs::Deref(b) => {
            lemma_embedded_split(s, u, p, seq![Token::Multiply], lhs_tokens(*b));
            lemma_lhs_readback(u, p + 1, *b);
        },
    }
}

/// No whitespace at `e`: the end of the input or another token.
pub open spec fn no_ws_at(u: Seq<Token>, e: int) -> bool {
    !is_kind(u, e, TokenKind::Whitespace)
}

proof fn lemma_ty_fails_at_close(u: Seq<Token>, q: int)
    requires
        is_kind(u, q, TokenKind::RSqBra),
    ensures
        ty(u, q) is None,
{
    assert(skip_ws(u, q) == q);
    assert(ty_ref(u, q) is None);
    assert(ty_loc(u, q) is None);
    assert(ty_prod(u, q) is None);
    assert(ty_core(u, q) is None);
}

proof fn lemma_type_readback(u: Seq<Token>, p: int, t: Type)
    requires
        embedded(type_tokens(t), u, p),
        no_ws_at(u, p + type_tokens(t).len()),
    ensures
        ty(u, p) == Some((p + type_tokens(t).len(), type_view(t))),
    decreases t,
{
    let s = type_tokens(t);
    let e = p + s.len();
    assert(u[p + 0] == s[0]);
    assert(skip_ws(u, e) == e);
    match t {
        Type::Int => {},
        Type::Bool => {},
        Type::Ref { mutable, inner_type } => {
            let head = seq![
                Token::Ref,
                Token::LessThan,
                if mutable {
                    Token::True
                } else {
                    Token::False
                },
                Token::Comma,
            ];
            let ti = type_tokens(*inner_type);
            lemma_split3(s, u, p, head, ti, seq![Token::GreaterThan]);
            assert(u[p + 1] == head[1]);
            assert(u[p + 2] == head[2]);
            assert(u[p + 3] == head[3]);
            assert(u[p + 4 + ti.len() + 0] == seq![Token::GreaterThan][0]);
            lemma_type_readback(u, p + 4, *inner_type);
            assert(skip_ws(u, p + 1) == p + 1);
            assert(skip_ws(u, p + 2) == p + 2);
            assert(skip_ws(u, p + 4 + ti.len()) == p + 4 + ti.len());
            assert(ty_core(u, p) == Some((e, type_view(t))));
        },
        Type::Loc(b) => {
            let head = seq![Token::Loc, Token::LessThan];
            let ti = type_tokens(*b);
            lemma_split3(s, u, p, head, ti, seq![Token::GreaterThan]);
            assert(u[p + 1] == head[1]);
            assert(u[p + 2 + ti.len() + 0] == seq![Token::GreaterThan][0]);
            lemma_type_readback(u, p + 2, *b);
            lemma_type_shape(*b);
            assert(u[p + 2 + 0] == ti[0]);
            assert(skip_ws(u, p + 1) == p + 1);
            assert(skip_ws(u, p + 2) == p + 2);
            assert(skip_ws(u, p + 2 + ti.len()) == p + 2 + ti.len());
            assert(ty_core(u, p) == Some((e, type_view(t))));
        },
        Type::Prod(v) => {
            let items = type_list_tokens(v@);
            lemma_split3(s, u, p, seq![Token::LSqBra], items, seq![Token::RSqBra]);
            assert(u[p + 1 + items.len() + 0] == seq![Token::RSqBra][0]);
            lemma_type_list_shape(v@);
            if v@.len() > 0 {
                assert(u[p + 1 + 0] == items[0]);
            }
            assert(skip_ws(u, p + 1) == p + 1);
            lemma_type_list_readback(u, p + 1, v@);
            assert(skip_ws(u, p + 1 + items.len()) == p + 1 + items.len());
            lemma_prod_view(v);
            assert(ty_core(u, p) == Some((e, type_view(t))));
        },
    }
}

proof fn lemma_type_list_readback(u: Seq<Token>, q: int, s: Seq<Type>)
    requires
        embedded(type_list_tokens(s), u, q),
        is_kind(u, q + type_list_tokens(s).len(), TokenKind::RSqBra),
    ensures
        ty_list(u, q) == (q + type_list_tokens(s).len(), type_seq_view(s)),
    decreases s,
{
    if s.len() == 0 {
        lemma_ty_fails_at_close(u, q);
        assert(type_seq_view(s) =~= seq![]);
    } else {
        let t0 = type_tokens(s[0]);
        let r = s.drop_first();
        lemma_type_shape(s[0]);
        if s.len() == 1 {
            assert(type_list_tokens(s) == t0);
        } else {
            lemma_split3(type_list_tokens(s), u, q, t0, seq![Token::Comma], type_list_tokens(r));
            assert(u[q + t0.len() + 0] == seq![Token::Comma][0]);
        }
        lemma_type_readback(u, q, s[0]);
        lemma_type_list_rest_readback(u, q + t0.len(), r, seq![type_view(s[0])]);
        assert(seq![type_view(s[0])] + type_seq_view(r) =~= type_seq_view(s));
    }
}

proof fn lemma_type_list_rest_readback(u: Seq<Token>, e: int, r: Seq<Type>, acc: Seq<SpecType>)
    requires
        r.len() == 0 ==> is_kind(u, e, TokenKind::RSqBra),
        r.len() > 0 ==> {
            &&& is_kind(u, e, TokenKind::Comma)
            &&& embedded(type_list_tokens(r), u, e + 1)
            &&& is_kind(u, e + 1 + type_list_tokens(r).len(), TokenKind::RSqBra)
        },
    ensures
        ty_list_rest(u, e, acc) == (
            if r.len() > 0 {
                e + 1 + type_list_tokens(r).len()
            } else {
                e
            },
            acc + type_seq_view(r),
        ),
    decreases r,
{
    assert(skip_ws(u, e) == e);
    if r.len() == 0 {
        assert(acc + type_seq_view(r) =~= acc);
    } else {
        let t0 = type_tokens(r[0]);
        let rr = r.drop_first();
        lemma_type_shape(r[0]);
        lemma_type_list_shape(r);
        assert(u[e + 1 + 0] == type_list_tokens(r)[0]);
        assert(skip_ws(u, e + 1) == e + 1);
        if r.len() == 1 {
            assert(type_list_tokens(r) == t0);
        } else {
            lemma_split3(type_list_tokens(r), u, e + 1, t0, seq![Token::Comma], type_list_tokens(rr));
            assert(u[e + 1 + t0.len() + 0] == seq![Token::Comma][0]);
        }
        lemma_type_readback(u, e + 1, r[0]);
        lemma_type_list_rest_readback(u, e + 1 + t0.len(), rr, acc.push(type_view(r[0])));
        assert(acc.push(type_view(r[0])) + type_seq_view(rr) =~= acc + type_seq_view(r));
    }
}

// ---------------------------------------------------------------------------
// Arithmetic expressions read back
// ---------------------------------------------------------------------------

/// At `e` an arithmetic expression stops: no whitespace and no operator.
pub open spec fn arith_stops_at(u: Seq<Token>, e: int) -> bool {
    &&& no_ws_at(u, e)
    &&& !is_kind(u, e, TokenKind::Plus)
    &&& !is_kind(u, e, TokenKind::Minus)
    &&& !is_kind(u, e, TokenKind::Multiply)
    &&& !is_kind(u, e, TokenKind::Divide)
}

pub open spec fn starts_arith(k: TokenKind) -> bool {
    ||| k == TokenKind::Nat
    ||| k == TokenKind::Multiply
    ||| k == TokenKind::Var
    ||| k == TokenKind::Sizeof
    ||| k == TokenKind::Minus
    ||| k == TokenKind::LParen
}

pub(crate) proof fn lemma_arith_shape(a: ArithExpr)
    ensures
        arith_tokens(a).len() >= 1,
        starts_arith(kind_of(arith_tokens(a)[0])),
{
    if let ArithExpr::Lvalue(l) = a {
        lemma_lhs_shape(*l);
    }
}

proof fn lemma_arith_stops(u: Seq<Token>, e: int, acc: SpecArith)
    requires
        arith_stops_at(u, e),
    ensures
        product_rest(u, e, acc) == (e, acc),
        sum_rest(u, e, acc) == (e, acc),
{
    assert(skip_ws(u, e) == e);
}

#[verifier::rlimit(40)]
#[verifier::spinoff_prover]
proof fn lemma_arith_paren_readback(u: Seq<Token>, p: int, a: ArithExpr)
    requires
        embedded(parens(arith_tokens(a)), u, p),
        no_ws_at(u, p + arith_tokens(a).len() + 2),
    ensures
        unary(u, p) == Some((p + arith_tokens(a).len() + 2, arith_view(a))),
    decreases a, 2int,
{
    let s = arith_tokens(a);
    let e = p + s.len() + 2;
    lemma_split3(parens(s), u, p, seq![Token::LParen], s, seq![Token::RParen]);
    assert(u[p + 0] == seq![Token::LParen][0]);
    assert(u[p + 1 + s.len() + 0] == seq![Token::RParen][0]);
    lemma_arith_shape(a);
    assert(u[p + 1 + 0] == s[0]);
    lemma_arith_readback(u, p + 1, a);
    assert(skip_ws(u, p) == p);
    assert(skip_ws(u, p + 1) == p + 1);
    assert(skip_ws(u, p + 1 + s.len()) == p + 1 + s.len());
    assert(skip_ws(u, e) == e);
    assert(op(u, p, TokenKind::Minus) is None);
    assert(lhs(u, p) is None);
    assert(arith_atom(u, p) == Some((e, arith_view(a))));
}

#[verifier::rlimit(60)]
#[verifier::spinoff_prover]
pub(crate) proof fn lemma_arith_readback(u: Seq<Token>, p: int, a: ArithExpr)
    requires
        embedded(arith_tokens(a), u, p),
        arith_stops_at(u, p + arith_tokens(a).len()),
    ensures
        sum(u, p) == Some((p + arith_tokens(a).len(), arith_view(a))),
        arith(u, p) == Some((p + arith_tokens(a).len(), arith_view(a))),
    decreases a, 1int,
{
    let s = arith_tokens(a);
    let e = p + s.len();
    assert(u[p + 0] == s[0]);
    lemma_arith_shape(a);
    assert(skip_ws(u, p) == p);
    assert(skip_ws(u, e) == e);
    lemma_arith_stops(u, e, arith_view(a));
    match a {
        ArithExpr::Nat(n) => {
            assert(unary(u, p) == Some((e, arith_view(a))));
        },
        ArithExpr::Lvalue(l) => {
            lemma_lhs_readback(u, p, *l);
            assert(unary(u, p) == Some((e, arith_view(a))));
        },
        ArithExpr::Sizeof(t) => {
            let ts = type_tokens(*t);
            lemma_embedded_split(s, u, p, seq![Token::Sizeof], ts);
            lemma_type_shape(*t);
            assert(u[p + 1 + 0] == ts[0]);
            lemma_type_readback(u, p + 1, *t);
            assert(skip_ws(u, p + 1) == p + 1);
            assert(lhs(u, p) is None);
            assert(unary(u, p) == Some((e, arith_view(a))));
        },
        ArithExpr::Neg(b) => {
            lemma_embedded_split(s, u, p, seq![Token::Minus], parens(arith_tokens(*b)));
            lemma_arith_shape(*b);
            assert(u[p + 1 + 0] == parens(arith_tokens(*b))[0]);
            assert(skip_ws(u, p + 1) == p + 1);
            lemma_arith_paren_readback(u, p + 1, *b);
            assert(unary(u, p) == Some((e, arith_view(a))));
        },
        ArithExpr::Mult(b, c) => {
            lemma_binop_readback(u, p, a, *b, *c, Token::Multiply);
            let q = p + arith_tokens(*b).len() + 2;
            lemma_arith_stops(u, e, SpecArith::Mult(Box::new(arith_view(*b)), Box::new(arith_view(*c))));
            assert(product(u, p) == Some((e, arith_view(a))));
        },
        ArithExpr::Div(b, c) => {
            lemma_binop_readback(u, p, a, *b, *c, Token::Divide);
            lemma_arith_stops(u, e, SpecArith::Div(Box::new(arith_view(*b)), Box::new(arith_view(*c))));
            assert(product(u, p) == Some((e, arith_view(a))));
        },
        ArithExpr::Plus(b, c) => {
            lemma_binop_readback(u, p, a, *b, *c, Token::Plus);
            lemma_arith_stops(u, e, arith_view(*c));
            lemma_arith_stops(u, e, SpecArith::Plus(Box::new(arith_view(*b)), Box::new(arith_view(*c))));
        },
        ArithExpr::Minus(b, c) => {
            lemma_binop_readback(u, p, a, *b, *c, Token::Minus);
            lemma_arith_stops(u, e, arith_view(*c));
            lemma_arith_stops(u, e, SpecArith::Minus(Box::new(arith_view(*b)), Box::new(arith_view(*c))));
        },
    }
}

/// `(b) op (c)` laid out at `p`: both operands read back, and the operator
/// sits between them.
#[verifier::rlimit(40)]
#[verifier::spinoff_prover]
proof fn lemma_binop_readback(u: Seq<Token>, p: int, a: ArithExpr, b: ArithExpr, c: ArithExpr, opt: Token)
    requires
        a == ArithExpr::Mult(Box::new(b), Box::new(c)) || a == ArithExpr::Div(Box::new(b), Box::new(c))
            || a == ArithExpr::Plus(Box::new(b), Box::new(c)) || a == ArithExpr::Minus(Box::new(b), Box::new(c)),
        embedded(parens(arith_tokens(b)) + seq![opt] + parens(arith_tokens(c)), u, p),
        arith_stops_at(u, p + arith_tokens(b).len() + arith_tokens(c).len() + 5),
        kind_of(opt) != TokenKind::Whitespace,
    ensures
        ({
            let q = p + arith_tokens(b).len() + 2;
            let e = q + 1 + arith_tokens(c).len() + 2;
            &&& unary(u, p) == Some((q, arith_view(b)))
            &&& u[q] == opt
            &&& skip_ws(u, q) == q
            &&& skip_ws(u, q + 1) == q + 1
            &&& unary(u, q + 1) == Some((e, arith_view(c)))
            &&& product(u, q + 1) == Some((e, arith_view(c)))
        }),
    decreases a, 0int,
{
    let pb = parens(arith_tokens(b));
    let pc = parens(arith_tokens(c));
    let q = p + arith_tokens(b).len() + 2;
    let e = q + 1 + arith_tokens(c).len() + 2;
    lemma_split3(pb + seq![opt] + pc, u, p, pb, seq![opt], pc);
    assert(u[q + 0] == seq![opt][0]);
    assert(u[q + 1 + 0] == pc[0]);
    assert(decreases_to!(a => b) && decreases_to!(a => c)) by {
        match a {
            ArithExpr::Mult(x, y) => {
                assert(decreases_to!(a => x));
            },
            ArithExpr::Div(x, y) => {
                assert(decreases_to!(a => x));
            },
            ArithExpr::Plus(x, y) => {
                assert(decreases_to!(a => x));
            },
            ArithExpr::Minus(x, y) => {
                assert(decreases_to!(a => x));
            },
            _ => {},
        }
    }
    lemma_arith_paren_readback(u, p, b);
    lemma_arith_paren_readback(u, q + 1, c);
    assert(skip_ws(u, q) == q);
    assert(skip_ws(u, q + 1) == q + 1);
    lemma_arith_stops(u, e, arith_view(c));
}

// ---------------------------------------------------------------------------
// Boolean expressions read back
// ---------------------------------------------------------------------------

/// At `e` a boolean expression stops: no whitespace, no arithmetic operator
/// and no `&&`.
pub open spec fn bool_stops_at(u: Seq<Token>, e: int) -> bool {
    arith_stops_at(u, e) && !is_kind(u, e, TokenKind::And)
}

pub open spec fn starts_bool(k: TokenKind) -> bool {
    ||| k == TokenKind::True
    ||| k == TokenKind::False
    ||| k == TokenKind::Multiply
    ||| k == TokenKind::Var
    ||| k == TokenKind::Bang
    ||| k == TokenKind::LParen
}

proof fn lemma_bool_shape(b: BoolExpr)
    ensures
        bool_tokens(b).len() >= 1,
        starts_bool(kind_of(bool_tokens(b)[0])),
{
    if let BoolExpr::Lvalue(l) = b {
        lemma_lhs_shape(*l);
    }
}

/// A parenthesized arithmetic expression read as a whole arithmetic
/// expression.
#[verifier::spinoff_prover]
proof fn lemma_arith_paren_full(u: Seq<Token>, p: int, x: ArithExpr)
    requires
        embedded(parens(arith_tokens(x)), u, p),
        arith_stops_at(u, p + arith_tokens(x).len() + 2),
    ensures
        arith(u, p) == Some((p + arith_tokens(x).len() + 2, arith_view(x))),
{
    let e = p + arith_tokens(x).len() + 2;
    assert(u[p + 0] == parens(arith_tokens(x))[0]);
    lemma_arith_paren_readback(u, p, x);
    lemma_arith_stops(u, e, arith_view(x));
    assert(skip_ws(u, e) == e);
    assert(product(u, p) == Some((e, arith_view(x))));
    assert(sum(u, p) == Some((e, arith_view(x))));
}

/// An arithmetic expression that is not a bare place, followed by `)`, is
/// not read as a parenthesized boolean expression.
#[verifier::rlimit(60)]
#[verifier::spinoff_prover]
proof fn lemma_not_condition(u: Seq<Token>, q: int, x: ArithExpr)
    requires
        !(x is Lvalue),
        embedded(arith_tokens(x), u, q),
        is_kind(u, q + arith_tokens(x).len(), TokenKind::RParen),
    ensures
        match conj(u, q) {
            Some((n, _)) => op(u, n, TokenKind::RParen) is None,
            None => true,
        },
    decreases x,
{
    let s = arith_tokens(x);
    let e = q + s.len();
    assert(u[q + 0] == s[0]);
    lemma_arith_shape(x);
    assert(skip_ws(u, q) == q);
    assert(skip_ws(u, e) == e);
    lemma_arith_readback(u, q, x);
    assert(op2(u, e, TokenKind::Equals, TokenKind::Equals) is None);
    assert(op(u, e, TokenKind::LessThan) is None);
    assert(lhs(u, q) is None);
    match x {
        ArithExpr::Mult(b, c) => {
            lemma_not_condition_binop(u, q, x, *b, *c, Token::Multiply);
        },
        ArithExpr::Div(b, c) => {
            lemma_not_condition_binop(u, q, x, *b, *c, Token::Divide);
        },
        ArithExpr::Plus(b, c) => {
            lemma_not_condition_binop(u, q, x, *b, *c, Token::Plus);
        },
        ArithExpr::Minus(b, c) => {
            lemma_not_condition_binop(u, q, x, *b, *c, Token::Minus);
        },
        _ => {
            assert(bool_atom(u, q) is None);
        },
    }
}

#[verifier::rlimit(60)]
#[verifier::spinoff_prover]
proof fn lemma_not_condition_binop(
    u: Seq<Token>,
    q: int,
    x: ArithExpr,
    b: ArithExpr,
    c: ArithExpr,
    opt: Token,
)
    requires
        x == ArithExpr::Mult(Box::new(b), Box::new(c)) && opt == Token::Multiply
            || x == ArithExpr::Div(Box::new(b), Box::new(c)) && opt == Token::Divide
            || x == ArithExpr::Plus(Box::new(b), Box::new(c)) && opt == Token::Plus
            || x == ArithExpr::Minus(Box::new(b), Box::new(c)) && opt == Token::Minus,
        embedded(arith_tokens(x), u, q),
        is_kind(u, q + arith_tokens(x).len(), TokenKind::RParen),
        comparison_eq(u, q) is None,
        comparison_lt(u, q) is None,
        lhs(u, q) is None,
    ensures
        match conj(u, q) {
            Some((n, _)) => op(u, n, TokenKind::RParen) is None,
            None => true,
        },
    decreases x, 0int,
{
    let sb = arith_tokens(b);
    let pb = parens(sb);
    let pc = parens(arith_tokens(c));
    let r = q + sb.len() + 2;
    assert(arith_tokens(x) == pb + seq![opt] + pc);
    lemma_split3(arith_tokens(x), u, q, pb, seq![opt], pc);
    lemma_split3(pb, u, q, seq![Token::LParen], sb, seq![Token::RParen]);
    assert(u[q + 0] == seq![Token::LParen][0]);
    assert(u[q + 1 + sb.len() + 0] == seq![Token::RParen][0]);
    assert(u[r + 0] == seq![opt][0]);
    lemma_arith_shape(b);
    assert(u[q + 1 + 0] == sb[0]);
    assert(skip_ws(u, q) == q);
    assert(skip_ws(u, q + 1) == q + 1);
    assert(skip_ws(u, r) == r);
    assert(op(u, q, TokenKind::LParen) == Some(q + 1));
    assert(op(u, q, TokenKind::Bang) is None);
    assert(decreases_to!(x => b)) by {
        match x {
            ArithExpr::Mult(y, z) => {
                assert(decreases_to!(x => y));
            },
            ArithExpr::Div(y, z) => {
                assert(decreases_to!(x => y));
            },
            ArithExpr::Plus(y, z) => {
                assert(decreases_to!(x => y));
            },
            ArithExpr::Minus(y, z) => {
                assert(decreases_to!(x => y));
            },
            _ => {},
        }
    }
    if let ArithExpr::Lvalue(l) = b {
        let r0 = q + 1 + sb.len();
        lemma_lhs_readback(u, q + 1, *l);
        lemma_lhs_shape(*l);
        assert(op(u, q + 1, TokenKind::Bang) is None);
        assert(skip_ws(u, r0) == r0);
        assert(conj_rest(u, r0, SpecBool::Lvalue(Box::new(lhs_view(*l)))) == (
            r0,
            SpecBool::Lvalue(Box::new(lhs_view(*l))),
        ));
        assert(conj(u, q + 1) == Some((r0, SpecBool::Lvalue(Box::new(lhs_view(*l))))));
        assert(op(u, r0, TokenKind::RParen) == Some(r));
        let v = SpecBool::Lvalue(Box::new(lhs_view(*l)));
        assert(bool_atom(u, q) == Some((r, v)));
        assert(negation(u, q) == Some((r, v)));
        assert(conj_rest(u, r, v) == (r, v));
    } else {
        lemma_not_condition(u, q + 1, b);
        assert(bool_atom(u, q) is None);
    }
}

#[verifier::rlimit(40)]
#[verifier::spinoff_prover]
proof fn lemma_bool_paren_readback(u: Seq<Token>, p: int, c: BoolExpr)
    requires
        embedded(parens(bool_tokens(c)), u, p),
        no_ws_at(u, p + bool_tokens(c).len() + 2),
        comparisons_readable(c),
    ensures
        negation(u, p) == Some((p + bool_tokens(c).len() + 2, bool_view(c))),
    decreases c, 2int,
{
    let s = bool_tokens(c);
    let e = p + s.len() + 2;
    lemma_split3(parens(s), u, p, seq![Token::LParen], s, seq![Token::RParen]);
    assert(u[p + 0] == seq![Token::LParen][0]);
    assert(u[p + 1 + s.len() + 0] == seq![Token::RParen][0]);
    lemma_bool_shape(c);
    assert(u[p + 1 + 0] == s[0]);
    lemma_bool_readback(u, p + 1, c);
    assert(skip_ws(u, p) == p);
    assert(skip_ws(u, p + 1) == p + 1);
    assert(skip_ws(u, p + 1 + s.len()) == p + 1 + s.len());
    assert(skip_ws(u, e) == e);
    assert(lhs(u, p) is None);
    assert(bool_atom(u, p) == Some((e, bool_view(c))));
}

#[verifier::rlimit(60)]
#[verifier::spinoff_prover]
proof fn lemma_bool_readback(u: Seq<Token>, p: int, b: BoolExpr)
    requires
        embedded(bool_tokens(b), u, p),
        bool_stops_at(u, p + bool_tokens(b).len()),
        comparisons_readable(b),
    ensures
        conj(u, p) == Some((p + bool_tokens(b).len(), bool_view(b))),
        boolean(u, p) == Some((p + bool_tokens(b).len(), bool_view(b))),
    decreases b, 1int,
{
    let s = bool_tokens(b);
    let e = p + s.len();
    assert(u[p + 0] == s[0]);
    lemma_bool_shape(b);
    assert(skip_ws(u, p) == p);
    assert(skip_ws(u, e) == e);
    assert(conj_rest(u, e, bool_view(b)) == (e, bool_view(b)));
    match b {
        BoolExpr::True => {
            assert(negation(u, p) == Some((e, bool_view(b))));
        },
        BoolExpr::False => {
            assert(negation(u, p) == Some((e, bool_view(b))));
        },
        BoolExpr::Lvalue(l) => {
            lemma_lhs_readback(u, p, *l);
            assert(negation(u, p) == Some((e, bool_view(b))));
        },
        BoolExpr::Bang(c) => {
            lemma_embedded_split(s, u, p, seq![Token::Bang], parens(bool_tokens(*c)));
            assert(u[p + 1 + 0] == parens(bool_tokens(*c))[0]);
            assert(skip_ws(u, p + 1) == p + 1);
            lemma_bool_paren_readback(u, p + 1, *c);
            assert(negation(u, p) == Some((e, bool_view(b))));
        },
        BoolExpr::And(c, d) => {
            lemma_and_readback(u, p, b, *c, *d);
        },
        BoolExpr::Eq(x, y) => {
            let px = parens(arith_tokens(*x));
            let py = parens(arith_tokens(*y));
            let q = p + px.len();
            lemma_split3(s, u, p, px, seq![Token::Equals, Token::Equals], py);
            lemma_split3(px, u, p, seq![Token::LParen], arith_tokens(*x), seq![Token::RParen]);
            assert(u[q + 0] == seq![Token::Equals, Token::Equals][0]);
            assert(u[q + 1] == seq![Token::Equals, Token::Equals][1]);
            assert(u[q + 2 + 0] == py[0]);
            assert(u[p + 1 + arith_tokens(*x).len() + 0] == seq![Token::RParen][0]);
            lemma_arith_shape(*x);
            assert(u[p + 1 + 0] == arith_tokens(*x)[0]);
            assert(skip_ws(u, p + 1) == p + 1);
            assert(skip_ws(u, q) == q);
            assert(skip_ws(u, q + 2) == q + 2);
            lemma_not_condition(u, p + 1, *x);
            lemma_arith_paren_full(u, p, *x);
            lemma_arith_paren_full(u, q + 2, *y);
            assert(op(u, p, TokenKind::Bang) is None);
            assert(lhs(u, p) is None);
            assert(bool_atom(u, p) == Some((e, bool_view(b))));
        },
    }
}

#[verifier::rlimit(40)]
#[verifier::spinoff_prover]
proof fn lemma_and_readback(u: Seq<Token>, p: int, b: BoolExpr, c: BoolExpr, d: BoolExpr)
    requires
        b == BoolExpr::And(Box::new(c), Box::new(d)),
        embedded(bool_tokens(b), u, p),
        bool_stops_at(u, p + bool_tokens(b).len()),
        comparisons_readable(b),
    ensures
        conj(u, p) == Some((p + bool_tokens(b).len(), bool_view(b))),
    decreases b, 0int,
{
    let pc = parens(bool_tokens(c));
    let pd = parens(bool_tokens(d));
    let q = p + pc.len();
    let e = p + bool_tokens(b).len();
    lemma_split3(bool_tokens(b), u, p, pc, seq![Token::And], pd);
    assert(u[q + 0] == seq![Token::And][0]);
    assert(u[q + 1 + 0] == pd[0]);
    assert(skip_ws(u, q) == q);
    assert(skip_ws(u, q + 1) == q + 1);
    assert(skip_ws(u, e) == e);
    assert(decreases_to!(b => c) && decreases_to!(b => d));
    lemma_bool_paren_readback(u, p, c);
    lemma_bool_paren_readback(u, q + 1, d);
    let v = SpecBool::And(Box::new(bool_view(c)), Box::new(bool_view(d)));
    assert(conj_rest(u, e, v) == (e, v));
    assert(conj_rest(u, q, bool_view(c)) == (e, v));
}

// ---------------------------------------------------------------------------
// Laws
// ---------------------------------------------------------------------------

/// A type printed to tokens reads back as the same type.
pub proof fn law_type_readback(t: Type)
    ensures
        ty(type_tokens(t), 0) == Some((type_tokens(t).len() as int, type_view(t))),
{
    let s = type_tokens(t);
    assert(embedded(s, s, 0)) by {
        assert forall|i: int| 0 <= i < s.len() implies s[0 + i] == #[trigger] s[i] by {}
    }
    lemma_type_readback(s, 0, t);
}

/// An arithmetic expression printed to tokens, every operation in
/// parentheses, reads back as the same expression.
pub proof fn law_arith_readback(a: ArithExpr)
    ensures
        arith(arith_tokens(a), 0) == Some((arith_tokens(a).len() as int, arith_view(a))),
{
    let s = arith_tokens(a);
    assert(embedded(s, s, 0)) by {
        assert forall|i: int| 0 <= i < s.len() implies s[0 + i] == #[trigger] s[i] by {}
    }
    lemma_arith_readback(s, 0, a);
}

/// A boolean expression printed to tokens, every operation in
/// parentheses, reads back as the same expression, provided no comparison
/// has a bare place on its left.
pub proof fn law_bool_readback(b: BoolExpr)
    requires
        comparisons_readable(b),
    ensures
        boolean(bool_tokens(b), 0) == Some((bool_tokens(b).len() as int, bool_view(b))),
{
    let s = bool_tokens(b);
    assert(embedded(s, s, 0)) by {
        assert forall|i: int| 0 <= i < s.len() implies s[0 + i] == #[trigger] s[i] by {}
    }
    lemma_bool_readback(s, 0, b);
}


/// `(x) < (y)` laid out at `p` and followed by the end of a boolean
/// expression reads as the comparison of `x` with `y`.
#[verifier::rlimit(60)]
#[verifier::spinoff_prover]
proof fn lemma_lt_readback(u: Seq<Token>, p: int, x: ArithExpr, y: ArithExpr)
    requires
        !(x is Lvalue),
        embedded(parens(arith_tokens(x)) + seq![Token::LessThan] + parens(arith_tokens(y)), u, p),
        bool_stops_at(u, p + arith_tokens(x).len() + arith_tokens(y).len() + 5),
    ensures
        boolean(u, p) == Some(
            (
                p + arith_tokens(x).len() + arith_tokens(y).len() + 5,
                SpecBool::Eq(Box::new(arith_view(x)), Box::new(arith_view(y))),
            ),
        ),
{
    let px = parens(arith_tokens(x));
    let py = parens(arith_tokens(y));
    let q = p + px.len();
    let e = p + arith_tokens(x).len() + arith_tokens(y).len() + 5;
    let v = SpecBool::Eq(Box::new(arith_view(x)), Box::new(arith_view(y)));
    lemma_split3(px + seq![Token::LessThan] + py, u, p, px, seq![Token::LessThan], py);
    lemma_split3(px, u, p, seq![Token::LParen], arith_tokens(x), seq![Token::RParen]);
    assert(u[q + 0] == seq![Token::LessThan][0]);
    assert(u[q + 1 + 0] == py[0]);
    assert(u[p + 0] == seq![Token::LParen][0]);
    assert(u[p + 1 + arith_tokens(x).len() + 0] == seq![Token::RParen][0]);
    lemma_arith_shape(x);
    assert(u[p + 1 + 0] == arith_tokens(x)[0]);
    assert(skip_ws(u, p) == p);
    assert(skip_ws(u, p + 1) == p + 1);
    assert(skip_ws(u, q) == q);
    assert(skip_ws(u, q + 1) == q + 1);
    assert(skip_ws(u, e) == e);
    lemma_not_condition(u, p + 1, x);
    lemma_arith_paren_full(u, p, x);
    lemma_arith_paren_full(u, q + 1, y);
    assert(op2(u, q, TokenKind::Equals, TokenKind::Equals) is None);
    assert(comparison_eq(u, p) is None);
    assert(op(u, q, TokenKind::LessThan) == Some(q + 1));
    assert(comparison_lt(u, p) == Some((e, v)));
    assert(op(u, p, TokenKind::Bang) is None);
    assert(lhs(u, p) is None);
    assert(bool_atom(u, p) == Some((e, v)));
    assert(negation(u, p) == Some((e, v)));
    assert(conj_rest(u, e, v) == (e, v));
    assert(conj(u, p) == Some((e, v)));
}

/// `(x) < (y)` reads as the same comparison node as `(x) == (y)`: the
/// equality of the two operands, in order, provided the left operand is not
/// a bare place.
#[verifier::rlimit(40)]
#[verifier::spinoff_prover]
pub proof fn law_less_than_readback(x: ArithExpr, y: ArithExpr)
    requires
        !(x is Lvalue),
    ensures
        ({
            let s = parens(arith_tokens(x)) + seq![Token::LessThan] + parens(arith_tokens(y));
            boolean(s, 0) == Some(
                (
                    s.len() as int,
                    SpecBool::Eq(Box::new(arith_view(x)), Box::new(arith_view(y))),
                ),
            )
        }),
{
    let s = parens(arith_tokens(x)) + seq![Token::LessThan] + parens(arith_tokens(y));
    assert(embedded(s, s, 0)) by {
        assert forall|i: int| 0 <= i < s.len() implies s[0 + i] == #[trigger] s[i] by {}
    }
    lemma_lt_readback(s, 0, x, y);
}


// ---------------------------------------------------------------------------
// Associativity and precedence
// ---------------------------------------------------------------------------

/// `+` or `-`.
pub open spec fn is_additive(o: Token) -> bool {
    o == Token::Plus || o == Token::Minus
}

/// `*` or `/`.
pub open spec fn is_multiplicative(o: Token) -> bool {
    o == Token::Multiply || o == Token::Divide
}

/// The node that the binary operator `o` builds from its operands.
pub open spec fn arith_node(o: Token, a: SpecArith, b: SpecArith) -> SpecArith {
    if o == Token::Plus {
        SpecArith::Plus(Box::new(a), Box::new(b))
    } else if o == Token::Minus {
        SpecArith::Minus(Box::new(a), Box::new(b))
    } else if o == Token::Multiply {
        SpecArith::Mult(Box::new(a), Box::new(b))
    } else {
        SpecArith::Div(Box::new(a), Box::new(b))
    }
}

/// Where the parts of `(x) o1 (y) o2 (z)` sit in `u`, and what each
/// parenthesized operand reads.
#[verifier::rlimit(40)]
#[verifier::spinoff_prover]
proof fn lemma_three_operands(
    u: Seq<Token>,
    x: ArithExpr,
    y: ArithExpr,
    z: ArithExpr,
    o1: Token,
    o2: Token,
)
    requires
        is_additive(o1) || is_multiplicative(o1),
        is_additive(o2) || is_multiplicative(o2),
        u == parens(arith_tokens(x)) + seq![o1] + parens(arith_tokens(y)) + seq![o2] + parens(
            arith_tokens(z),
        ),
    ensures
        ({
            let e1 = arith_tokens(x).len() as int + 2;
            let e2 = e1 + 1 + arith_tokens(y).len() + 2;
            &&& u.len() == e2 + 1 + arith_tokens(z).len() + 2
            &&& u[e1] == o1
            &&& u[e2] == o2
            &&& skip_ws(u, 0) == 0
            &&& skip_ws(u, e1) == e1
            &&& skip_ws(u, e1 + 1) == e1 + 1
            &&& skip_ws(u, e2) == e2
            &&& skip_ws(u, e2 + 1) == e2 + 1
            &&& skip_ws(u, u.len() as int) == u.len()
            &&& unary(u, 0) == Some((e1, arith_view(x)))
            &&& unary(u, e1 + 1) == Some((e2, arith_view(y)))
            &&& unary(u, e2 + 1) == Some((u.len() as int, arith_view(z)))
        }),
{
    let px = parens(arith_tokens(x));
    let py = parens(arith_tokens(y));
    let pz = parens(arith_tokens(z));
    let e1 = px.len() as int;
    let e2 = e1 + 1 + py.len();
    let e3 = u.len() as int;
    assert(embedded(u, u, 0)) by {
        assert forall|i: int| 0 <= i < u.len() implies u[0 + i] == #[trigger] u[i] by {}
    }
    lemma_split3(u, u, 0, px + seq![o1] + py, seq![o2], pz);
    lemma_split3(px + seq![o1] + py, u, 0, px, seq![o1], py);
    assert(u[e1 + 0] == seq![o1][0]);
    assert(u[e2 + 0] == seq![o2][0]);
    assert(u[0int] == px[0]);
    assert(u[e1 + 1 + 0] == py[0]);
    assert(u[e2 + 1 + 0] == pz[0]);
    lemma_arith_paren_readback(u, 0, x);
    lemma_arith_paren_readback(u, e1 + 1, y);
    lemma_arith_paren_readback(u, e2 + 1, z);
}

/// `(x) o1 (y) o2 (z)`, each operator one of `+ - * /`: `*` and `/` bind
/// tighter than `+` and `-`, and operators of the same strength associate
/// to the left.
#[verifier::rlimit(60)]
#[verifier::spinoff_prover]
pub proof fn law_arith_three_operands(
    x: ArithExpr,
    y: ArithExpr,
    z: ArithExpr,
    o1: Token,
    o2: Token,
)
    requires
        is_additive(o1) || is_multiplicative(o1),
        is_additive(o2) || is_multiplicative(o2),
    ensures
        ({
            let u = parens(arith_tokens(x)) + seq![o1] + parens(arith_tokens(y)) + seq![o2]
                + parens(arith_tokens(z));
            let (xv, yv, zv) = (arith_view(x), arith_view(y), arith_view(z));
            arith(u, 0) == Some(
                (
                    u.len() as int,
                    if is_additive(o1) && is_multiplicative(o2) {
                        arith_node(o1, xv, arith_node(o2, yv, zv))
                    } else {
                        arith_node(o2, arith_node(o1, xv, yv), zv)
                    },
                ),
            )
        }),
{
    let u = parens(arith_tokens(x)) + seq![o1] + parens(arith_tokens(y)) + seq![o2] + parens(
        arith_tokens(z),
    );
    let (xv, yv, zv) = (arith_view(x), arith_view(y), arith_view(z));
    let e1 = arith_tokens(x).len() as int + 2;
    let e2 = e1 + 1 + arith_tokens(y).len() + 2;
    let e3 = u.len() as int;
    lemma_three_operands(u, x, y, z, o1, o2);
    if is_additive(o1) {
        assert(product_rest(u, e1, xv) == (e1, xv));
        assert(product(u, 0) == Some((e1, xv)));
        if is_additive(o2) {
            assert(product_rest(u, e2, yv) == (e2, yv));
            assert(product(u, e1 + 1) == Some((e2, yv)));
            assert(product_rest(u, e3, zv) == (e3, zv));
            assert(product(u, e2 + 1) == Some((e3, zv)));
            let v = arith_node(o2, arith_node(o1, xv, yv), zv);
            assert(sum_rest(u, e3, v) == (e3, v));
            assert(sum_rest(u, e2, arith_node(o1, xv, yv)) == (e3, v));
            assert(sum_rest(u, e1, xv) == (e3, v));
        } else {
            let w = arith_node(o2, yv, zv);
            assert(product_rest(u, e3, w) == (e3, w));
            assert(product_rest(u, e2, yv) == (e3, w));
            assert(product(u, e1 + 1) == Some((e3, w)));
            let v = arith_node(o1, xv, w);
            assert(sum_rest(u, e3, v) == (e3, v));
            assert(sum_rest(u, e1, xv) == (e3, v));
        }
    } else {
        let w = arith_node(o1, xv, yv);
        if is_additive(o2) {
            assert(product_rest(u, e2, w) == (e2, w));
            assert(product_rest(u, e1, xv) == (e2, w));
            assert(product(u, 0) == Some((e2, w)));
            assert(product_rest(u, e3, zv) == (e3, zv));
            assert(product(u, e2 + 1) == Some((e3, zv)));
            let v = arith_node(o2, w, zv);
            assert(sum_rest(u, e3, v) == (e3, v));
            assert(sum_rest(u, e2, w) == (e3, v));
        } else {
            let v = arith_node(o2, w, zv);
            assert(product_rest(u, e3, v) == (e3, v));
            assert(product_rest(u, e2, w) == (e3, v));
            assert(product_rest(u, e1, xv) == (e3, v));
            assert(product(u, 0) == Some((e3, v)));
            assert(sum_rest(u, e3, v) == (e3, v));
        }
    }
}


/// `(b) && (c) && (d)` associates to the left.
#[verifier::rlimit(60)]
#[verifier::spinoff_prover]
pub proof fn law_and_left_assoc(b: BoolExpr, c: BoolExpr, d: BoolExpr)
    requires
        comparisons_readable(b),
        comparisons_readable(c),
        comparisons_readable(d),
    ensures
        ({
            let u = parens(bool_tokens(b)) + seq![Token::And] + parens(bool_tokens(c)) + seq![
                Token::And,
            ] + parens(bool_tokens(d));
            boolean(u, 0) == Some(
                (
                    u.len() as int,
                    SpecBool::And(
                        Box::new(
                            SpecBool::And(Box::new(bool_view(b)), Box::new(bool_view(c))),
                        ),
                        Box::new(bool_view(d)),
                    ),
                ),
            )
        }),
{
    let pb = parens(bool_tokens(b));
    let pc = parens(bool_tokens(c));
    let pd = parens(bool_tokens(d));
    let u = pb + seq![Token::And] + pc + seq![Token::And] + pd;
    let e1 = pb.len() as int;
    let e2 = e1 + 1 + pc.len();
    let e3 = u.len() as int;
    let w = SpecBool::And(Box::new(bool_view(b)), Box::new(bool_view(c)));
    let v = SpecBool::And(Box::new(w), Box::new(bool_view(d)));
    assert(embedded(u, u, 0)) by {
        assert forall|i: int| 0 <= i < u.len() implies u[0 + i] == #[trigger] u[i] by {}
    }
    lemma_split3(u, u, 0, pb + seq![Token::And] + pc, seq![Token::And], pd);
    lemma_split3(pb + seq![Token::And] + pc, u, 0, pb, seq![Token::And], pc);
    assert(u[e1 + 0] == seq![Token::And][0]);
    assert(u[e2 + 0] == seq![Token::And][0]);
    assert(u[0int] == pb[0]);
    assert(u[e1 + 1 + 0] == pc[0]);
    assert(u[e2 + 1 + 0] == pd[0]);
    assert(skip_ws(u, 0) == 0);
    assert(skip_ws(u, e1) == e1);
    assert(skip_ws(u, e1 + 1) == e1 + 1);
    assert(skip_ws(u, e2) == e2);
    assert(skip_ws(u, e2 + 1) == e2 + 1);
    assert(skip_ws(u, e3) == e3);
    lemma_bool_paren_readback(u, 0, b);
    lemma_bool_paren_readback(u, e1 + 1, c);
    lemma_bool_paren_readback(u, e2 + 1, d);
    assert(conj_rest(u, e3, v) == (e3, v));
    assert(conj_rest(u, e2, w) == (e3, v));
    assert(conj_rest(u, e1, bool_view(b)) == (e3, v));
    assert(conj(u, 0) == Some((e3, v)));
}

/// `!` binds tighter than `&&`: `!(b) && (c)` is the conjunction of the
/// negation of `b` with `c`.
#[verifier::rlimit(60)]
#[verifier::spinoff_prover]
pub proof fn law_not_binds_tighter(b: BoolExpr, c: BoolExpr)
    requires
        comparisons_readable(b),
        comparisons_readable(c),
    ensures
        ({
            let u = seq![Token::Bang] + parens(bool_tokens(b)) + seq![Token::And] + parens(
                bool_tokens(c),
            );
            boolean(u, 0) == Some(
                (
                    u.len() as int,
                    SpecBool::And(
                        Box::new(SpecBool::Bang(Box::new(bool_view(b)))),
                        Box::new(bool_view(c)),
                    ),
                ),
            )
        }),
{
    let pb = parens(bool_tokens(b));
    let pc = parens(bool_tokens(c));
    let u = seq![Token::Bang] + pb + seq![Token::And] + pc;
    let e1 = 1 + pb.len() as int;
    let e2 = u.len() as int;
    let nb = SpecBool::Bang(Box::new(bool_view(b)));
    let v = SpecBool::And(Box::new(nb), Box::new(bool_view(c)));
    assert(embedded(u, u, 0)) by {
        assert forall|i: int| 0 <= i < u.len() implies u[0 + i] == #[trigger] u[i] by {}
    }
    lemma_split3(u, u, 0, seq![Token::Bang] + pb, seq![Token::And], pc);
    lemma_split3(seq![Token::Bang] + pb, u, 0, seq![Token::Bang], pb, seq![]);
    assert(u[0int] == Token::Bang);
    assert(u[e1 + 0] == seq![Token::And][0]);
    assert(u[1int] == pb[0]);
    assert(u[e1 + 1 + 0] == pc[0]);
    assert(skip_ws(u, 0) == 0);
    assert(skip_ws(u, 1) == 1);
    assert(skip_ws(u, e1) == e1);
    assert(skip_ws(u, e1 + 1) == e1 + 1);
    assert(skip_ws(u, e2) == e2);
    lemma_bool_paren_readback(u, 1, b);
    lemma_bool_paren_readback(u, e1 + 1, c);
    assert(op(u, 0, TokenKind::Bang) == Some(1int));
    assert(negation(u, 0) == Some((e1, nb)));
    assert(conj_rest(u, e2, v) == (e2, v));
    assert(conj_rest(u, e1, nb) == (e2, v));
    assert(conj(u, 0) == Some((e2, v)));
}


/// `k` tokens `t`.
pub open spec fn repeated(k: nat, t: Token) -> Seq<Token> {
    Seq::new(k, |i: int| t)
}

/// `v` under `k` negations.
pub open spec fn negated(k: nat, v: SpecBool) -> SpecBool
    decreases k,
{
    if k == 0 {
        v
    } else {
        SpecBool::Bang(Box::new(negated((k - 1) as nat, v)))
    }
}

/// `a` under `k` arithmetic negations.
pub open spec fn minus_applied(k: nat, a: SpecArith) -> SpecArith
    decreases k,
{
    if k == 0 {
        a
    } else {
        SpecArith::Neg(Box::new(minus_applied((k - 1) as nat, a)))
    }
}

/// `!`^k `(b)` laid out at `p` reads as `b` under `k` negations.
proof fn lemma_bangs_readback(u: Seq<Token>, p: int, k: nat, b: BoolExpr)
    requires
        embedded(repeated(k, Token::Bang) + parens(bool_tokens(b)), u, p),
        no_ws_at(u, p + k + bool_tokens(b).len() + 2),
        comparisons_readable(b),
    ensures
        negation(u, p) == Some((p + k + bool_tokens(b).len() + 2, negated(k, bool_view(b)))),
    decreases k,
{
    let pb = parens(bool_tokens(b));
    lemma_embedded_split(repeated(k, Token::Bang) + pb, u, p, repeated(k, Token::Bang), pb);
    if k == 0 {
        lemma_bool_paren_readback(u, p, b);
    } else {
        let rest = repeated((k - 1) as nat, Token::Bang) + pb;
        assert(repeated(k, Token::Bang) + pb =~= seq![Token::Bang] + rest);
        lemma_embedded_split(seq![Token::Bang] + rest, u, p, seq![Token::Bang], rest);
        assert(u[p + 0] == seq![Token::Bang][0]);
        assert(u[p + 1 + 0] == rest[0]);
        assert(skip_ws(u, p) == p);
        assert(skip_ws(u, p + 1) == p + 1);
        lemma_bangs_readback(u, p + 1, (k - 1) as nat, b);
        assert(op(u, p, TokenKind::Bang) == Some(p + 1));
    }
}

/// `-`^k `(a)` laid out at `p` reads as `a` under `k` negations.
proof fn lemma_minuses_readback(u: Seq<Token>, p: int, k: nat, a: ArithExpr)
    requires
        embedded(repeated(k, Token::Minus) + parens(arith_tokens(a)), u, p),
        no_ws_at(u, p + k + arith_tokens(a).len() + 2),
    ensures
        unary(u, p) == Some((p + k + arith_tokens(a).len() + 2, minus_applied(k, arith_view(a)))),
    decreases k,
{
    let pa = parens(arith_tokens(a));
    lemma_embedded_split(repeated(k, Token::Minus) + pa, u, p, repeated(k, Token::Minus), pa);
    if k == 0 {
        lemma_arith_paren_readback(u, p, a);
    } else {
        let rest = repeated((k - 1) as nat, Token::Minus) + pa;
        assert(repeated(k, Token::Minus) + pa =~= seq![Token::Minus] + rest);
        lemma_embedded_split(seq![Token::Minus] + rest, u, p, seq![Token::Minus], rest);
        assert(u[p + 0] == seq![Token::Minus][0]);
        assert(u[p + 1 + 0] == rest[0]);
        assert(skip_ws(u, p) == p);
        assert(skip_ws(u, p + 1) == p + 1);
        lemma_minuses_readback(u, p + 1, (k - 1) as nat, a);
        assert(op(u, p, TokenKind::Minus) == Some(p + 1));
    }
}

/// Each `!` before a parenthesized boolean expression negates it once:
/// `!`^k `(b)` reads as `b` under exactly `k` negations.
pub proof fn law_repeated_negation(k: nat, b: BoolExpr)
    requires
        comparisons_readable(b),
    ensures
        ({
            let u = repeated(k, Token::Bang) + parens(bool_tokens(b));
            boolean(u, 0) == Some((u.len() as int, negated(k, bool_view(b))))
        }),
{
    let u = repeated(k, Token::Bang) + parens(bool_tokens(b));
    let e = u.len() as int;
    let v = negated(k, bool_view(b));
    assert(embedded(u, u, 0)) by {
        assert forall|i: int| 0 <= i < u.len() implies u[0 + i] == #[trigger] u[i] by {}
    }
    lemma_bangs_readback(u, 0, k, b);
    assert(u[0int] == (if k == 0 { Token::LParen } else { Token::Bang }));
    assert(skip_ws(u, 0) == 0);
    assert(skip_ws(u, e) == e);
    assert(conj_rest(u, e, v) == (e, v));
    assert(conj(u, 0) == Some((e, v)));
}

/// Each `-` before a parenthesized arithmetic expression negates it once:
/// `-`^k `(a)` reads as `a` under exactly `k` negations.
pub proof fn law_repeated_minus(k: nat, a: ArithExpr)
    ensures
        ({
            let u = repeated(k, Token::Minus) + parens(arith_tokens(a));
            arith(u, 0) == Some((u.len() as int, minus_applied(k, arith_view(a))))
        }),
{
    let u = repeated(k, Token::Minus) + parens(arith_tokens(a));
    let e = u.len() as int;
    let v = minus_applied(k, arith_view(a));
    assert(embedded(u, u, 0)) by {
        assert forall|i: int| 0 <= i < u.len() implies u[0 + i] == #[trigger] u[i] by {}
    }
    lemma_minuses_readback(u, 0, k, a);
    assert(u[0int] == (if k == 0 { Token::LParen } else { Token::Minus }));
    assert(skip_ws(u, 0) == 0);
    assert(skip_ws(u, e) == e);
    lemma_arith_stops(u, e, v);
    assert(product(u, 0) == Some((e, v)));
    assert(sum(u, 0) == Some((e, v)));
}

} // verus!
