//! The grammar of the language as a parsing-expression grammar over token
//! sequences. Every parser is a function from a token sequence `t` and a
//! start position `p` to either `None` (no match) or `Some((n, v))`: the
//! position just after the match and the value built. Alternatives are
//! ordered and committed (the first that matches wins), repetitions are
//! greedy, and nothing is re-parsed once a repetition has stopped.
use vstd::prelude::*;

use crate::ast::{SpecArith, SpecBool, SpecCmd, SpecExpr, SpecLhs, SpecType};
use crate::token::{kind_of, Token, TokenKind};

verus! {

// ---------------------------------------------------------------------------
// Primitives
// ---------------------------------------------------------------------------

/// Position `p` holds a token of kind `k`.
pub open spec fn is_kind(t: Seq<Token>, p: int, k: TokenKind) -> bool {
    0 <= p < t.len() && kind_of(t[p]) == k
}

/// The first position at or after `p` that does not hold whitespace.
pub open spec fn skip_ws(t: Seq<Token>, p: int) -> int
    decreases t.len() - p,
{
    if is_kind(t, p, TokenKind::Whitespace) {
        skip_ws(t, p + 1)
    } else {
        p
    }
}

/// A token of kind `k`, with whitespace allowed on both sides.
pub open spec fn op(t: Seq<Token>, p: int, k: TokenKind) -> Option<int> {
    let q = skip_ws(t, p);
    if is_kind(t, q, k) {
        Some(skip_ws(t, q + 1))
    } else {
        None
    }
}

/// Two adjacent tokens of kinds `k1` and `k2`, with whitespace allowed
/// around the pair (not between them).
pub open spec fn op2(t: Seq<Token>, p: int, k1: TokenKind, k2: TokenKind) -> Option<int> {
    let q = skip_ws(t, p);
    if is_kind(t, q, k1) && is_kind(t, q + 1, k2) {
        Some(skip_ws(t, q + 2))
    } else {
        None
    }
}

/// A variable token; its name.
pub open spec fn variable(t: Seq<Token>, p: int) -> Option<(int, Seq<char>)> {
    if 0 <= p < t.len() {
        match t[p] {
            Token::Var(s) => Some((p + 1, s@)),
            _ => None,
        }
    } else {
        None
    }
}

/// Ordered choice: `a` if it matched, else `b`.
pub open spec fn first<V>(a: Option<V>, b: Option<V>) -> Option<V> {
    match a {
        Some(_) => a,
        None => b,
    }
}

/// A sub-result kept only if it ends strictly after `p` and within the
/// input. Every parser's result does (`laws::law_guards_never_fire`), so this
/// never discards a match; it lets the recursive definitions terminate.
pub open spec fn advanced<V>(r: Option<(int, V)>, p: int, len: int) -> Option<(int, V)> {
    match r {
        Some((n, _)) => if p < n <= len {
            r
        } else {
            None
        },
        None => None,
    }
}

pub proof fn lemma_skip_ws(t: Seq<Token>, p: int)
    ensures
        p <= skip_ws(t, p),
        skip_ws(t, p) > p ==> skip_ws(t, p) <= t.len(),
        !is_kind(t, skip_ws(t, p), TokenKind::Whitespace),
        forall|i: int| p <= i < skip_ws(t, p) ==> is_kind(t, i, TokenKind::Whitespace),
    decreases t.len() - p,
{
    if is_kind(t, p, TokenKind::Whitespace) {
        lemma_skip_ws(t, p + 1);
    }
}

pub proof fn lemma_op(t: Seq<Token>, p: int, k: TokenKind)
    ensures
        op(t, p, k) matches Some(a) ==> 0 <= p < a <= t.len(),
{
    lemma_skip_ws(t, p);
    let q = skip_ws(t, p);
    if is_kind(t, q, k) {
        lemma_skip_ws(t, q + 1);
    }
}

pub proof fn lemma_op2(t: Seq<Token>, p: int, k1: TokenKind, k2: TokenKind)
    ensures
        op2(t, p, k1, k2) matches Some(a) ==> 0 <= p < a <= t.len(),
{
    lemma_skip_ws(t, p);
    let q = skip_ws(t, p);
    if is_kind(t, q, k1) && is_kind(t, q + 1, k2) {
        lemma_skip_ws(t, q + 2);
    }
}

// ---------------------------------------------------------------------------
// Places: `*`* variable
// ---------------------------------------------------------------------------

/// Zero or more `*` tokens followed by a variable (no whitespace allowed);
/// each `*` wraps the place in a dereference.
pub open spec fn lhs(t: Seq<Token>, p: int) -> Option<(int, SpecLhs)>
    decreases t.len() - p,
{
    if is_kind(t, p, TokenKind::Multiply) {
        match lhs(t, p + 1) {
            Some((n, l)) => Some((n, SpecLhs::Deref(Box::new(l)))),
            None => None,
        }
    } else {
        match variable(t, p) {
            Some((n, s)) => Some((n, SpecLhs::Var(s))),
            None => None,
        }
    }
}

// ---------------------------------------------------------------------------
// Types
// ---------------------------------------------------------------------------

/// A type, with whitespace allowed on both sides.
pub open spec fn ty(t: Seq<Token>, p: int) -> Option<(int, SpecType)>
    decreases t.len() - p, 2int,
{
    if is_kind(t, p, TokenKind::Whitespace) {
        ty(t, p + 1)
    } else {
        match ty_core(t, p) {
            Some((n, v)) => Some((skip_ws(t, n), v)),
            None => None,
        }
    }
}

/// `int` or `bool`.
pub open spec fn ty_atom(t: Seq<Token>, p: int) -> Option<(int, SpecType)> {
    if is_kind(t, p, TokenKind::Int) {
        Some((p + 1, SpecType::Int))
    } else if is_kind(t, p, TokenKind::Bool) {
        Some((p + 1, SpecType::Bool))
    } else {
        None
    }
}

/// The alternatives of a type, in order: atom, reference, location, product.
pub open spec fn ty_core(t: Seq<Token>, p: int) -> Option<(int, SpecType)>
    decreases t.len() - p, 1int,
{
    first(ty_atom(t, p), first(ty_ref(t, p), first(ty_loc(t, p), ty_prod(t, p))))
}

/// `ref < true|false , T >`: no whitespace between `ref` and `<`'s padding,
/// nor around the flag or before the comma.
pub open spec fn ty_ref(t: Seq<Token>, p: int) -> Option<(int, SpecType)>
    decreases t.len() - p, 0int,
{
    if is_kind(t, p, TokenKind::Ref) {
        match op(t, p + 1, TokenKind::LessThan) {
            Some(a) => {
                let flag = if is_kind(t, a, TokenKind::True) {
                    Some(true)
                } else if is_kind(t, a, TokenKind::False) {
                    Some(false)
                } else {
                    None
                };
                match flag {
                    Some(m) => if is_kind(t, a + 1, TokenKind::Comma) {
                        proof {
                            lemma_op(t, p + 1, TokenKind::LessThan);
                        }
                        match ty(t, a + 2) {
                            Some((c, inner)) => match op(t, c, TokenKind::GreaterThan) {
                                Some(d) => Some(
                                    (d, SpecType::Ref { mutable: m, inner_type: Box::new(inner) }),
                                ),
                                None => None,
                            },
                            None => None,
                        }
                    } else {
                        None
                    },
                    None => None,
                }
            },
            None => None,
        }
    } else {
        None
    }
}

/// `loc < T >`.
pub open spec fn ty_loc(t: Seq<Token>, p: int) -> Option<(int, SpecType)>
    decreases t.len() - p, 0int,
{
    if is_kind(t, p, TokenKind::Loc) {
        match op(t, p + 1, TokenKind::LessThan) {
            Some(a) => {
                proof {
                    lemma_op(t, p + 1, TokenKind::LessThan);
                }
                match ty(t, a) {
                    Some((c, inner)) => match op(t, c, TokenKind::GreaterThan) {
                        Some(d) => Some((d, SpecType::Loc(Box::new(inner)))),
                        None => None,
                    },
                    None => None,
                }
            },
            None => None,
        }
    } else {
        None
    }
}

/// `[ T , T , ... ]`, possibly empty, with an optional trailing comma.
pub open spec fn ty_prod(t: Seq<Token>, p: int) -> Option<(int, SpecType)>
    decreases t.len() - p, 0int,
{
    match op(t, p, TokenKind::LSqBra) {
        Some(a) => {
            proof {
                lemma_op(t, p, TokenKind::LSqBra);
            }
            let (b, items) = ty_list(t, a);
            match op(t, b, TokenKind::RSqBra) {
                Some(c) => Some((c, SpecType::Prod(items))),
                None => None,
            }
        },
        None => None,
    }
}

/// Types separated by commas, with an optional trailing comma; never fails.
pub open spec fn ty_list(t: Seq<Token>, p: int) -> (int, Seq<SpecType>)
    decreases t.len() - p, 3int,
{
    match advanced(ty(t, p), p, t.len() as int) {
        Some((n, x)) => ty_list_rest(t, n, seq![x]),
        None => (p, seq![]),
    }
}

/// The rest of a comma-separated list of types, after the items `acc`.
pub open spec fn ty_list_rest(t: Seq<Token>, p: int, acc: Seq<SpecType>) -> (int, Seq<SpecType>)
    decreases t.len() - p, 3int,
{
    match op(t, p, TokenKind::Comma) {
        Some(a) => {
            proof {
                lemma_op(t, p, TokenKind::Comma);
            }
            match advanced(ty(t, a), a, t.len() as int) {
                Some((n, x)) => ty_list_rest(t, n, acc.push(x)),
                None => (a, acc),
            }
        },
        None => (p, acc),
    }
}

// ---------------------------------------------------------------------------
// Arithmetic expressions
// ---------------------------------------------------------------------------

/// An arithmetic expression, with whitespace allowed on both sides.
pub open spec fn arith(t: Seq<Token>, p: int) -> Option<(int, SpecArith)>
    decreases t.len() - p,
{
    if is_kind(t, p, TokenKind::Whitespace) {
        arith(t, p + 1)
    } else {
        match sum(t, p) {
            Some((n, v)) => Some((skip_ws(t, n), v)),
            None => None,
        }
    }
}

/// Products joined by `+` and `-`, associating to the left.
pub open spec fn sum(t: Seq<Token>, p: int) -> Option<(int, SpecArith)>
    decreases t.len() - p, 3int,
{
    match advanced(product(t, p), p, t.len() as int) {
        Some((n, v)) => Some(sum_rest(t, n, v)),
        None => None,
    }
}

/// The rest of a sum whose terms so far make `acc`.
pub open spec fn sum_rest(t: Seq<Token>, p: int, acc: SpecArith) -> (int, SpecArith)
    decreases t.len() - p, 3int,
{
    match op(t, p, TokenKind::Plus) {
        Some(a) => {
            proof {
                lemma_op(t, p, TokenKind::Plus);
            }
            match advanced(product(t, a), a, t.len() as int) {
                Some((n, r)) => sum_rest(t, n, SpecArith::Plus(Box::new(acc), Box::new(r))),
                None => (p, acc),
            }
        },
        None => match op(t, p, TokenKind::Minus) {
            Some(a) => {
                proof {
                    lemma_op(t, p, TokenKind::Minus);
                }
                match advanced(product(t, a), a, t.len() as int) {
                    Some((n, r)) => sum_rest(t, n, SpecArith::Minus(Box::new(acc), Box::new(r))),
                    None => (p, acc),
                }
            },
            None => (p, acc),
        },
    }
}

/// Unary expressions joined by `*` and `/`, associating to the left.
pub open spec fn product(t: Seq<Token>, p: int) -> Option<(int, SpecArith)>
    decreases t.len() - p, 2int,
{
    match advanced(unary(t, p), p, t.len() as int) {
        Some((n, v)) => Some(product_rest(t, n, v)),
        None => None,
    }
}

/// The rest of a product whose factors so far make `acc`.
pub open spec fn product_rest(t: Seq<Token>, p: int, acc: SpecArith) -> (int, SpecArith)
    decreases t.len() - p, 2int,
{
    match op(t, p, TokenKind::Multiply) {
        Some(a) => {
            proof {
                lemma_op(t, p, TokenKind::Multiply);
            }
            match advanced(unary(t, a), a, t.len() as int) {
                Some((n, r)) => product_rest(t, n, SpecArith::Mult(Box::new(acc), Box::new(r))),
                None => (p, acc),
            }
        },
        None => match op(t, p, TokenKind::Divide) {
            Some(a) => {
                proof {
                    lemma_op(t, p, TokenKind::Divide);
                }
                match advanced(unary(t, a), a, t.len() as int) {
                    Some((n, r)) => product_rest(t, n, SpecArith::Div(Box::new(acc), Box::new(r))),
                    None => (p, acc),
                }
            },
            None => (p, acc),
        },
    }
}

/// Zero or more `-` before an atom; each negates.
pub open spec fn unary(t: Seq<Token>, p: int) -> Option<(int, SpecArith)>
    decreases t.len() - p, 1int,
{
    match op(t, p, TokenKind::Minus) {
        Some(a) => {
            proof {
                lemma_op(t, p, TokenKind::Minus);
            }
            match unary(t, a) {
                Some((n, v)) => Some((n, SpecArith::Neg(Box::new(v)))),
                None => None,
            }
        },
        None => arith_atom(t, p),
    }
}

/// A number literal.
pub open spec fn nat_literal(t: Seq<Token>, p: int) -> Option<(int, SpecArith)> {
    if 0 <= p < t.len() {
        match t[p] {
            Token::Nat(n) => Some((p + 1, SpecArith::Nat(n))),
            _ => None,
        }
    } else {
        None
    }
}

/// A place used as a value.
pub open spec fn arith_lvalue(t: Seq<Token>, p: int) -> Option<(int, SpecArith)> {
    match lhs(t, p) {
        Some((n, l)) => Some((n, SpecArith::Lvalue(Box::new(l)))),
        None => None,
    }
}

/// `sizeof T`.
pub open spec fn arith_sizeof(t: Seq<Token>, p: int) -> Option<(int, SpecArith)> {
    match op(t, p, TokenKind::Sizeof) {
        Some(a) => match ty(t, a) {
            Some((n, x)) => Some((n, SpecArith::Sizeof(Box::new(x)))),
            None => None,
        },
        None => None,
    }
}

/// The alternatives of an atom, in order: number, place, parenthesized sum,
/// `sizeof`.
pub open spec fn arith_atom(t: Seq<Token>, p: int) -> Option<(int, SpecArith)>
    decreases t.len() - p, 0int,
{
    let paren = match op(t, p, TokenKind::LParen) {
        Some(a) => {
            proof {
                lemma_op(t, p, TokenKind::LParen);
            }
            match sum(t, a) {
                Some((b, v)) => match op(t, b, TokenKind::RParen) {
                    Some(c) => Some((c, v)),
                    None => None,
                },
                None => None,
            }
        },
        None => None,
    };
    first(nat_literal(t, p), first(arith_lvalue(t, p), first(paren, arith_sizeof(t, p))))
}

// ---------------------------------------------------------------------------
// Boolean expressions
// ---------------------------------------------------------------------------

/// A boolean expression, with whitespace allowed on both sides.
pub open spec fn boolean(t: Seq<Token>, p: int) -> Option<(int, SpecBool)>
    decreases t.len() - p,
{
    if is_kind(t, p, TokenKind::Whitespace) {
        boolean(t, p + 1)
    } else {
        match conj(t, p) {
            Some((n, v)) => Some((skip_ws(t, n), v)),
            None => None,
        }
    }
}

/// Negations joined by `&&`, associating to the left.
pub open spec fn conj(t: Seq<Token>, p: int) -> Option<(int, SpecBool)>
    decreases t.len() - p, 3int,
{
    match advanced(negation(t, p), p, t.len() as int) {
        Some((n, v)) => Some(conj_rest(t, n, v)),
        None => None,
    }
}

/// The rest of a conjunction whose operands so far make `acc`.
pub open spec fn conj_rest(t: Seq<Token>, p: int, acc: SpecBool) -> (int, SpecBool)
    decreases t.len() - p, 3int,
{
    match op(t, p, TokenKind::And) {
        Some(a) => {
            proof {
                lemma_op(t, p, TokenKind::And);
            }
            match advanced(negation(t, a), a, t.len() as int) {
                Some((n, r)) => conj_rest(t, n, SpecBool::And(Box::new(acc), Box::new(r))),
                None => (p, acc),
            }
        },
        None => (p, acc),
    }
}

/// Zero or more `!` before an atom; each negates.
pub open spec fn negation(t: Seq<Token>, p: int) -> Option<(int, SpecBool)>
    decreases t.len() - p, 2int,
{
    match op(t, p, TokenKind::Bang) {
        Some(a) => {
            proof {
                lemma_op(t, p, TokenKind::Bang);
            }
            match negation(t, a) {
                Some((n, v)) => Some((n, SpecBool::Bang(Box::new(v)))),
                None => None,
            }
        },
        None => bool_atom(t, p),
    }
}

/// `true` or `false`.
pub open spec fn bool_literal(t: Seq<Token>, p: int) -> Option<(int, SpecBool)> {
    if is_kind(t, p, TokenKind::True) {
        Some((p + 1, SpecBool::True))
    } else if is_kind(t, p, TokenKind::False) {
        Some((p + 1, SpecBool::False))
    } else {
        None
    }
}

/// A place used as a boolean value.
pub open spec fn bool_lvalue(t: Seq<Token>, p: int) -> Option<(int, SpecBool)> {
    match lhs(t, p) {
        Some((n, l)) => Some((n, SpecBool::Lvalue(Box::new(l)))),
        None => None,
    }
}

/// `A == B` (two adjacent `=` tokens).
pub open spec fn comparison_eq(t: Seq<Token>, p: int) -> Option<(int, SpecBool)> {
    match arith(t, p) {
        Some((a, x)) => match op2(t, a, TokenKind::Equals, TokenKind::Equals) {
            Some(b) => match arith(t, b) {
                Some((c, y)) => Some((c, SpecBool::Eq(Box::new(x), Box::new(y)))),
                None => None,
            },
            None => None,
        },
        None => None,
    }
}

/// `A < B`, which builds the same equality node as `A == B`.
pub open spec fn comparison_lt(t: Seq<Token>, p: int) -> Option<(int, SpecBool)> {
    match arith(t, p) {
        Some((a, x)) => match op(t, a, TokenKind::LessThan) {
            Some(b) => match arith(t, b) {
                Some((c, y)) => Some((c, SpecBool::Eq(Box::new(x), Box::new(y)))),
                None => None,
            },
            None => None,
        },
        None => None,
    }
}

/// The alternatives of a boolean atom, in order: literal, place,
/// parenthesized conjunction, `==` comparison, `<` comparison.
pub open spec fn bool_atom(t: Seq<Token>, p: int) -> Option<(int, SpecBool)>
    decreases t.len() - p, 1int,
{
    let paren = match op(t, p, TokenKind::LParen) {
        Some(a) => {
            proof {
                lemma_op(t, p, TokenKind::LParen);
            }
            match conj(t, a) {
                Some((b, v)) => match op(t, b, TokenKind::RParen) {
                    Some(c) => Some((c, v)),
                    None => None,
                },
                None => None,
            }
        },
        None => None,
    };
    first(
        bool_literal(t, p),
        first(bool_lvalue(t, p), first(paren, first(comparison_eq(t, p), comparison_lt(t, p)))),
    )
}

// ---------------------------------------------------------------------------
// Expressions
// ---------------------------------------------------------------------------

/// An expression, with whitespace allowed on both sides.
pub open spec fn expr(t: Seq<Token>, p: int) -> Option<(int, SpecExpr)>
    decreases t.len() - p,
{
    if is_kind(t, p, TokenKind::Whitespace) {
        expr(t, p + 1)
    } else {
        match expr_inner(t, p) {
            Some((n, v)) => Some((skip_ws(t, n), v)),
            None => None,
        }
    }
}

/// A place.
pub open spec fn expr_lvalue(t: Seq<Token>, p: int) -> Option<(int, SpecExpr)> {
    match lhs(t, p) {
        Some((n, l)) => Some((n, SpecExpr::Lvalue(Box::new(l)))),
        None => None,
    }
}

/// `& x`.
pub open spec fn expr_ref(t: Seq<Token>, p: int) -> Option<(int, SpecExpr)> {
    match op(t, p, TokenKind::Amp) {
        Some(a) => match variable(t, a) {
            Some((n, s)) => Some((n, SpecExpr::ImmutRef(s))),
            None => None,
        },
        None => None,
    }
}

/// `&mut x` (`&` and `mut` adjacent).
pub open spec fn expr_mut_ref(t: Seq<Token>, p: int) -> Option<(int, SpecExpr)> {
    match op2(t, p, TokenKind::Amp, TokenKind::Mut) {
        Some(a) => match variable(t, a) {
            Some((n, s)) => Some((n, SpecExpr::MutRef(s))),
            None => None,
        },
        None => None,
    }
}

/// A boolean expression.
pub open spec fn expr_bool(t: Seq<Token>, p: int) -> Option<(int, SpecExpr)> {
    match boolean(t, p) {
        Some((n, b)) => Some((n, SpecExpr::Bool(Box::new(b)))),
        None => None,
    }
}

/// An arithmetic expression.
pub open spec fn expr_int(t: Seq<Token>, p: int) -> Option<(int, SpecExpr)> {
    match arith(t, p) {
        Some((n, a)) => Some((n, SpecExpr::Int(Box::new(a)))),
        None => None,
    }
}

/// The alternatives of an expression, in order: place, tuple `[e e ...]`,
/// parenthesized expression, `&x`, `&mut x`, boolean, arithmetic.
pub open spec fn expr_inner(t: Seq<Token>, p: int) -> Option<(int, SpecExpr)>
    decreases t.len() - p, 0int,
{
    let tuple = if is_kind(t, p, TokenKind::LSqBra) {
        let (b, items) = expr_items(t, p + 1, seq![]);
        if is_kind(t, b, TokenKind::RSqBra) {
            Some((b + 1, SpecExpr::Tuple(items)))
        } else {
            None
        }
    } else {
        None
    };
    let paren = match op(t, p, TokenKind::LParen) {
        Some(a) => {
            proof {
                lemma_op(t, p, TokenKind::LParen);
            }
            match expr_inner(t, a) {
                Some((b, v)) => match op(t, b, TokenKind::RParen) {
                    Some(c) => Some((c, v)),
                    None => None,
                },
                None => None,
            }
        },
        None => None,
    };
    first(
        expr_lvalue(t, p),
        first(
            tuple,
            first(
                paren,
                first(
                    expr_ref(t, p),
                    first(expr_mut_ref(t, p), first(expr_bool(t, p), expr_int(t, p))),
                ),
            ),
        ),
    )
}

/// Zero or more expressions one after the other (the inside of a tuple),
/// after the items `acc`; never fails.
pub open spec fn expr_items(t: Seq<Token>, p: int, acc: Seq<SpecExpr>) -> (int, Seq<SpecExpr>)
    decreases t.len() - p, 1int,
{
    match advanced(expr_inner(t, p), p, t.len() as int) {
        Some((n, e)) => expr_items(t, n, acc.push(e)),
        None => (p, acc),
    }
}

// ---------------------------------------------------------------------------
// Commands
// ---------------------------------------------------------------------------

/// A command, with whitespace allowed on both sides.
pub open spec fn command(t: Seq<Token>, p: int) -> Option<(int, SpecCmd)>
    decreases t.len() - p,
{
    if is_kind(t, p, TokenKind::Whitespace) {
        command(t, p + 1)
    } else {
        match cmd_seq(t, p) {
            Some((n, v)) => Some((skip_ws(t, n), v)),
            None => None,
        }
    }
}

/// Atomic commands joined by `;`, associating to the left.
pub open spec fn cmd_seq(t: Seq<Token>, p: int) -> Option<(int, SpecCmd)>
    decreases t.len() - p, 2int,
{
    match advanced(cmd_atom(t, p), p, t.len() as int) {
        Some((n, c)) => Some(cmd_seq_rest(t, n, c)),
        None => None,
    }
}

/// The rest of a sequence whose commands so far make `acc`.
pub open spec fn cmd_seq_rest(t: Seq<Token>, p: int, acc: SpecCmd) -> (int, SpecCmd)
    decreases t.len() - p, 2int,
{
    match op(t, p, TokenKind::Semicolon) {
        Some(a) => {
            proof {
                lemma_op(t, p, TokenKind::Semicolon);
            }
            match advanced(cmd_atom(t, a), a, t.len() as int) {
                Some((n, c)) => cmd_seq_rest(t, n, SpecCmd::Sequence(Box::new(acc), Box::new(c))),
                None => (p, acc),
            }
        },
        None => (p, acc),
    }
}

/// `skip`.
pub open spec fn cmd_skip(t: Seq<Token>, p: int) -> Option<(int, SpecCmd)> {
    match op(t, p, TokenKind::Skip) {
        Some(a) => Some((a, SpecCmd::Skip)),
        None => None,
    }
}

/// `x : T =` after `let` (and `mut`) at `p`: the name, the type and the
/// position after `=`.
pub open spec fn binding_head(t: Seq<Token>, p: int) -> Option<(int, (Seq<char>, SpecType))> {
    match variable(t, p) {
        Some((a, name)) => match op(t, a, TokenKind::Colon) {
            Some(b) => match ty(t, b) {
                Some((c, x)) => match op(t, c, TokenKind::Equals) {
                    Some(d) => Some((d, (name, x))),
                    None => None,
                },
                None => None,
            },
            None => None,
        },
        None => None,
    }
}

/// `alloc ( A )`.
pub open spec fn alloc_arg(t: Seq<Token>, p: int) -> Option<(int, SpecArith)> {
    match op(t, p, TokenKind::Alloc) {
        Some(a) => match op(t, a, TokenKind::LParen) {
            Some(b) => match arith(t, b) {
                Some((c, x)) => match op(t, c, TokenKind::RParen) {
                    Some(d) => Some((d, x)),
                    None => None,
                },
                None => None,
            },
            None => None,
        },
        None => None,
    }
}

/// `let x : T = e`.
pub open spec fn cmd_let(t: Seq<Token>, p: int) -> Option<(int, SpecCmd)> {
    match op(t, p, TokenKind::Let) {
        Some(a) => match binding_head(t, a) {
            Some((b, (name, x))) => match expr(t, b) {
                Some((c, e)) => Some((c, SpecCmd::Let(name, Box::new(x), Box::new(e)))),
                None => None,
            },
            None => None,
        },
        None => None,
    }
}

/// `let mut x : T = e`.
pub open spec fn cmd_let_mut(t: Seq<Token>, p: int) -> Option<(int, SpecCmd)> {
    match op(t, p, TokenKind::Let) {
        Some(a) => match op(t, a, TokenKind::Mut) {
            Some(a2) => match binding_head(t, a2) {
                Some((b, (name, x))) => match expr(t, b) {
                    Some((c, e)) => Some((c, SpecCmd::LetMut(name, Box::new(x), Box::new(e)))),
                    None => None,
                },
                None => None,
            },
            None => None,
        },
        None => None,
    }
}

/// `let x : T = alloc ( A )`.
pub open spec fn cmd_let_alloc(t: Seq<Token>, p: int) -> Option<(int, SpecCmd)> {
    match op(t, p, TokenKind::Let) {
        Some(a) => match binding_head(t, a) {
            Some((b, (name, x))) => match alloc_arg(t, b) {
                Some((c, e)) => Some((c, SpecCmd::LetAlloc(name, Box::new(x), Box::new(e)))),
                None => None,
            },
            None => None,
        },
        None => None,
    }
}

/// `let mut x : T = alloc ( A )`.
pub open spec fn cmd_let_mut_alloc(t: Seq<Token>, p: int) -> Option<(int, SpecCmd)> {
    match op(t, p, TokenKind::Let) {
        Some(a) => match op(t, a, TokenKind::Mut) {
            Some(a2) => match binding_head(t, a2) {
                Some((b, (name, x))) => match alloc_arg(t, b) {
                    Some((c, e)) => Some(
                        (c, SpecCmd::LetMutAlloc(name, Box::new(x), Box::new(e))),
                    ),
                    None => None,
                },
                None => None,
            },
            None => None,
        },
        None => None,
    }
}

/// `place = e` (no whitespace before the place).
pub open spec fn cmd_assign(t: Seq<Token>, p: int) -> Option<(int, SpecCmd)> {
    match lhs(t, p) {
        Some((a, l)) => match op(t, a, TokenKind::Equals) {
            Some(b) => match expr(t, b) {
                Some((c, e)) => Some((c, SpecCmd::Assign(Box::new(l), Box::new(e)))),
                None => None,
            },
            None => None,
        },
        None => None,
    }
}

/// `free ( place )`.
pub open spec fn cmd_free(t: Seq<Token>, p: int) -> Option<(int, SpecCmd)> {
    match op(t, p, TokenKind::Free) {
        Some(a) => match op(t, a, TokenKind::LParen) {
            Some(b) => match lhs(t, b) {
                Some((c, l)) => match op(t, c, TokenKind::RParen) {
                    Some(d) => Some((d, SpecCmd::Free(Box::new(l)))),
                    None => None,
                },
                None => None,
            },
            None => None,
        },
        None => None,
    }
}

/// `while B do C`, where the body `C` is a whole sequence.
pub open spec fn cmd_while(t: Seq<Token>, p: int) -> Option<(int, SpecCmd)>
    decreases t.len() - p, 0int,
{
    match op(t, p, TokenKind::While) {
        Some(a) => {
            proof {
                lemma_op(t, p, TokenKind::While);
            }
            match advanced(boolean(t, a), a, t.len() as int) {
                Some((b, cond)) => match op(t, b, TokenKind::Do) {
                    Some(c) => {
                        proof {
                            lemma_op(t, b, TokenKind::Do);
                        }
                        match cmd_seq(t, c) {
                            Some((d, body)) => Some(
                                (d, SpecCmd::While(Box::new(cond), Box::new(body))),
                            ),
                            None => None,
                        }
                    },
                    None => None,
                },
                None => None,
            }
        },
        None => None,
    }
}

/// `if B then C1 else C2`, where both branches are whole sequences.
pub open spec fn cmd_if(t: Seq<Token>, p: int) -> Option<(int, SpecCmd)>
    decreases t.len() - p, 0int,
{
    match op(t, p, TokenKind::If) {
        Some(a) => {
            proof {
                lemma_op(t, p, TokenKind::If);
            }
            match advanced(boolean(t, a), a, t.len() as int) {
                Some((b, cond)) => match op(t, b, TokenKind::Then) {
                    Some(c) => {
                        proof {
                            lemma_op(t, b, TokenKind::Then);
                        }
                        match advanced(cmd_seq(t, c), c, t.len() as int) {
                            Some((d, c1)) => match op(t, d, TokenKind::Else) {
                                Some(e) => {
                                    proof {
                                        lemma_op(t, d, TokenKind::Else);
                                    }
                                    match cmd_seq(t, e) {
                                        Some((f, c2)) => Some(
                                            (
                                                f,
                                                SpecCmd::If(
                                                    Box::new(cond),
                                                    Box::new(c1),
                                                    Box::new(c2),
                                                ),
                                            ),
                                        ),
                                        None => None,
                                    }
                                },
                                None => None,
                            },
                            None => None,
                        }
                    },
                    None => None,
                },
                None => None,
            }
        },
        None => None,
    }
}

/// The alternatives of an atomic command that contain no command, in
/// order: `skip`, `let`, `let mut`, `let ... alloc`, `let mut ... alloc`,
/// assignment, `free`.
pub open spec fn cmd_simple(t: Seq<Token>, p: int) -> Option<(int, SpecCmd)> {
    first(
        cmd_skip(t, p),
        first(
            cmd_let(t, p),
            first(
                cmd_let_mut(t, p),
                first(
                    cmd_let_alloc(t, p),
                    first(cmd_let_mut_alloc(t, p), first(cmd_assign(t, p), cmd_free(t, p))),
                ),
            ),
        ),
    )
}

/// The alternatives of an atomic command, in order: the simple commands,
/// then `while`, then `if`.
pub open spec fn cmd_atom(t: Seq<Token>, p: int) -> Option<(int, SpecCmd)>
    decreases t.len() - p, 1int,
{
    first(cmd_simple(t, p), first(cmd_while(t, p), cmd_if(t, p)))
}

} // verus!
