//! Properties of the grammar that hold for every input.
use vstd::prelude::*;

use crate::ast::{arith_view, ArithExpr, SpecArith, SpecBool, SpecCmd, SpecExpr, SpecLhs, SpecType};
use crate::dispatch::lemma_no_expr_at_alloc;
use crate::parser::{program, ParseError};
use crate::printing::{arith_tokens, lemma_arith_readback};
use crate::embedding::{
    corr, embedded, lemma_arith_ctx, lemma_boolean_ctx, lemma_cmd_simple_ctx, lemma_expr_ctx,
    lemma_embedded_split, lemma_lhs_ctx, lemma_setup, lemma_skip_ws_run, lemma_ty_ctx, lemma_ws, next_kind, resume,
    reads_cmd, stops_bool, stops_cmd, stops_expr, stops_lhs, stops_type,
};
use crate::grammar::{
    advanced, alloc_arg, arith, arith_atom, binding_head, boolean, bool_atom, cmd_assign, cmd_atom,
    cmd_free, cmd_if, cmd_let, cmd_let_alloc, cmd_let_mut, cmd_let_mut_alloc, cmd_seq, cmd_seq_rest,
    cmd_simple, cmd_skip, cmd_while, command, comparison_eq, comparison_lt, conj, conj_rest, expr, expr_inner,
    expr_items, is_kind, lemma_op, lemma_op2, lemma_skip_ws, lhs, negation, op, op2, product,
    product_rest, skip_ws, sum, sum_rest, ty, ty_core, ty_list, ty_list_rest, ty_loc, ty_prod,
    ty_ref, unary, variable,
};
use crate::token::{kind_of, Token, TokenKind};

verus! {

/// A parse result that, when it is a match, starts at a valid position and
/// ends strictly after it, within the input.
pub open spec fn progresses<V>(r: Option<(int, V)>, p: int, len: int) -> bool {
    r matches Some((n, _)) ==> 0 <= p < n <= len
}

/// The end of a repetition that never fails: not before `p`, and within
/// the input when `p` is.
pub open spec fn stays_within(n: int, p: int, len: int) -> bool {
    p <= n && (p <= len ==> n <= len)
}

// ---------------------------------------------------------------------------
// Progress, one strongly connected group of definitions at a time
// ---------------------------------------------------------------------------

proof fn lemma_lhs(t: Seq<Token>, p: int)
    ensures
        progresses(lhs(t, p), p, t.len() as int),
    decreases t.len() - p,
{
    if is_kind(t, p, TokenKind::Multiply) {
        lemma_lhs(t, p + 1);
    }
}

proof fn lemma_ty(t: Seq<Token>, p: int)
    ensures
        progresses(ty(t, p), p, t.len() as int),
    decreases t.len() - p, 2int,
{
    if is_kind(t, p, TokenKind::Whitespace) {
        lemma_ty(t, p + 1);
    } else {
        lemma_ty_core(t, p);
        if let Some((n, _)) = ty_core(t, p) {
            lemma_skip_ws(t, n);
        }
    }
}

proof fn lemma_ty_core(t: Seq<Token>, p: int)
    ensures
        progresses(ty_core(t, p), p, t.len() as int),
    decreases t.len() - p, 1int,
{
    lemma_ty_ref(t, p);
    lemma_ty_loc(t, p);
    lemma_ty_prod(t, p);
}

proof fn lemma_ty_ref(t: Seq<Token>, p: int)
    ensures
        progresses(ty_ref(t, p), p, t.len() as int),
    decreases t.len() - p, 0int,
{
    if is_kind(t, p, TokenKind::Ref) {
        lemma_op(t, p + 1, TokenKind::LessThan);
        if let Some(a) = op(t, p + 1, TokenKind::LessThan) {
            if is_kind(t, a + 1, TokenKind::Comma) {
                lemma_ty(t, a + 2);
                if let Some((c, _)) = ty(t, a + 2) {
                    lemma_op(t, c, TokenKind::GreaterThan);
                }
            }
        }
    }
}

proof fn lemma_ty_loc(t: Seq<Token>, p: int)
    ensures
        progresses(ty_loc(t, p), p, t.len() as int),
    decreases t.len() - p, 0int,
{
    if is_kind(t, p, TokenKind::Loc) {
        lemma_op(t, p + 1, TokenKind::LessThan);
        if let Some(a) = op(t, p + 1, TokenKind::LessThan) {
            lemma_ty(t, a);
            if let Some((c, _)) = ty(t, a) {
                lemma_op(t, c, TokenKind::GreaterThan);
            }
        }
    }
}

proof fn lemma_ty_prod(t: Seq<Token>, p: int)
    ensures
        progresses(ty_prod(t, p), p, t.len() as int),
    decreases t.len() - p, 0int,
{
    lemma_op(t, p, TokenKind::LSqBra);
    if let Some(a) = op(t, p, TokenKind::LSqBra) {
        lemma_ty_list(t, a);
        lemma_op(t, ty_list(t, a).0, TokenKind::RSqBra);
    }
}

proof fn lemma_ty_list(t: Seq<Token>, p: int)
    ensures
        stays_within(ty_list(t, p).0, p, t.len() as int),
    decreases t.len() - p, 3int,
{
    if let Some((n, x)) = advanced(ty(t, p), p, t.len() as int) {
        lemma_ty_list_rest(t, n, seq![x]);
    }
}

proof fn lemma_ty_list_rest(t: Seq<Token>, p: int, acc: Seq<SpecType>)
    ensures
        stays_within(ty_list_rest(t, p, acc).0, p, t.len() as int),
    decreases t.len() - p, 3int,
{
    lemma_op(t, p, TokenKind::Comma);
    if let Some(a) = op(t, p, TokenKind::Comma) {
        if let Some((n, x)) = advanced(ty(t, a), a, t.len() as int) {
            lemma_ty_list_rest(t, n, acc.push(x));
        }
    }
}

proof fn lemma_arith(t: Seq<Token>, p: int)
    ensures
        progresses(arith(t, p), p, t.len() as int),
    decreases t.len() - p,
{
    if is_kind(t, p, TokenKind::Whitespace) {
        lemma_arith(t, p + 1);
    } else {
        lemma_sum(t, p);
        if let Some((n, _)) = sum(t, p) {
            lemma_skip_ws(t, n);
        }
    }
}

proof fn lemma_sum(t: Seq<Token>, p: int)
    ensures
        progresses(sum(t, p), p, t.len() as int),
    decreases t.len() - p, 3int,
{
    lemma_product(t, p);
    if let Some((n, v)) = advanced(product(t, p), p, t.len() as int) {
        lemma_sum_rest(t, n, v);
    }
}

proof fn lemma_sum_rest(t: Seq<Token>, p: int, acc: SpecArith)
    ensures
        stays_within(sum_rest(t, p, acc).0, p, t.len() as int),
    decreases t.len() - p, 3int,
{
    lemma_op(t, p, TokenKind::Plus);
    lemma_op(t, p, TokenKind::Minus);
    if let Some(a) = op(t, p, TokenKind::Plus) {
        if let Some((n, r)) = advanced(product(t, a), a, t.len() as int) {
            lemma_sum_rest(t, n, SpecArith::Plus(Box::new(acc), Box::new(r)));
        }
    } else if let Some(a) = op(t, p, TokenKind::Minus) {
        if let Some((n, r)) = advanced(product(t, a), a, t.len() as int) {
            lemma_sum_rest(t, n, SpecArith::Minus(Box::new(acc), Box::new(r)));
        }
    }
}

proof fn lemma_product(t: Seq<Token>, p: int)
    ensures
        progresses(product(t, p), p, t.len() as int),
    decreases t.len() - p, 2int,
{
    lemma_unary(t, p);
    if let Some((n, v)) = advanced(unary(t, p), p, t.len() as int) {
        lemma_product_rest(t, n, v);
    }
}

proof fn lemma_product_rest(t: Seq<Token>, p: int, acc: SpecArith)
    ensures
        stays_within(product_rest(t, p, acc).0, p, t.len() as int),
    decreases t.len() - p, 2int,
{
    lemma_op(t, p, TokenKind::Multiply);
    lemma_op(t, p, TokenKind::Divide);
    if let Some(a) = op(t, p, TokenKind::Multiply) {
        if let Some((n, r)) = advanced(unary(t, a), a, t.len() as int) {
            lemma_product_rest(t, n, SpecArith::Mult(Box::new(acc), Box::new(r)));
        }
    } else if let Some(a) = op(t, p, TokenKind::Divide) {
        if let Some((n, r)) = advanced(unary(t, a), a, t.len() as int) {
            lemma_product_rest(t, n, SpecArith::Div(Box::new(acc), Box::new(r)));
        }
    }
}

proof fn lemma_unary(t: Seq<Token>, p: int)
    ensures
        progresses(unary(t, p), p, t.len() as int),
    decreases t.len() - p, 1int,
{
    lemma_op(t, p, TokenKind::Minus);
    if let Some(a) = op(t, p, TokenKind::Minus) {
        lemma_unary(t, a);
    } else {
        lemma_arith_atom(t, p);
    }
}

proof fn lemma_arith_atom(t: Seq<Token>, p: int)
    ensures
        progresses(arith_atom(t, p), p, t.len() as int),
    decreases t.len() - p, 0int,
{
    lemma_lhs(t, p);
    lemma_op(t, p, TokenKind::LParen);
    if let Some(a) = op(t, p, TokenKind::LParen) {
        lemma_sum(t, a);
        if let Some((b, _)) = sum(t, a) {
            lemma_op(t, b, TokenKind::RParen);
        }
    }
    lemma_op(t, p, TokenKind::Sizeof);
    if let Some(a) = op(t, p, TokenKind::Sizeof) {
        lemma_ty(t, a);
    }
}

proof fn lemma_boolean(t: Seq<Token>, p: int)
    ensures
        progresses(boolean(t, p), p, t.len() as int),
    decreases t.len() - p,
{
    if is_kind(t, p, TokenKind::Whitespace) {
        lemma_boolean(t, p + 1);
    } else {
        lemma_conj(t, p);
        if let Some((n, _)) = conj(t, p) {
            lemma_skip_ws(t, n);
        }
    }
}

proof fn lemma_conj(t: Seq<Token>, p: int)
    ensures
        progresses(conj(t, p), p, t.len() as int),
    decreases t.len() - p, 3int,
{
    lemma_negation(t, p);
    if let Some((n, v)) = advanced(negation(t, p), p, t.len() as int) {
        lemma_conj_rest(t, n, v);
    }
}

proof fn lemma_conj_rest(t: Seq<Token>, p: int, acc: SpecBool)
    ensures
        stays_within(conj_rest(t, p, acc).0, p, t.len() as int),
    decreases t.len() - p, 3int,
{
    lemma_op(t, p, TokenKind::And);
    if let Some(a) = op(t, p, TokenKind::And) {
        if let Some((n, r)) = advanced(negation(t, a), a, t.len() as int) {
            lemma_conj_rest(t, n, SpecBool::And(Box::new(acc), Box::new(r)));
        }
    }
}

proof fn lemma_negation(t: Seq<Token>, p: int)
    ensures
        progresses(negation(t, p), p, t.len() as int),
    decreases t.len() - p, 2int,
{
    lemma_op(t, p, TokenKind::Bang);
    if let Some(a) = op(t, p, TokenKind::Bang) {
        lemma_negation(t, a);
    } else {
        lemma_bool_atom(t, p);
    }
}

proof fn lemma_comparisons(t: Seq<Token>, p: int)
    ensures
        progresses(comparison_eq(t, p), p, t.len() as int),
        progresses(comparison_lt(t, p), p, t.len() as int),
{
    lemma_arith(t, p);
    if let Some((a, _)) = arith(t, p) {
        lemma_op2(t, a, TokenKind::Equals, TokenKind::Equals);
        if let Some(b) = op2(t, a, TokenKind::Equals, TokenKind::Equals) {
            lemma_arith(t, b);
        }
        lemma_op(t, a, TokenKind::LessThan);
        if let Some(b) = op(t, a, TokenKind::LessThan) {
            lemma_arith(t, b);
        }
    }
}

proof fn lemma_bool_atom(t: Seq<Token>, p: int)
    ensures
        progresses(bool_atom(t, p), p, t.len() as int),
    decreases t.len() - p, 1int,
{
    lemma_lhs(t, p);
    lemma_op(t, p, TokenKind::LParen);
    if let Some(a) = op(t, p, TokenKind::LParen) {
        lemma_conj(t, a);
        if let Some((b, _)) = conj(t, a) {
            lemma_op(t, b, TokenKind::RParen);
        }
    }
    lemma_comparisons(t, p);
}

proof fn lemma_expr(t: Seq<Token>, p: int)
    ensures
        progresses(expr(t, p), p, t.len() as int),
    decreases t.len() - p,
{
    if is_kind(t, p, TokenKind::Whitespace) {
        lemma_expr(t, p + 1);
    } else {
        lemma_expr_inner(t, p);
        if let Some((n, _)) = expr_inner(t, p) {
            lemma_skip_ws(t, n);
        }
    }
}

proof fn lemma_expr_inner(t: Seq<Token>, p: int)
    ensures
        progresses(expr_inner(t, p), p, t.len() as int),
    decreases t.len() - p, 0int,
{
    lemma_lhs(t, p);
    if is_kind(t, p, TokenKind::LSqBra) {
        lemma_expr_items(t, p + 1, seq![]);
    }
    lemma_op(t, p, TokenKind::LParen);
    if let Some(a) = op(t, p, TokenKind::LParen) {
        lemma_expr_inner(t, a);
        if let Some((b, _)) = expr_inner(t, a) {
            lemma_op(t, b, TokenKind::RParen);
        }
    }
    lemma_op(t, p, TokenKind::Amp);
    lemma_op2(t, p, TokenKind::Amp, TokenKind::Mut);
    lemma_boolean(t, p);
    lemma_arith(t, p);
}

proof fn lemma_expr_items(t: Seq<Token>, p: int, acc: Seq<SpecExpr>)
    ensures
        stays_within(expr_items(t, p, acc).0, p, t.len() as int),
    decreases t.len() - p, 1int,
{
    if let Some((n, e)) = advanced(expr_inner(t, p), p, t.len() as int) {
        lemma_expr_items(t, n, acc.push(e));
    }
}

proof fn lemma_command(t: Seq<Token>, p: int)
    ensures
        progresses(command(t, p), p, t.len() as int),
    decreases t.len() - p,
{
    if is_kind(t, p, TokenKind::Whitespace) {
        lemma_command(t, p + 1);
    } else {
        lemma_cmd_seq(t, p);
        if let Some((n, _)) = cmd_seq(t, p) {
            lemma_skip_ws(t, n);
        }
    }
}

proof fn lemma_cmd_seq(t: Seq<Token>, p: int)
    ensures
        progresses(cmd_seq(t, p), p, t.len() as int),
    decreases t.len() - p, 2int,
{
    lemma_cmd_atom(t, p);
    if let Some((n, c)) = advanced(cmd_atom(t, p), p, t.len() as int) {
        lemma_cmd_seq_rest(t, n, c);
    }
}

proof fn lemma_cmd_seq_rest(t: Seq<Token>, p: int, acc: SpecCmd)
    ensures
        stays_within(cmd_seq_rest(t, p, acc).0, p, t.len() as int),
    decreases t.len() - p, 2int,
{
    lemma_op(t, p, TokenKind::Semicolon);
    if let Some(a) = op(t, p, TokenKind::Semicolon) {
        if let Some((n, c)) = advanced(cmd_atom(t, a), a, t.len() as int) {
            lemma_cmd_seq_rest(t, n, SpecCmd::Sequence(Box::new(acc), Box::new(c)));
        }
    }
}

proof fn lemma_binding_head(t: Seq<Token>, p: int)
    ensures
        progresses(binding_head(t, p), p, t.len() as int),
{
    if let Some((a, _)) = variable(t, p) {
        lemma_op(t, a, TokenKind::Colon);
        if let Some(b) = op(t, a, TokenKind::Colon) {
            lemma_ty(t, b);
            if let Some((c, _)) = ty(t, b) {
                lemma_op(t, c, TokenKind::Equals);
            }
        }
    }
}

proof fn lemma_alloc_arg(t: Seq<Token>, p: int)
    ensures
        progresses(alloc_arg(t, p), p, t.len() as int),
{
    lemma_op(t, p, TokenKind::Alloc);
    if let Some(a) = op(t, p, TokenKind::Alloc) {
        lemma_op(t, a, TokenKind::LParen);
        if let Some(b) = op(t, a, TokenKind::LParen) {
            lemma_arith(t, b);
            if let Some((c, _)) = arith(t, b) {
                lemma_op(t, c, TokenKind::RParen);
            }
        }
    }
}

proof fn lemma_cmd_lets(t: Seq<Token>, p: int)
    ensures
        progresses(cmd_let(t, p), p, t.len() as int),
        progresses(cmd_let_mut(t, p), p, t.len() as int),
        progresses(cmd_let_alloc(t, p), p, t.len() as int),
        progresses(cmd_let_mut_alloc(t, p), p, t.len() as int),
{
    lemma_op(t, p, TokenKind::Let);
    if let Some(a) = op(t, p, TokenKind::Let) {
        lemma_binding_head(t, a);
        if let Some((b, _)) = binding_head(t, a) {
            lemma_expr(t, b);
            lemma_alloc_arg(t, b);
        }
        lemma_op(t, a, TokenKind::Mut);
        if let Some(a2) = op(t, a, TokenKind::Mut) {
            lemma_binding_head(t, a2);
            if let Some((b, _)) = binding_head(t, a2) {
                lemma_expr(t, b);
                lemma_alloc_arg(t, b);
            }
        }
    }
}

proof fn lemma_cmd_simple(t: Seq<Token>, p: int)
    ensures
        progresses(cmd_skip(t, p), p, t.len() as int),
        progresses(cmd_assign(t, p), p, t.len() as int),
        progresses(cmd_free(t, p), p, t.len() as int),
{
    lemma_op(t, p, TokenKind::Skip);
    lemma_lhs(t, p);
    if let Some((a, _)) = lhs(t, p) {
        lemma_op(t, a, TokenKind::Equals);
        if let Some(b) = op(t, a, TokenKind::Equals) {
            lemma_expr(t, b);
        }
    }
    lemma_op(t, p, TokenKind::Free);
    if let Some(a) = op(t, p, TokenKind::Free) {
        lemma_op(t, a, TokenKind::LParen);
        if let Some(b) = op(t, a, TokenKind::LParen) {
            lemma_lhs(t, b);
            if let Some((c, _)) = lhs(t, b) {
                lemma_op(t, c, TokenKind::RParen);
            }
        }
    }
}

proof fn lemma_cmd_while(t: Seq<Token>, p: int)
    ensures
        progresses(cmd_while(t, p), p, t.len() as int),
    decreases t.len() - p, 0int,
{
    lemma_op(t, p, TokenKind::While);
    if let Some(a) = op(t, p, TokenKind::While) {
        if let Some((b, _)) = advanced(boolean(t, a), a, t.len() as int) {
            lemma_op(t, b, TokenKind::Do);
            if let Some(c) = op(t, b, TokenKind::Do) {
                lemma_cmd_seq(t, c);
            }
        }
    }
}

proof fn lemma_cmd_if(t: Seq<Token>, p: int)
    ensures
        progresses(cmd_if(t, p), p, t.len() as int),
    decreases t.len() - p, 0int,
{
    lemma_op(t, p, TokenKind::If);
    if let Some(a) = op(t, p, TokenKind::If) {
        if let Some((b, _)) = advanced(boolean(t, a), a, t.len() as int) {
            lemma_op(t, b, TokenKind::Then);
            if let Some(c) = op(t, b, TokenKind::Then) {
                if let Some((d, _)) = advanced(cmd_seq(t, c), c, t.len() as int) {
                    lemma_op(t, d, TokenKind::Else);
                    if let Some(e) = op(t, d, TokenKind::Else) {
                        lemma_cmd_seq(t, e);
                    }
                }
            }
        }
    }
}

proof fn lemma_cmd_atom(t: Seq<Token>, p: int)
    ensures
        progresses(cmd_atom(t, p), p, t.len() as int),
    decreases t.len() - p, 1int,
{
    lemma_cmd_simple(t, p);
    lemma_cmd_lets(t, p);
    lemma_cmd_while(t, p);
    lemma_cmd_if(t, p);
}

// ---------------------------------------------------------------------------
// Laws
// ---------------------------------------------------------------------------

/// Every parser either fails or reads at least one token and stops within
/// the input: a match at `p` ends at some `n` with `0 <= p < n <= t.len()`.
/// So no repetition of the grammar can loop without reading input.
pub proof fn law_progress(t: Seq<Token>, p: int)
    ensures
        progresses(lhs(t, p), p, t.len() as int),
        progresses(ty(t, p), p, t.len() as int),
        progresses(arith(t, p), p, t.len() as int),
        progresses(boolean(t, p), p, t.len() as int),
        progresses(expr(t, p), p, t.len() as int),
        progresses(command(t, p), p, t.len() as int),
{
    lemma_lhs(t, p);
    lemma_ty(t, p);
    lemma_arith(t, p);
    lemma_boolean(t, p);
    lemma_expr(t, p);
    lemma_command(t, p);
}

/// The guards `advanced` in the grammar never discard a match: every
/// sub-parser that the grammar guards makes progress.
pub proof fn law_guards_never_fire(t: Seq<Token>, p: int)
    ensures
        advanced(ty(t, p), p, t.len() as int) == ty(t, p),
        advanced(product(t, p), p, t.len() as int) == product(t, p),
        advanced(unary(t, p), p, t.len() as int) == unary(t, p),
        advanced(negation(t, p), p, t.len() as int) == negation(t, p),
        advanced(boolean(t, p), p, t.len() as int) == boolean(t, p),
        advanced(expr_inner(t, p), p, t.len() as int) == expr_inner(t, p),
        advanced(cmd_atom(t, p), p, t.len() as int) == cmd_atom(t, p),
        advanced(cmd_seq(t, p), p, t.len() as int) == cmd_seq(t, p),
{
    lemma_ty(t, p);
    lemma_product(t, p);
    lemma_unary(t, p);
    lemma_negation(t, p);
    lemma_boolean(t, p);
    lemma_expr_inner(t, p);
    lemma_cmd_atom(t, p);
    lemma_cmd_seq(t, p);
}

/// The parsers that allow padding (types, arithmetic and boolean
/// expressions, expressions, commands) consume all the whitespace after
/// what they read: a match never ends just before a whitespace token.
pub proof fn law_trailing_whitespace(t: Seq<Token>, p: int)
    ensures
        ty(t, p) matches Some((n, _)) ==> !is_kind(t, n, TokenKind::Whitespace),
        arith(t, p) matches Some((n, _)) ==> !is_kind(t, n, TokenKind::Whitespace),
        boolean(t, p) matches Some((n, _)) ==> !is_kind(t, n, TokenKind::Whitespace),
        expr(t, p) matches Some((n, _)) ==> !is_kind(t, n, TokenKind::Whitespace),
        command(t, p) matches Some((n, _)) ==> !is_kind(t, n, TokenKind::Whitespace),
    decreases t.len() - p,
{
    if is_kind(t, p, TokenKind::Whitespace) {
        law_trailing_whitespace(t, p + 1);
    } else {
        if let Some((n, _)) = ty_core(t, p) {
            lemma_skip_ws(t, n);
        }
        if let Some((n, _)) = sum(t, p) {
            lemma_skip_ws(t, n);
        }
        if let Some((n, _)) = conj(t, p) {
            lemma_skip_ws(t, n);
        }
        if let Some((n, _)) = expr_inner(t, p) {
            lemma_skip_ws(t, n);
        }
        if let Some((n, _)) = cmd_seq(t, p) {
            lemma_skip_ws(t, n);
        }
    }
}

/// Leading whitespace does not matter to the parsers that allow padding:
/// reading at `p` gives the same as reading at the first non-whitespace
/// position from `p`.
pub proof fn law_leading_whitespace(t: Seq<Token>, p: int)
    ensures
        ty(t, p) == ty(t, skip_ws(t, p)),
        arith(t, p) == arith(t, skip_ws(t, p)),
        boolean(t, p) == boolean(t, skip_ws(t, p)),
        expr(t, p) == expr(t, skip_ws(t, p)),
        command(t, p) == command(t, skip_ws(t, p)),
    decreases t.len() - p,
{
    if is_kind(t, p, TokenKind::Whitespace) {
        law_leading_whitespace(t, p + 1);
    }
}

/// `n` whitespace tokens.
pub open spec fn whitespace(n: nat) -> Seq<Token> {
    Seq::new(n, |i: int| Token::Whitespace)
}

/// What reading a whole input gives: the value, if the match covers all
/// `len` tokens.
pub open spec fn whole<V>(r: Option<(int, V)>, len: int) -> Option<V> {
    match r {
        Some((n, v)) => if n == len {
            Some(v)
        } else {
            None
        },
        None => None,
    }
}

/// Whitespace added before and after an input does not change what the
/// type, arithmetic, boolean and expression parsers read from the whole
/// input.
pub proof fn law_whitespace_around(toks: Seq<Token>, j: nat, k: nat)
    ensures
        ({
            let t = whitespace(j) + toks + whitespace(k);
            &&& whole(ty(t, 0), t.len() as int) == whole(ty(toks, 0), toks.len() as int)
            &&& whole(arith(t, 0), t.len() as int) == whole(arith(toks, 0), toks.len() as int)
            &&& whole(boolean(t, 0), t.len() as int) == whole(
                boolean(toks, 0),
                toks.len() as int,
            )
            &&& whole(expr(t, 0), t.len() as int) == whole(expr(toks, 0), toks.len() as int)
        }),
{
    let t = whitespace(j) + toks + whitespace(k);
    let o = j as int;
    let l = toks.len() as int;
    assert forall|i: int| 0 <= i < toks.len() implies t[o + i] == #[trigger] toks[i] by {}
    assert(embedded(toks, t, o));
    assert forall|i: int| o + l <= i < t.len() implies is_kind(t, i, TokenKind::Whitespace) by {}
    assert forall|i: int| 0 <= i < o implies is_kind(t, i, TokenKind::Whitespace) by {}
    lemma_skip_ws_run(t, o + l, t.len() as int);
    lemma_skip_ws_run(t, 0, o);
    lemma_setup(toks, t, o);
    assert(resume(toks, t, o) == t.len());
    assert(next_kind(toks, t, o) is None);
    assert(corr(toks, t, o, 0, o));
    law_leading_whitespace(t, 0);
    law_leading_whitespace(t, o);
    law_trailing_whitespace(t, o);
    law_progress(toks, 0);
    lemma_ty_ctx(toks, t, o, 0, o);
    lemma_arith_ctx(toks, t, o, 0, o);
    lemma_boolean_ctx(toks, t, o, 0, o);
    lemma_expr_ctx(toks, t, o, 0, o);
}

/// A `let` command laid out in `t`, given what its parts read.
proof fn lemma_let_parse(t: Seq<Token>, name: String, m: int, tv: SpecType, ev: SpecExpr)
    requires
        3 <= m < t.len(),
        t[0] == Token::Let,
        t[1] == Token::Var(name),
        t[2] == Token::Colon,
        ty(t, skip_ws(t, 3)) == Some((m, tv)),
        t[m] == Token::Equals,
        expr(t, skip_ws(t, m + 1)) == Some((t.len() as int, ev)),
    ensures
        command(t, 0) == Some((t.len() as int, SpecCmd::Let(name@, Box::new(tv), Box::new(ev)))),
{
    let len = t.len() as int;
    let d = skip_ws(t, m + 1);
    let c = SpecCmd::Let(name@, Box::new(tv), Box::new(ev));
    assert(skip_ws(t, m) == m);
    assert(op(t, m, TokenKind::Equals) == Some(d));
    assert(skip_ws(t, 2) == 2);
    assert(op(t, 2, TokenKind::Colon) == Some(skip_ws(t, 3)));
    assert(variable(t, 1) == Some((2int, name@)));
    assert(binding_head(t, 1) == Some((d, (name@, tv))));
    assert(skip_ws(t, 1) == 1);
    assert(skip_ws(t, 0) == 0);
    assert(op(t, 0, TokenKind::Let) == Some(1int));
    assert(cmd_let(t, 0) == Some((len, c)));
    assert(cmd_skip(t, 0) is None);
    assert(cmd_simple(t, 0) == Some((len, c)));
    assert(cmd_atom(t, 0) == Some((len, c)));
    law_guards_never_fire(t, 0);
    assert(skip_ws(t, len) == len);
    assert(cmd_seq_rest(t, len, c) == (len, c));
    assert(cmd_seq(t, 0) == Some((len, c)));
}

#[verifier::rlimit(60)]
#[verifier::spinoff_prover]
/// `let x : T = e` built from the tokens of a type and of an expression
/// that each read whole parses to the `let` command of those parts.
pub proof fn law_let_composition(
    name: String,
    type_toks: Seq<Token>,
    expr_toks: Seq<Token>,
    tv: SpecType,
    ev: SpecExpr,
)
    requires
        ty(type_toks, 0) == Some((type_toks.len() as int, tv)),
        expr(expr_toks, 0) == Some((expr_toks.len() as int, ev)),
    ensures
        ({
            let t = seq![Token::Let, Token::Var(name), Token::Colon] + type_toks + seq![
                Token::Equals,
            ] + expr_toks;
            command(t, 0) == Some((t.len() as int, SpecCmd::Let(name@, Box::new(tv), Box::new(ev))))
        }),
{
    let head = seq![Token::Let, Token::Var(name), Token::Colon];
    let t = head + type_toks + seq![Token::Equals] + expr_toks;
    let m = 3 + type_toks.len() as int;
    let e0 = m + 1;
    assert(t =~= head + type_toks + (seq![Token::Equals] + expr_toks));
    lemma_embedded_parts(t, head, type_toks, seq![Token::Equals] + expr_toks);
    assert(t =~= (head + type_toks + seq![Token::Equals]) + expr_toks + seq![]);
    lemma_embedded_parts(t, head + type_toks + seq![Token::Equals], expr_toks, seq![]);
    assert(t[0] == Token::Let && t[1] == Token::Var(name) && t[2] == Token::Colon);
    assert(t[m] == Token::Equals);
    lemma_followed_by(type_toks, t, 3);
    lemma_ty_whole_in(type_toks, t, 3, tv);
    lemma_at_end(expr_toks, t, e0);
    lemma_expr_whole_in(expr_toks, t, e0, ev);
    lemma_let_parse(t, name, m, tv, ev);
}

/// An assignment laid out in `t`, given what its parts read.
proof fn lemma_assign_parse(t: Seq<Token>, m: int, lv: SpecLhs, ev: SpecExpr)
    requires
        0 < m < t.len(),
        lhs(t, 0) == Some((m, lv)),
        t[m] == Token::Equals,
        expr(t, skip_ws(t, m + 1)) == Some((t.len() as int, ev)),
    ensures
        command(t, 0) == Some((t.len() as int, SpecCmd::Assign(Box::new(lv), Box::new(ev)))),
{
    let len = t.len() as int;
    let c = SpecCmd::Assign(Box::new(lv), Box::new(ev));
    assert(is_kind(t, 0, TokenKind::Multiply) || is_kind(t, 0, TokenKind::Var));
    assert(skip_ws(t, 0) == 0);
    assert(skip_ws(t, m) == m);
    assert(cmd_assign(t, 0) == Some((len, c)));
    assert(cmd_skip(t, 0) is None);
    assert(op(t, 0, TokenKind::Let) is None);
    assert(op(t, 0, TokenKind::Free) is None);
    assert(cmd_simple(t, 0) == Some((len, c)));
    assert(cmd_atom(t, 0) == Some((len, c)));
    law_guards_never_fire(t, 0);
    assert(skip_ws(t, len) == len);
    assert(cmd_seq_rest(t, len, c) == (len, c));
    assert(cmd_seq(t, 0) == Some((len, c)));
}

#[verifier::rlimit(60)]
#[verifier::spinoff_prover]
/// `place = e` built from the tokens of a place and of an expression that
/// each read whole parses to the assignment of those parts.
pub proof fn law_assign_composition(
    place_toks: Seq<Token>,
    expr_toks: Seq<Token>,
    lv: SpecLhs,
    ev: SpecExpr,
)
    requires
        lhs(place_toks, 0) == Some((place_toks.len() as int, lv)),
        expr(expr_toks, 0) == Some((expr_toks.len() as int, ev)),
    ensures
        ({
            let t = place_toks + seq![Token::Equals] + expr_toks;
            command(t, 0) == Some((t.len() as int, SpecCmd::Assign(Box::new(lv), Box::new(ev))))
        }),
{
    let t = place_toks + seq![Token::Equals] + expr_toks;
    let m = place_toks.len() as int;
    let e0 = m + 1;
    lemma_lhs(place_toks, 0);
    assert(t =~= seq![] + place_toks + (seq![Token::Equals] + expr_toks));
    lemma_embedded_parts(t, seq![], place_toks, seq![Token::Equals] + expr_toks);
    assert(t =~= (place_toks + seq![Token::Equals]) + expr_toks + seq![]);
    lemma_embedded_parts(t, place_toks + seq![Token::Equals], expr_toks, seq![]);
    assert(t[m] == Token::Equals);
    lemma_followed_by(place_toks, t, 0);
    lemma_lhs_whole_in(place_toks, t, 0, lv);
    lemma_at_end(expr_toks, t, e0);
    lemma_expr_whole_in(expr_toks, t, e0, ev);
    lemma_assign_parse(t, m, lv, ev);
}

/// `part` sits in `t` after `before` and before `after`.
proof fn lemma_embedded_parts(t: Seq<Token>, before: Seq<Token>, part: Seq<Token>, after: Seq<Token>)
    requires
        t == before + part + after,
    ensures
        embedded(part, t, before.len() as int),
        t.len() == before.len() + part.len() + after.len(),
        forall|i: int| 0 <= i < before.len() ==> t[i] == before[i],
        forall|i: int|
            0 <= i < after.len() ==> t[before.len() + part.len() + i] == #[trigger] after[i],
{
    let o = before.len() as int;
    assert forall|i: int| 0 <= i < part.len() implies t[o + i] == #[trigger] part[i] by {
        assert((before + part)[o + i] == part[i]);
    }
}

/// A type that reads whole on its own reads the same inside `t`.
proof fn lemma_ty_whole_in(part: Seq<Token>, t: Seq<Token>, o: int, v: SpecType)
    requires
        embedded(part, t, o),
        stops_type(part, t, o),
        ty(part, 0) == Some((part.len() as int, v)),
    ensures
        ty(t, skip_ws(t, o)) == Some((resume(part, t, o), v)),
{
    lemma_setup(part, t, o);
    assert(corr(part, t, o, 0, o));
    lemma_ty_ctx(part, t, o, 0, o);
    law_leading_whitespace(t, o);
    law_trailing_whitespace(t, o);
}

/// An expression that reads whole on its own reads the same inside `t`.
proof fn lemma_expr_whole_in(part: Seq<Token>, t: Seq<Token>, o: int, v: SpecExpr)
    requires
        embedded(part, t, o),
        stops_expr(part, t, o),
        expr(part, 0) == Some((part.len() as int, v)),
    ensures
        expr(t, skip_ws(t, o)) == Some((resume(part, t, o), v)),
{
    lemma_setup(part, t, o);
    assert(corr(part, t, o, 0, o));
    lemma_expr_ctx(part, t, o, 0, o);
    law_leading_whitespace(t, o);
    law_trailing_whitespace(t, o);
}

/// A place that reads whole on its own reads the same inside `t`.
proof fn lemma_lhs_whole_in(part: Seq<Token>, t: Seq<Token>, o: int, v: SpecLhs)
    requires
        embedded(part, t, o),
        stops_lhs(part, t, o),
        lhs(part, 0) == Some((part.len() as int, v)),
        !is_kind(t, o + part.len(), TokenKind::Whitespace),
    ensures
        lhs(t, o) == Some((o + part.len(), v)),
{
    lemma_setup(part, t, o);
    law_progress(part, 0);
    assert(corr(part, t, o, 0, o));
    lemma_lhs_ctx(part, t, o, 0, o);
}

/// What follows `part` in `t` is a token other than whitespace: reading
/// resumes right there.
proof fn lemma_followed_by(part: Seq<Token>, t: Seq<Token>, o: int)
    requires
        embedded(part, t, o),
        o + part.len() < t.len(),
        !is_kind(t, o + part.len(), TokenKind::Whitespace),
    ensures
        resume(part, t, o) == o + part.len(),
        next_kind(part, t, o) == Some(kind_of(t[o + part.len()])),
        corr(part, t, o, part.len() as int, o + part.len()),
{
}

/// `part` ends `t`: reading resumes at the end.
proof fn lemma_at_end(part: Seq<Token>, t: Seq<Token>, o: int)
    requires
        embedded(part, t, o),
        o + part.len() == t.len(),
    ensures
        resume(part, t, o) == t.len(),
        next_kind(part, t, o) is None,
        corr(part, t, o, 0, o),
{
}

// ---------------------------------------------------------------------------
// Sequences
// ---------------------------------------------------------------------------

/// Token sequences joined by `;`.
pub open spec fn join_commands(ps: Seq<Seq<Token>>) -> Seq<Token>
    decreases ps.len(),
{
    if ps.len() == 0 {
        seq![]
    } else if ps.len() == 1 {
        ps[0]
    } else {
        ps[0] + seq![Token::Semicolon] + join_commands(ps.drop_first())
    }
}

/// `acc` followed by the commands `cs`, nested to the left.
pub open spec fn fold_sequence(acc: SpecCmd, cs: Seq<SpecCmd>) -> SpecCmd
    decreases cs.len(),
{
    if cs.len() == 0 {
        acc
    } else {
        fold_sequence(SpecCmd::Sequence(Box::new(acc), Box::new(cs[0])), cs.drop_first())
    }
}

/// A command that contains no command: not a sequence, `while` or `if`.
pub open spec fn is_simple(c: SpecCmd) -> bool {
    !(c is Sequence) && !(c is While) && !(c is If)
}

/// The rest of a sequence either reads nothing or builds a sequence node.
proof fn lemma_seq_rest_shape(t: Seq<Token>, p: int, acc: SpecCmd)
    ensures
        cmd_seq_rest(t, p, acc) == (p, acc) || cmd_seq_rest(t, p, acc).1 is Sequence,
    decreases t.len() - p,
{
    lemma_op(t, p, TokenKind::Semicolon);
    if let Some(a) = op(t, p, TokenKind::Semicolon) {
        if let Some((n, c)) = advanced(cmd_atom(t, a), a, t.len() as int) {
            lemma_seq_rest_shape(t, n, SpecCmd::Sequence(Box::new(acc), Box::new(c)));
        }
    }
}

/// A token sequence that reads whole as a simple command reads it as one
/// simple command after its leading whitespace, followed by whitespace only.
proof fn lemma_piece(x: Seq<Token>, c: SpecCmd) -> (r: (int, int))
    requires
        command(x, 0) == Some((x.len() as int, c)),
        is_simple(c),
    ensures
        r.0 == skip_ws(x, 0),
        0 <= r.0 < x.len(),
        cmd_simple(x, r.0) == Some((r.1, c)),
        skip_ws(x, r.1) == x.len(),
{
    let q = skip_ws(x, 0);
    law_leading_whitespace(x, 0);
    lemma_skip_ws(x, 0);
    law_progress(x, q);
    let (n, c0) = cmd_atom(x, q).unwrap();
    law_guards_never_fire(x, q);
    lemma_seq_rest_shape(x, n, c0);
    (q, n)
}

/// A piece that reads whole as a simple command reads the same inside `u`
/// when what follows it there is `;` or the end.
proof fn lemma_simple_whole_in(x: Seq<Token>, u: Seq<Token>, o: int, c: SpecCmd, q: int, n: int) -> (n2: int)
    requires
        embedded(x, u, o),
        stops_cmd(x, u, o),
        q == skip_ws(x, 0),
        0 <= q < x.len(),
        cmd_simple(x, q) == Some((n, c)),
        skip_ws(x, n) == x.len(),
    ensures
        skip_ws(u, o) == o + q,
        cmd_simple(u, o + q) == Some((n2, c)),
        skip_ws(u, n2) == resume(x, u, o),
{
    lemma_setup(x, u, o);
    assert(corr(x, u, o, 0, o));
    lemma_ws(x, u, o, 0, o);
    lemma_cmd_simple_ctx(x, u, o, q, o + q);
    let n2 = cmd_simple(u, o + q).unwrap().0;
    lemma_ws(x, u, o, n, n2);
    n2
}

/// What the pieces of a sequence are.
pub open spec fn pieces_read(ps: Seq<Seq<Token>>, cs: Seq<SpecCmd>) -> bool {
    &&& cs.len() == ps.len()
    &&& forall|i: int|
        0 <= i < ps.len() ==> command(#[trigger] ps[i], 0) == Some((ps[i].len() as int, cs[i]))
            && is_simple(cs[i])
}

#[verifier::rlimit(60)]
#[verifier::spinoff_prover]
/// One step of a sequence: `;` at `o`, then a piece that reads whole as the
/// simple command `c`.
#[verifier::rlimit(60)]
proof fn lemma_seq_step(u: Seq<Token>, p: int, o: int, x: Seq<Token>, c: SpecCmd, acc: SpecCmd) -> (n2: int)
    requires
        0 <= p <= o,
        skip_ws(u, p) == o,
        o < u.len(),
        u[o] == Token::Semicolon,
        embedded(x, u, o + 1),
        stops_cmd(x, u, o + 1),
        command(x, 0) == Some((x.len() as int, c)),
        is_simple(c),
    ensures
        cmd_seq_rest(u, p, acc) == cmd_seq_rest(u, n2, SpecCmd::Sequence(Box::new(acc), Box::new(c))),
        skip_ws(u, n2) == resume(x, u, o + 1),
        o < n2,
{
    let o1 = o + 1;
    let (q, n) = lemma_piece(x, c);
    let n2 = lemma_simple_whole_in(x, u, o1, c, q, n);
    let a = o1 + q;
    assert(op(u, p, TokenKind::Semicolon) == Some(a));
    law_guards_never_fire(u, a);
    assert(cmd_atom(u, a) == Some((n2, c)));
    n2
}

/// At `e` a sequence of commands ends: the end of the input, or a token
/// that no command reads and that is neither `;` nor whitespace.
pub open spec fn closes_sequence(u: Seq<Token>, e: int) -> bool {
    ||| e == u.len()
    ||| 0 <= e < u.len() && !reads_cmd(kind_of(u[e])) && kind_of(u[e]) != TokenKind::Semicolon
        && kind_of(u[e]) != TokenKind::Whitespace
}

/// The first piece of a joined sequence, and what follows it.
proof fn lemma_join_first(ps: Seq<Seq<Token>>, u: Seq<Token>, o: int)
    requires
        ps.len() >= 1,
        embedded(join_commands(ps), u, o),
        closes_sequence(u, o + join_commands(ps).len()),
    ensures
        embedded(ps[0], u, o),
        stops_cmd(ps[0], u, o),
        ps.len() == 1 ==> resume(ps[0], u, o) == o + join_commands(ps).len(),
        ps.len() > 1 ==> {
            let e = o + ps[0].len();
            &&& resume(ps[0], u, o) == e
            &&& e < u.len()
            &&& u[e] == Token::Semicolon
            &&& embedded(join_commands(ps.drop_first()), u, e + 1)
            &&& o + join_commands(ps).len() == e + 1 + join_commands(ps.drop_first()).len()
        },
{
    let x = ps[0];
    let e = o + x.len();
    if ps.len() == 1 {
        assert(join_commands(ps) == x);
    } else {
        let rest = ps.drop_first();
        assert(join_commands(ps) == x + (seq![Token::Semicolon] + join_commands(rest)));
        lemma_embedded_split(join_commands(ps), u, o, x, seq![Token::Semicolon] + join_commands(rest));
        lemma_embedded_split(
            seq![Token::Semicolon] + join_commands(rest),
            u,
            e,
            seq![Token::Semicolon],
            join_commands(rest),
        );
        assert(u[e + 0] == seq![Token::Semicolon][0]);
    }
}

proof fn lemma_pieces_rest(ps: Seq<Seq<Token>>, cs: Seq<SpecCmd>)
    requires
        ps.len() >= 1,
        pieces_read(ps, cs),
    ensures
        pieces_read(ps.drop_first(), cs.drop_first()),
        command(ps[0], 0) == Some((ps[0].len() as int, cs[0])),
        is_simple(cs[0]),
{
    let rest = ps.drop_first();
    let cs_rest = cs.drop_first();
    assert(command(ps[0], 0) == Some((ps[0].len() as int, cs[0])) && is_simple(cs[0]));
    assert forall|i: int| 0 <= i < rest.len() implies command(#[trigger] rest[i], 0) == Some(
        (rest[i].len() as int, cs_rest[i]),
    ) && is_simple(cs_rest[i]) by {
        assert(rest[i] == ps[i + 1]);
        assert(cs_rest[i] == cs[i + 1]);
    }
}

/// After a `;` at `o`, the remaining pieces extend the sequence `acc`.
#[verifier::rlimit(60)]
#[verifier::spinoff_prover]
proof fn lemma_seq_rest_join(
    u: Seq<Token>,
    p: int,
    o: int,
    ps: Seq<Seq<Token>>,
    cs: Seq<SpecCmd>,
    acc: SpecCmd,
)
    requires
        ps.len() >= 1,
        pieces_read(ps, cs),
        0 <= p <= o,
        skip_ws(u, p) == o,
        o < u.len(),
        u[o] == Token::Semicolon,
        closes_sequence(u, o + 1 + join_commands(ps).len()),
        embedded(join_commands(ps), u, o + 1),
    ensures
        cmd_seq_rest(u, p, acc).1 == fold_sequence(acc, cs),
        skip_ws(u, cmd_seq_rest(u, p, acc).0) == o + 1 + join_commands(ps).len(),
    decreases ps.len(),
{
    let x = ps[0];
    let c = cs[0];
    lemma_pieces_rest(ps, cs);
    lemma_join_first(ps, u, o + 1);
    let acc2 = SpecCmd::Sequence(Box::new(acc), Box::new(c));
    let n2 = lemma_seq_step(u, p, o, x, c, acc);
    lemma_skip_ws(u, n2);
    if ps.len() == 1 {
        assert(op(u, n2, TokenKind::Semicolon) is None);
        assert(cmd_seq_rest(u, n2, acc2) == (n2, acc2));
        assert(fold_sequence(acc2, cs.drop_first()) == acc2);
    } else {
        lemma_seq_rest_join(u, n2, o + 1 + x.len(), ps.drop_first(), cs.drop_first(), acc2);
    }
}

/// Simple commands joined by `;` parse to the left-nested sequence of the
/// commands that each piece reads on its own.
pub proof fn law_sequence_composition(ps: Seq<Seq<Token>>, cs: Seq<SpecCmd>)
    requires
        ps.len() >= 1,
        pieces_read(ps, cs),
    ensures
        command(join_commands(ps), 0) == Some(
            (join_commands(ps).len() as int, fold_sequence(cs[0], cs.drop_first())),
        ),
{
    let u = join_commands(ps);
    assert forall|i: int| 0 <= i < u.len() implies u[0 + i] == #[trigger] u[i] by {}
    let n = lemma_sequence_in(ps, cs, u, 0);
    law_leading_whitespace(u, 0);
    lemma_skip_ws(u, 0);
}

// ---------------------------------------------------------------------------
// The other commands
// ---------------------------------------------------------------------------

/// The command read whole at 0 is `c`, given that the atom at 0 reads `c`
/// up to the end.
proof fn lemma_atom_is_command(t: Seq<Token>, c: SpecCmd)
    requires
        0 < t.len(),
        !is_kind(t, 0, TokenKind::Whitespace),
        cmd_atom(t, 0) == Some((t.len() as int, c)),
    ensures
        command(t, 0) == Some((t.len() as int, c)),
{
    let len = t.len() as int;
    law_guards_never_fire(t, 0);
    assert(skip_ws(t, len) == len);
    assert(cmd_seq_rest(t, len, c) == (len, c));
    assert(cmd_seq(t, 0) == Some((len, c)));
}

/// A `let mut` command laid out in `t`, given what its parts read.
proof fn lemma_let_mut_parse(t: Seq<Token>, name: String, m: int, tv: SpecType, ev: SpecExpr)
    requires
        4 <= m < t.len(),
        t[0] == Token::Let,
        t[1] == Token::Mut,
        t[2] == Token::Var(name),
        t[3] == Token::Colon,
        ty(t, skip_ws(t, 4)) == Some((m, tv)),
        t[m] == Token::Equals,
        expr(t, skip_ws(t, m + 1)) == Some((t.len() as int, ev)),
    ensures
        command(t, 0) == Some(
            (t.len() as int, SpecCmd::LetMut(name@, Box::new(tv), Box::new(ev))),
        ),
{
    let len = t.len() as int;
    let d = skip_ws(t, m + 1);
    let c = SpecCmd::LetMut(name@, Box::new(tv), Box::new(ev));
    assert(skip_ws(t, m) == m);
    assert(op(t, m, TokenKind::Equals) == Some(d));
    assert(skip_ws(t, 3) == 3);
    assert(op(t, 3, TokenKind::Colon) == Some(skip_ws(t, 4)));
    assert(variable(t, 2) == Some((3int, name@)));
    assert(binding_head(t, 2) == Some((d, (name@, tv))));
    assert(skip_ws(t, 2) == 2);
    assert(skip_ws(t, 1) == 1);
    assert(skip_ws(t, 0) == 0);
    assert(op(t, 0, TokenKind::Let) == Some(1int));
    assert(op(t, 1, TokenKind::Mut) == Some(2int));
    assert(binding_head(t, 1) is None);
    assert(cmd_let(t, 0) is None);
    assert(cmd_let_mut(t, 0) == Some((len, c)));
    assert(cmd_skip(t, 0) is None);
    assert(cmd_simple(t, 0) == Some((len, c)));
    assert(cmd_atom(t, 0) == Some((len, c)));
    lemma_atom_is_command(t, c);
}

#[verifier::rlimit(60)]
#[verifier::spinoff_prover]
/// `let mut x : T = e` built from the tokens of a type and of an expression
/// that each read whole parses to the `let mut` command of those parts.
pub proof fn law_let_mut_composition(
    name: String,
    type_toks: Seq<Token>,
    expr_toks: Seq<Token>,
    tv: SpecType,
    ev: SpecExpr,
)
    requires
        ty(type_toks, 0) == Some((type_toks.len() as int, tv)),
        expr(expr_toks, 0) == Some((expr_toks.len() as int, ev)),
    ensures
        ({
            let t = seq![Token::Let, Token::Mut, Token::Var(name), Token::Colon] + type_toks
                + seq![Token::Equals] + expr_toks;
            command(t, 0) == Some(
                (t.len() as int, SpecCmd::LetMut(name@, Box::new(tv), Box::new(ev))),
            )
        }),
{
    let head = seq![Token::Let, Token::Mut, Token::Var(name), Token::Colon];
    let t = head + type_toks + seq![Token::Equals] + expr_toks;
    let m = 4 + type_toks.len() as int;
    let e0 = m + 1;
    assert(t =~= head + type_toks + (seq![Token::Equals] + expr_toks));
    lemma_embedded_parts(t, head, type_toks, seq![Token::Equals] + expr_toks);
    assert(t =~= (head + type_toks + seq![Token::Equals]) + expr_toks + seq![]);
    lemma_embedded_parts(t, head + type_toks + seq![Token::Equals], expr_toks, seq![]);
    assert(t[0] == Token::Let && t[1] == Token::Mut && t[2] == Token::Var(name) && t[3]
        == Token::Colon);
    assert(t[m] == Token::Equals);
    lemma_followed_by(type_toks, t, 4);
    lemma_ty_whole_in(type_toks, t, 4, tv);
    lemma_at_end(expr_toks, t, e0);
    lemma_expr_whole_in(expr_toks, t, e0, ev);
    lemma_let_mut_parse(t, name, m, tv, ev);
}

#[verifier::rlimit(60)]
#[verifier::spinoff_prover]
/// `free ( place )` built from the tokens of a place that reads whole
/// parses to freeing that place.
pub proof fn law_free_composition(place_toks: Seq<Token>, lv: SpecLhs)
    requires
        lhs(place_toks, 0) == Some((place_toks.len() as int, lv)),
    ensures
        ({
            let t = seq![Token::Free, Token::LParen] + place_toks + seq![Token::RParen];
            command(t, 0) == Some((t.len() as int, SpecCmd::Free(Box::new(lv))))
        }),
{
    let head = seq![Token::Free, Token::LParen];
    let t = head + place_toks + seq![Token::RParen];
    let len = t.len() as int;
    let m = 2 + place_toks.len() as int;
    let c = SpecCmd::Free(Box::new(lv));
    lemma_lhs(place_toks, 0);
    lemma_embedded_parts(t, head, place_toks, seq![Token::RParen]);
    assert(t[0] == Token::Free && t[1] == Token::LParen);
    assert(t[m] == Token::RParen);
    assert(t[2] == place_toks[0]);
    lemma_followed_by(place_toks, t, 2);
    lemma_lhs_whole_in(place_toks, t, 2, lv);
    assert(skip_ws(t, 0) == 0);
    assert(skip_ws(t, 1) == 1);
    assert(skip_ws(t, 2) == 2);
    assert(skip_ws(t, m) == m);
    assert(skip_ws(t, len) == len);
    assert(op(t, 0, TokenKind::Free) == Some(1int));
    assert(op(t, 1, TokenKind::LParen) == Some(2int));
    assert(op(t, m, TokenKind::RParen) == Some(len));
    assert(cmd_free(t, 0) == Some((len, c)));
    assert(cmd_skip(t, 0) is None);
    assert(op(t, 0, TokenKind::Let) is None);
    assert(lhs(t, 0) is None);
    assert(cmd_simple(t, 0) == Some((len, c)));
    assert(cmd_atom(t, 0) == Some((len, c)));
    lemma_atom_is_command(t, c);
}

/// `skip`, with any whitespace around it, is the command that does
/// nothing.
pub proof fn law_skip_padded(j: nat, k: nat)
    ensures
        ({
            let t = whitespace(j) + seq![Token::Skip] + whitespace(k);
            command(t, 0) == Some((t.len() as int, SpecCmd::Skip))
        }),
{
    let t = whitespace(j) + seq![Token::Skip] + whitespace(k);
    let o = j as int;
    let len = t.len() as int;
    assert(t[o] == Token::Skip);
    assert forall|i: int| o + 1 <= i < len implies is_kind(t, i, TokenKind::Whitespace) by {}
    assert forall|i: int| 0 <= i < o implies is_kind(t, i, TokenKind::Whitespace) by {}
    lemma_skip_ws_run(t, o + 1, len);
    lemma_skip_ws_run(t, 0, o);
    law_leading_whitespace(t, 0);
    assert(skip_ws(t, o) == o);
    assert(op(t, o, TokenKind::Skip) == Some(len));
    assert(cmd_skip(t, o) == Some((len, SpecCmd::Skip)));
    assert(cmd_atom(t, o) == Some((len, SpecCmd::Skip)));
    law_guards_never_fire(t, o);
    assert(skip_ws(t, len) == len);
    assert(cmd_seq_rest(t, len, SpecCmd::Skip) == (len, SpecCmd::Skip));
    assert(cmd_seq(t, o) == Some((len, SpecCmd::Skip)));
}


/// A boolean expression that reads whole on its own reads the same inside
/// `t`.
proof fn lemma_bool_whole_in(part: Seq<Token>, t: Seq<Token>, o: int, v: SpecBool)
    requires
        embedded(part, t, o),
        stops_bool(part, t, o),
        boolean(part, 0) == Some((part.len() as int, v)),
    ensures
        boolean(t, skip_ws(t, o)) == Some((resume(part, t, o), v)),
{
    lemma_setup(part, t, o);
    assert(corr(part, t, o, 0, o));
    lemma_boolean_ctx(part, t, o, 0, o);
    law_leading_whitespace(t, o);
    law_trailing_whitespace(t, o);
}

/// Simple commands joined by `;`, laid out in `u` from `o` and closed
/// there, are read by the sequence parser as the left-nested sequence of the
/// pieces' commands.
proof fn lemma_sequence_in(ps: Seq<Seq<Token>>, cs: Seq<SpecCmd>, u: Seq<Token>, o: int) -> (n: int)
    requires
        ps.len() >= 1,
        pieces_read(ps, cs),
        embedded(join_commands(ps), u, o),
        closes_sequence(u, o + join_commands(ps).len()),
    ensures
        o <= skip_ws(u, o) < u.len(),
        cmd_seq(u, skip_ws(u, o)) == Some((n, fold_sequence(cs[0], cs.drop_first()))),
        skip_ws(u, n) == o + join_commands(ps).len(),
{
    let x = ps[0];
    let c = cs[0];
    lemma_pieces_rest(ps, cs);
    lemma_join_first(ps, u, o);
    let (q, n) = lemma_piece(x, c);
    let n2 = lemma_simple_whole_in(x, u, o, c, q, n);
    law_guards_never_fire(u, o + q);
    assert(cmd_atom(u, o + q) == Some((n2, c)));
    assert(cmd_seq(u, o + q) == Some(cmd_seq_rest(u, n2, c)));
    lemma_skip_ws(u, n2);
    if ps.len() == 1 {
        assert(op(u, n2, TokenKind::Semicolon) is None);
        assert(cmd_seq_rest(u, n2, c) == (n2, c));
        assert(fold_sequence(c, cs.drop_first()) == c);
        n2
    } else {
        lemma_seq_rest_join(u, n2, o + x.len(), ps.drop_first(), cs.drop_first(), c);
        cmd_seq_rest(u, n2, c).0
    }
}

/// No simple command starts at `while` or `if`.
proof fn lemma_not_simple(t: Seq<Token>, p: int)
    requires
        is_kind(t, p, TokenKind::While) || is_kind(t, p, TokenKind::If),
    ensures
        cmd_simple(t, p) is None,
{
    assert(skip_ws(t, p) == p);
    assert(cmd_skip(t, p) is None);
    assert(op(t, p, TokenKind::Let) is None);
    assert(cmd_let(t, p) is None);
    assert(cmd_let_mut(t, p) is None);
    assert(cmd_let_alloc(t, p) is None);
    assert(cmd_let_mut_alloc(t, p) is None);
    assert(lhs(t, p) is None);
    assert(cmd_assign(t, p) is None);
    assert(op(t, p, TokenKind::Free) is None);
    assert(cmd_free(t, p) is None);
}

/// The command read at 0 is the atom read at 0 when that atom reaches
/// the end, up to trailing whitespace.
proof fn lemma_atom_to_end(t: Seq<Token>, n: int, c: SpecCmd)
    requires
        !is_kind(t, 0, TokenKind::Whitespace),
        cmd_atom(t, 0) == Some((n, c)),
        skip_ws(t, n) == t.len(),
    ensures
        command(t, 0) == Some((t.len() as int, c)),
{
    law_guards_never_fire(t, 0);
    law_progress(t, 0);
    assert(op(t, n, TokenKind::Semicolon) is None);
    assert(cmd_seq_rest(t, n, c) == (n, c));
    assert(cmd_seq(t, 0) == Some((n, c)));
}

/// A `while` command laid out in `t`, given what its parts read.
#[verifier::rlimit(60)]
#[verifier::spinoff_prover]
proof fn lemma_while_parse(t: Seq<Token>, m: int, bv: SpecBool, n: int, bodyv: SpecCmd)
    requires
        1 < m < t.len(),
        t[0] == Token::While,
        t[m] == Token::Do,
        boolean(t, skip_ws(t, 1)) == Some((m, bv)),
        cmd_seq(t, skip_ws(t, m + 1)) == Some((n, bodyv)),
        skip_ws(t, n) == t.len(),
    ensures
        command(t, 0) == Some((t.len() as int, SpecCmd::While(Box::new(bv), Box::new(bodyv)))),
{
    let a = skip_ws(t, 1);
    let c = SpecCmd::While(Box::new(bv), Box::new(bodyv));
    lemma_skip_ws(t, 1);
    assert(skip_ws(t, 0) == 0);
    assert(skip_ws(t, m) == m);
    assert(op(t, 0, TokenKind::While) == Some(a));
    law_guards_never_fire(t, a);
    assert(op(t, m, TokenKind::Do) == Some(skip_ws(t, m + 1)));
    assert(cmd_while(t, 0) == Some((n, c)));
    lemma_not_simple(t, 0);
    assert(cmd_atom(t, 0) == Some((n, c)));
    lemma_atom_to_end(t, n, c);
}

/// Where the parts of `k1 A k2 B` sit in `t`.
proof fn lemma_keyword_layout(t: Seq<Token>, k1: Token, a: Seq<Token>, k2: Token, b: Seq<Token>)
    requires
        t == seq![k1] + a + seq![k2] + b,
    ensures
        t.len() == a.len() + b.len() + 2,
        t[0] == k1,
        t[a.len() as int + 1] == k2,
        embedded(a, t, 1),
        embedded(b, t, a.len() as int + 2),
{
    assert(t =~= seq![k1] + a + (seq![k2] + b));
    lemma_embedded_parts(t, seq![k1], a, seq![k2] + b);
    assert(t =~= (seq![k1] + a + seq![k2]) + b + seq![]);
    lemma_embedded_parts(t, seq![k1] + a + seq![k2], b, seq![]);
    assert(t[0] == (seq![k1] + a + seq![k2])[0]);
    assert(t[a.len() as int + 1] == (seq![k1] + a + seq![k2])[a.len() as int + 1]);
}

#[verifier::rlimit(60)]
#[verifier::spinoff_prover]
/// `while B do C1; ...; Ck`, built from the tokens of a condition that reads
/// whole and of simple commands that each read whole, parses to the loop
/// whose body is the sequence of those commands.
pub proof fn law_while_composition(
    cond_toks: Seq<Token>,
    bv: SpecBool,
    ps: Seq<Seq<Token>>,
    cs: Seq<SpecCmd>,
)
    requires
        boolean(cond_toks, 0) == Some((cond_toks.len() as int, bv)),
        ps.len() >= 1,
        pieces_read(ps, cs),
    ensures
        ({
            let t = seq![Token::While] + cond_toks + seq![Token::Do] + join_commands(ps);
            command(t, 0) == Some(
                (
                    t.len() as int,
                    SpecCmd::While(Box::new(bv), Box::new(fold_sequence(cs[0], cs.drop_first()))),
                ),
            )
        }),
{
    let body = join_commands(ps);
    let t = seq![Token::While] + cond_toks + seq![Token::Do] + body;
    let m = 1 + cond_toks.len() as int;
    law_progress(cond_toks, 0);
    lemma_keyword_layout(t, Token::While, cond_toks, Token::Do, body);
    lemma_followed_by(cond_toks, t, 1);
    lemma_bool_whole_in(cond_toks, t, 1, bv);
    let n = lemma_sequence_in(ps, cs, t, m + 1);
    lemma_while_parse(t, m, bv, n, fold_sequence(cs[0], cs.drop_first()));
}


/// The `if` alternative at 0, given what its parts read.
#[verifier::rlimit(100)]
#[verifier::spinoff_prover]
proof fn lemma_if_at(
    t: Seq<Token>,
    a: int,
    m: int,
    bv: SpecBool,
    c: int,
    d: int,
    c1: SpecCmd,
    f: int,
    n: int,
    c2: SpecCmd,
)
    requires
        op(t, 0, TokenKind::If) == Some(a),
        advanced(boolean(t, a), a, t.len() as int) == Some((m, bv)),
        op(t, m, TokenKind::Then) == Some(c),
        advanced(cmd_seq(t, c), c, t.len() as int) == Some((d, c1)),
        op(t, d, TokenKind::Else) == Some(f),
        cmd_seq(t, f) == Some((n, c2)),
    ensures
        cmd_if(t, 0) == Some((n, SpecCmd::If(Box::new(bv), Box::new(c1), Box::new(c2)))),
{
}

/// The keywords of an `if` command laid out in `t`.
proof fn lemma_if_keywords(t: Seq<Token>, m: int, d: int, e: int)
    requires
        1 < m < e < t.len(),
        t[0] == Token::If,
        t[m] == Token::Then,
        t[e] == Token::Else,
        skip_ws(t, d) == e,
    ensures
        op(t, 0, TokenKind::If) == Some(skip_ws(t, 1)),
        op(t, m, TokenKind::Then) == Some(skip_ws(t, m + 1)),
        op(t, d, TokenKind::Else) == Some(skip_ws(t, e + 1)),
        op(t, 0, TokenKind::While) is None,
{
    assert(skip_ws(t, 0) == 0);
    assert(skip_ws(t, m) == m);
}

/// An `if` command laid out in `t`, given what its parts read.
#[verifier::rlimit(60)]
#[verifier::spinoff_prover]
proof fn lemma_if_parse(
    t: Seq<Token>,
    m: int,
    bv: SpecBool,
    d: int,
    c1: SpecCmd,
    e: int,
    n: int,
    c2: SpecCmd,
)
    requires
        1 < m < e < t.len(),
        t[0] == Token::If,
        t[m] == Token::Then,
        t[e] == Token::Else,
        boolean(t, skip_ws(t, 1)) == Some((m, bv)),
        cmd_seq(t, skip_ws(t, m + 1)) == Some((d, c1)),
        skip_ws(t, d) == e,
        cmd_seq(t, skip_ws(t, e + 1)) == Some((n, c2)),
        skip_ws(t, n) == t.len(),
    ensures
        command(t, 0) == Some(
            (t.len() as int, SpecCmd::If(Box::new(bv), Box::new(c1), Box::new(c2))),
        ),
{
    let cmd = SpecCmd::If(Box::new(bv), Box::new(c1), Box::new(c2));
    lemma_if_keywords(t, m, d, e);
    law_guards_never_fire(t, skip_ws(t, 1));
    law_guards_never_fire(t, skip_ws(t, m + 1));
    lemma_if_at(t, skip_ws(t, 1), m, bv, skip_ws(t, m + 1), d, c1, skip_ws(t, e + 1), n, c2);
    lemma_not_simple(t, 0);
    assert(cmd_while(t, 0) is None);
    assert(cmd_atom(t, 0) == Some((n, cmd)));
    lemma_atom_to_end(t, n, cmd);
}

/// Where the parts of `if B then S1 else S2` sit in `t`.
proof fn lemma_if_layout(t: Seq<Token>, cond: Seq<Token>, b1: Seq<Token>, b2: Seq<Token>)
    requires
        t == seq![Token::If] + cond + seq![Token::Then] + b1 + seq![Token::Else] + b2,
    ensures
        ({
            let m = 1 + cond.len() as int;
            let e = m + 1 + b1.len();
            &&& t.len() == e + 1 + b2.len()
            &&& t[0] == Token::If
            &&& t[m] == Token::Then
            &&& t[e] == Token::Else
            &&& embedded(cond, t, 1)
            &&& embedded(b1, t, m + 1)
            &&& embedded(b2, t, e + 1)
        }),
{
    let rest = b1 + seq![Token::Else] + b2;
    let m = 1 + cond.len() as int;
    let e = m + 1 + b1.len();
    assert(t =~= seq![Token::If] + cond + seq![Token::Then] + rest);
    lemma_keyword_layout(t, Token::If, cond, Token::Then, rest);
    assert(rest =~= b1 + (seq![Token::Else] + b2));
    lemma_embedded_split(rest, t, m + 1, b1, seq![Token::Else] + b2);
    lemma_embedded_split(seq![Token::Else] + b2, t, e, seq![Token::Else], b2);
    assert(t[e + 0] == seq![Token::Else][0]);
}

#[verifier::rlimit(60)]
#[verifier::spinoff_prover]
/// `if B then C1; ...; Cj else D1; ...; Dk`, built from the tokens of a
/// condition that reads whole and of simple commands that each read whole,
/// parses to the conditional whose branches are the two sequences, in
/// order.
pub proof fn law_if_composition(
    cond_toks: Seq<Token>,
    bv: SpecBool,
    ps1: Seq<Seq<Token>>,
    cs1: Seq<SpecCmd>,
    ps2: Seq<Seq<Token>>,
    cs2: Seq<SpecCmd>,
)
    requires
        boolean(cond_toks, 0) == Some((cond_toks.len() as int, bv)),
        ps1.len() >= 1,
        pieces_read(ps1, cs1),
        ps2.len() >= 1,
        pieces_read(ps2, cs2),
    ensures
        ({
            let t = seq![Token::If] + cond_toks + seq![Token::Then] + join_commands(ps1) + seq![
                Token::Else,
            ] + join_commands(ps2);
            command(t, 0) == Some(
                (
                    t.len() as int,
                    SpecCmd::If(
                        Box::new(bv),
                        Box::new(fold_sequence(cs1[0], cs1.drop_first())),
                        Box::new(fold_sequence(cs2[0], cs2.drop_first())),
                    ),
                ),
            )
        }),
{
    let b1 = join_commands(ps1);
    let b2 = join_commands(ps2);
    let t = seq![Token::If] + cond_toks + seq![Token::Then] + b1 + seq![Token::Else] + b2;
    let m = 1 + cond_toks.len() as int;
    let e = m + 1 + b1.len();
    law_progress(cond_toks, 0);
    lemma_if_layout(t, cond_toks, b1, b2);
    lemma_followed_by(cond_toks, t, 1);
    lemma_bool_whole_in(cond_toks, t, 1, bv);
    let d = lemma_sequence_in(ps1, cs1, t, m + 1);
    let n = lemma_sequence_in(ps2, cs2, t, e + 1);
    lemma_if_parse(
        t,
        m,
        bv,
        d,
        fold_sequence(cs1[0], cs1.drop_first()),
        e,
        n,
        fold_sequence(cs2[0], cs2.drop_first()),
    );
}


/// The `alloc ( A )` argument at `b`, given where its parts sit.
proof fn lemma_alloc_at(t: Seq<Token>, b: int, av: SpecArith, r: int)
    requires
        0 <= b,
        b + 2 < r < t.len(),
        t[b] == Token::Alloc,
        t[b + 1] == Token::LParen,
        arith(t, b + 2) == Some((r, av)),
        t[r] == Token::RParen,
        skip_ws(t, r + 1) == t.len(),
    ensures
        alloc_arg(t, b) == Some((t.len() as int, av)),
        expr(t, b) is None,
{
    lemma_no_expr_at_alloc(t, b);
    law_leading_whitespace(t, b + 2);
    assert(skip_ws(t, b) == b);
    assert(skip_ws(t, b + 1) == b + 1);
    assert(skip_ws(t, r) == r);
    assert(op(t, b, TokenKind::Alloc) == Some(b + 1));
    assert(op(t, b + 1, TokenKind::LParen) == Some(skip_ws(t, b + 2)));
    assert(op(t, r, TokenKind::RParen) == Some(t.len() as int));
}

/// A `let ... alloc` command laid out in `t`, with or without `mut`, given
/// what its parts read.
#[verifier::rlimit(60)]
#[verifier::spinoff_prover]
proof fn lemma_let_alloc_parse(
    t: Seq<Token>,
    mutable: bool,
    name: String,
    m: int,
    tv: SpecType,
    av: SpecArith,
    r: int,
)
    requires
        ({
            let h = if mutable {
                4int
            } else {
                3int
            };
            &&& h <= m
            &&& t[0] == Token::Let
            &&& mutable ==> t[1] == Token::Mut
            &&& t[h - 2] == Token::Var(name)
            &&& t[h - 1] == Token::Colon
            &&& ty(t, skip_ws(t, h)) == Some((m, tv))
        }),
        m + 3 < r < t.len(),
        t[m] == Token::Equals,
        t[m + 1] == Token::Alloc,
        t[m + 2] == Token::LParen,
        arith(t, m + 3) == Some((r, av)),
        t[r] == Token::RParen,
        skip_ws(t, r + 1) == t.len(),
    ensures
        command(t, 0) == Some(
            (
                t.len() as int,
                if mutable {
                    SpecCmd::LetMutAlloc(name@, Box::new(tv), Box::new(av))
                } else {
                    SpecCmd::LetAlloc(name@, Box::new(tv), Box::new(av))
                },
            ),
        ),
{
    let len = t.len() as int;
    let h: int = if mutable {
        4
    } else {
        3
    };
    let c = if mutable {
        SpecCmd::LetMutAlloc(name@, Box::new(tv), Box::new(av))
    } else {
        SpecCmd::LetAlloc(name@, Box::new(tv), Box::new(av))
    };
    lemma_alloc_at(t, m + 1, av, r);
    assert(skip_ws(t, m) == m);
    assert(op(t, m, TokenKind::Equals) == Some(m + 1));
    assert(skip_ws(t, h - 1) == h - 1);
    assert(op(t, h - 1, TokenKind::Colon) == Some(skip_ws(t, h)));
    assert(variable(t, h - 2) == Some((h - 1, name@)));
    assert(binding_head(t, h - 2) == Some((m + 1, (name@, tv))));
    assert(skip_ws(t, 1) == 1);
    assert(skip_ws(t, 0) == 0);
    assert(op(t, 0, TokenKind::Let) == Some(1int));
    assert(cmd_skip(t, 0) is None);
    if mutable {
        assert(skip_ws(t, 2) == 2);
        assert(op(t, 1, TokenKind::Mut) == Some(2int));
        assert(binding_head(t, 1) is None);
        assert(cmd_let(t, 0) is None);
        assert(cmd_let_mut(t, 0) is None);
        assert(cmd_let_alloc(t, 0) is None);
        assert(cmd_let_mut_alloc(t, 0) == Some((len, c)));
    } else {
        assert(op(t, 1, TokenKind::Mut) is None);
        assert(cmd_let(t, 0) is None);
        assert(cmd_let_mut(t, 0) is None);
        assert(cmd_let_alloc(t, 0) == Some((len, c)));
    }
    assert(cmd_simple(t, 0) == Some((len, c)));
    assert(cmd_atom(t, 0) == Some((len, c)));
    lemma_atom_is_command(t, c);
}

#[verifier::rlimit(60)]
#[verifier::spinoff_prover]
/// `let x : T = alloc ( A )`, and `let mut x : T = alloc ( A )`, built from
/// the tokens of a type that reads whole and of an arithmetic expression
/// printed with every operation parenthesized, parse to the allocating
/// `let` of those parts.
pub proof fn law_let_alloc_composition(
    mutable: bool,
    name: String,
    type_toks: Seq<Token>,
    tv: SpecType,
    a: ArithExpr,
)
    requires
        ty(type_toks, 0) == Some((type_toks.len() as int, tv)),
    ensures
        ({
            let head = if mutable {
                seq![Token::Let, Token::Mut, Token::Var(name), Token::Colon]
            } else {
                seq![Token::Let, Token::Var(name), Token::Colon]
            };
            let t = head + type_toks + seq![Token::Equals, Token::Alloc, Token::LParen]
                + arith_tokens(a) + seq![Token::RParen];
            command(t, 0) == Some(
                (
                    t.len() as int,
                    if mutable {
                        SpecCmd::LetMutAlloc(name@, Box::new(tv), Box::new(arith_view(a)))
                    } else {
                        SpecCmd::LetAlloc(name@, Box::new(tv), Box::new(arith_view(a)))
                    },
                ),
            )
        }),
{
    let head = if mutable {
        seq![Token::Let, Token::Mut, Token::Var(name), Token::Colon]
    } else {
        seq![Token::Let, Token::Var(name), Token::Colon]
    };
    let mid = seq![Token::Equals, Token::Alloc, Token::LParen];
    let at = arith_tokens(a);
    let tail = seq![Token::RParen];
    let t = head + type_toks + mid + at + tail;
    let h = head.len() as int;
    let m = h + type_toks.len();
    let r = m + 3 + at.len();
    assert(t =~= head + type_toks + (mid + at + tail));
    lemma_embedded_parts(t, head, type_toks, mid + at + tail);
    assert(t =~= (head + type_toks + mid) + at + tail);
    lemma_embedded_parts(t, head + type_toks + mid, at, tail);
    assert(t[0] == head[0]);
    assert(t[h - 2] == head[h - 2]);
    assert(t[h - 1] == head[h - 1]);
    assert(mutable ==> t[1] == head[1]);
    assert(t[m] == (mid + at + tail)[0]);
    assert(t[m + 1] == (mid + at + tail)[1]);
    assert(t[m + 2] == (mid + at + tail)[2]);
    assert(t[r] == tail[0]);
    lemma_followed_by(type_toks, t, h);
    lemma_ty_whole_in(type_toks, t, h, tv);
    lemma_arith_readback(t, m + 3, a);
    assert(skip_ws(t, r + 1) == t.len());
    lemma_let_alloc_parse(t, mutable, name, m, tv, arith_view(a), r);
}


/// A whole program is the command that the command parser reads from the
/// first token when that read reaches the end of the input. When it stops
/// early, the error gives the position where it stopped, which lies
/// strictly inside the input; when nothing is read, the error says so.
pub proof fn law_program_outcome(t: Seq<Token>)
    requires
        t.len() <= usize::MAX,
    ensures
        program(t) == match command(t, 0) {
            Some((n, c)) => if n == t.len() {
                Ok::<SpecCmd, ParseError>(c)
            } else {
                Err(ParseError::TrailingTokens(n as usize))
            },
            None => Err(ParseError::NoParse),
        },
        program(t) matches Err(ParseError::TrailingTokens(n)) ==> 0 < n < t.len(),
{
    law_progress(t, 0);
}

} // verus!
