//! Reading a token sequence inside a larger one. When `toks` sits in `u`
//! from position `o`, and what follows it in `u` (after whitespace) is a
//! token that the rules at hand never read, every rule reads in `u` exactly
//! what it reads in `toks`: the same value, and an end position that
//! corresponds (`corr`). This is what the composition and whitespace laws
//! rest on.
use vstd::prelude::*;

use crate::ast::{SpecArith, SpecBool, SpecExpr, SpecType};
use crate::grammar::{alloc_arg, arith, arith_atom, arith_lvalue, arith_sizeof, binding_head, bool_atom, bool_literal, bool_lvalue, boolean, cmd_assign, cmd_free, cmd_let, cmd_let_alloc, cmd_let_mut, cmd_let_mut_alloc, cmd_simple, cmd_skip, comparison_eq, comparison_lt, conj, conj_rest, expr, expr_bool, expr_inner, expr_int, expr_items, expr_lvalue, expr_mut_ref, expr_ref, is_kind, lemma_op, lemma_skip_ws, lhs, nat_literal, negation, op, op2, product, product_rest, skip_ws, sum, sum_rest, ty, ty_atom, ty_core, ty_list, ty_list_rest, ty_loc, ty_prod, ty_ref, unary, variable};
use crate::laws::law_guards_never_fire;
use crate::token::{kind_of, Token, TokenKind};

verus! {

/// `toks` sits in `u` from position `o` on.
pub open spec fn embedded(toks: Seq<Token>, u: Seq<Token>, o: int) -> bool {
    &&& 0 <= o
    &&& o + toks.len() <= u.len()
    &&& forall|i: int| 0 <= i < toks.len() ==> u[o + i] == #[trigger] toks[i]
}

/// Where reading resumes in `u` after `toks`: past the whitespace that follows.
pub open spec fn resume(toks: Seq<Token>, u: Seq<Token>, o: int) -> int {
    skip_ws(u, o + toks.len())
}

/// The kind of the token at which reading resumes, if there is one.
pub open spec fn next_kind(toks: Seq<Token>, u: Seq<Token>, o: int) -> Option<TokenKind> {
    let q = resume(toks, u, o);
    if 0 <= q < u.len() {
        Some(kind_of(u[q]))
    } else {
        None
    }
}

/// Position `pt` of `toks` corresponds to position `pe` of `u`: the same
/// token, or, at the end of `toks`, any position up to where reading
/// resumes.
pub open spec fn corr(toks: Seq<Token>, u: Seq<Token>, o: int, pt: int, pe: int) -> bool {
    ||| 0 <= pt < toks.len() && pe == pt + o
    ||| pt == toks.len() && o + toks.len() <= pe <= resume(toks, u, o)
}

/// Two results agree: both fail, or both match with the same value and
/// corresponding ends.
pub open spec fn agree<V>(
    toks: Seq<Token>,
    u: Seq<Token>,
    o: int,
    a: Option<(int, V)>,
    b: Option<(int, V)>,
) -> bool {
    match a {
        Some((n1, v1)) => match b {
            Some((n2, v2)) => v1 == v2 && corr(toks, u, o, n1, n2),
            None => false,
        },
        None => b is None,
    }
}

/// Two results of a repetition agree.
pub open spec fn agree_end<V>(toks: Seq<Token>, u: Seq<Token>, o: int, a: (int, V), b: (int, V)) -> bool {
    a.1 == b.1 && corr(toks, u, o, a.0, b.0)
}

pub open spec fn agree_pos(toks: Seq<Token>, u: Seq<Token>, o: int, a: Option<int>, b: Option<int>) -> bool {
    match a {
        Some(n1) => match b {
            Some(n2) => corr(toks, u, o, n1, n2),
            None => false,
        },
        None => b is None,
    }
}

// The token kinds that each family of rules reads.

pub open spec fn reads_lhs(k: TokenKind) -> bool {
    k == TokenKind::Multiply || k == TokenKind::Var
}

pub open spec fn reads_type(k: TokenKind) -> bool {
    ||| k == TokenKind::Int
    ||| k == TokenKind::Bool
    ||| k == TokenKind::Ref
    ||| k == TokenKind::Loc
    ||| k == TokenKind::LessThan
    ||| k == TokenKind::True
    ||| k == TokenKind::False
    ||| k == TokenKind::Comma
    ||| k == TokenKind::GreaterThan
    ||| k == TokenKind::LSqBra
    ||| k == TokenKind::RSqBra
}

pub open spec fn reads_arith(k: TokenKind) -> bool {
    ||| reads_lhs(k)
    ||| reads_type(k)
    ||| k == TokenKind::Nat
    ||| k == TokenKind::Plus
    ||| k == TokenKind::Minus
    ||| k == TokenKind::Divide
    ||| k == TokenKind::LParen
    ||| k == TokenKind::RParen
    ||| k == TokenKind::Sizeof
}

pub open spec fn reads_bool(k: TokenKind) -> bool {
    reads_arith(k) || k == TokenKind::And || k == TokenKind::Bang || k == TokenKind::Equals
}

pub open spec fn reads_expr(k: TokenKind) -> bool {
    reads_bool(k) || k == TokenKind::Amp || k == TokenKind::Mut
}

pub open spec fn reads_cmd(k: TokenKind) -> bool {
    ||| reads_expr(k)
    ||| k == TokenKind::Skip
    ||| k == TokenKind::Let
    ||| k == TokenKind::Colon
    ||| k == TokenKind::Alloc
    ||| k == TokenKind::Free
}

/// What follows `toks` in `u` is not read by places.
pub open spec fn stops_lhs(toks: Seq<Token>, u: Seq<Token>, o: int) -> bool {
    match next_kind(toks, u, o) {
        Some(k) => !reads_lhs(k),
        None => true,
    }
}

pub open spec fn stops_type(toks: Seq<Token>, u: Seq<Token>, o: int) -> bool {
    match next_kind(toks, u, o) {
        Some(k) => !reads_type(k),
        None => true,
    }
}

pub open spec fn stops_arith(toks: Seq<Token>, u: Seq<Token>, o: int) -> bool {
    match next_kind(toks, u, o) {
        Some(k) => !reads_arith(k),
        None => true,
    }
}

pub open spec fn stops_bool(toks: Seq<Token>, u: Seq<Token>, o: int) -> bool {
    match next_kind(toks, u, o) {
        Some(k) => !reads_bool(k),
        None => true,
    }
}

pub open spec fn stops_expr(toks: Seq<Token>, u: Seq<Token>, o: int) -> bool {
    match next_kind(toks, u, o) {
        Some(k) => !reads_expr(k),
        None => true,
    }
}

pub open spec fn stops_cmd(toks: Seq<Token>, u: Seq<Token>, o: int) -> bool {
    match next_kind(toks, u, o) {
        Some(k) => !reads_cmd(k),
        None => true,
    }
}

// ---------------------------------------------------------------------------
// Primitives
// ---------------------------------------------------------------------------

/// `whole` splits into `a` then `b`, both sitting in `u`.
#[verifier::spinoff_prover]
pub proof fn lemma_embedded_split(whole: Seq<Token>, u: Seq<Token>, o: int, a: Seq<Token>, b: Seq<Token>)
    requires
        embedded(whole, u, o),
        whole == a + b,
    ensures
        embedded(a, u, o),
        embedded(b, u, o + a.len()),
{
    assert forall|i: int| 0 <= i < a.len() implies u[o + i] == #[trigger] a[i] by {
        assert(whole[i] == a[i]);
    }
    assert forall|i: int| 0 <= i < b.len() implies u[o + a.len() + i] == #[trigger] b[i] by {
        assert(whole[a.len() + i] == b[i]);
    }
}


/// Skipping whitespace from the start of a run of whitespace tokens ends
/// where skipping from anywhere inside the run ends.
#[verifier::spinoff_prover]
pub proof fn lemma_skip_ws_run(t: Seq<Token>, p: int, q: int)
    requires
        p <= q,
        forall|i: int| p <= i < q ==> is_kind(t, i, TokenKind::Whitespace),
    ensures
        skip_ws(t, p) == skip_ws(t, q),
    decreases q - p,
{
    if p < q {
        assert(is_kind(t, p, TokenKind::Whitespace));
        lemma_skip_ws_run(t, p + 1, q);
    }
}

#[verifier::spinoff_prover]
pub proof fn lemma_setup(toks: Seq<Token>, u: Seq<Token>, o: int)
    requires
        embedded(toks, u, o),
    ensures
        o + toks.len() <= resume(toks, u, o) <= u.len(),
        !is_kind(u, resume(toks, u, o), TokenKind::Whitespace),
        forall|i: int|
            o + toks.len() <= i < resume(toks, u, o) ==> is_kind(u, i, TokenKind::Whitespace),
{
    lemma_skip_ws(u, o + toks.len());
}

#[verifier::spinoff_prover]
pub proof fn lemma_kind(toks: Seq<Token>, u: Seq<Token>, o: int, pt: int, pe: int, k: TokenKind)
    requires
        embedded(toks, u, o),
        corr(toks, u, o, pt, pe),
        k != TokenKind::Whitespace,
        next_kind(toks, u, o) != Some(k),
    ensures
        is_kind(toks, pt, k) == is_kind(u, pe, k),
        is_kind(toks, pt, k) ==> pt < toks.len() && pe == pt + o && corr(toks, u, o, pt + 1, pe + 1),
{
    lemma_setup(toks, u, o);
    if pt < toks.len() {
        assert(u[o + pt] == toks[pt]);
    } else if pe < resume(toks, u, o) {
        assert(is_kind(u, pe, TokenKind::Whitespace));
    }
}

#[verifier::spinoff_prover]
pub proof fn lemma_ws(toks: Seq<Token>, u: Seq<Token>, o: int, pt: int, pe: int)
    requires
        embedded(toks, u, o),
        corr(toks, u, o, pt, pe),
    ensures
        corr(toks, u, o, skip_ws(toks, pt), skip_ws(u, pe)),
        skip_ws(toks, pt) == toks.len() ==> skip_ws(u, pe) == resume(toks, u, o),
    decreases toks.len() - pt,
{
    lemma_setup(toks, u, o);
    if pt < toks.len() {
        assert(u[o + pt] == toks[pt]);
        if is_kind(toks, pt, TokenKind::Whitespace) {
            lemma_ws(toks, u, o, pt + 1, pe + 1);
        }
    } else {
        lemma_skip_ws_run(u, pe, resume(toks, u, o));
    }
}

#[verifier::spinoff_prover]
pub proof fn lemma_op_ctx(toks: Seq<Token>, u: Seq<Token>, o: int, pt: int, pe: int, k: TokenKind)
    requires
        embedded(toks, u, o),
        corr(toks, u, o, pt, pe),
        k != TokenKind::Whitespace,
        next_kind(toks, u, o) != Some(k),
    ensures
        agree_pos(toks, u, o, op(toks, pt, k), op(u, pe, k)),
{
    lemma_ws(toks, u, o, pt, pe);
    let qt = skip_ws(toks, pt);
    let qe = skip_ws(u, pe);
    lemma_kind(toks, u, o, qt, qe, k);
    if is_kind(toks, qt, k) {
        lemma_ws(toks, u, o, qt + 1, qe + 1);
    }
}

#[verifier::spinoff_prover]
pub proof fn lemma_op2_ctx(
    toks: Seq<Token>,
    u: Seq<Token>,
    o: int,
    pt: int,
    pe: int,
    k1: TokenKind,
    k2: TokenKind,
)
    requires
        embedded(toks, u, o),
        corr(toks, u, o, pt, pe),
        k1 != TokenKind::Whitespace,
        k2 != TokenKind::Whitespace,
        next_kind(toks, u, o) != Some(k1),
        next_kind(toks, u, o) != Some(k2),
    ensures
        agree_pos(toks, u, o, op2(toks, pt, k1, k2), op2(u, pe, k1, k2)),
{
    lemma_ws(toks, u, o, pt, pe);
    let qt = skip_ws(toks, pt);
    let qe = skip_ws(u, pe);
    lemma_kind(toks, u, o, qt, qe, k1);
    if is_kind(toks, qt, k1) {
        lemma_kind(toks, u, o, qt + 1, qe + 1, k2);
        if is_kind(toks, qt + 1, k2) {
            lemma_ws(toks, u, o, qt + 2, qe + 2);
        }
    }
}

#[verifier::spinoff_prover]
pub proof fn lemma_variable_ctx(toks: Seq<Token>, u: Seq<Token>, o: int, pt: int, pe: int)
    requires
        embedded(toks, u, o),
        corr(toks, u, o, pt, pe),
        next_kind(toks, u, o) != Some(TokenKind::Var),
    ensures
        agree(toks, u, o, variable(toks, pt), variable(u, pe)),
        agree(toks, u, o, nat_literal(toks, pt), nat_literal(u, pe)) || next_kind(toks, u, o)
            == Some(TokenKind::Nat),
{
    lemma_kind(toks, u, o, pt, pe, TokenKind::Var);
    if next_kind(toks, u, o) != Some(TokenKind::Nat) {
        lemma_kind(toks, u, o, pt, pe, TokenKind::Nat);
    }
}

// ---------------------------------------------------------------------------
// Places
// ---------------------------------------------------------------------------

#[verifier::spinoff_prover]
pub proof fn lemma_lhs_ctx(toks: Seq<Token>, u: Seq<Token>, o: int, pt: int, pe: int)
    requires
        embedded(toks, u, o),
        corr(toks, u, o, pt, pe),
        stops_lhs(toks, u, o),
    ensures
        agree(toks, u, o, lhs(toks, pt), lhs(u, pe)),
    decreases u.len() - pe,
{
    lemma_setup(toks, u, o);
    lemma_kind(toks, u, o, pt, pe, TokenKind::Multiply);
    lemma_variable_ctx(toks, u, o, pt, pe);
    if is_kind(toks, pt, TokenKind::Multiply) {
        lemma_lhs_ctx(toks, u, o, pt + 1, pe + 1);
    }
}

// ---------------------------------------------------------------------------
// Types
// ---------------------------------------------------------------------------

#[verifier::spinoff_prover]
pub proof fn lemma_ty_ctx(toks: Seq<Token>, u: Seq<Token>, o: int, pt: int, pe: int)
    requires
        embedded(toks, u, o),
        corr(toks, u, o, pt, pe),
        stops_type(toks, u, o),
    ensures
        agree(toks, u, o, ty(toks, pt), ty(u, pe)),
    decreases u.len() - pe, 2int,
{
    lemma_setup(toks, u, o);
    if is_kind(u, pe, TokenKind::Whitespace) {
        if pt < toks.len() {
            assert(u[o + pt] == toks[pt]);
            lemma_ty_ctx(toks, u, o, pt + 1, pe + 1);
        } else {
            lemma_ty_ctx(toks, u, o, pt, pe + 1);
        }
    } else {
        if pt < toks.len() {
            assert(u[o + pt] == toks[pt]);
        }
        lemma_ty_core_ctx(toks, u, o, pt, pe);
        if let Some((n, _)) = ty_core(toks, pt) {
            let n2 = ty_core(u, pe).unwrap().0;
            lemma_ws(toks, u, o, n, n2);
        }
    }
}

#[verifier::spinoff_prover]
pub proof fn lemma_ty_core_ctx(toks: Seq<Token>, u: Seq<Token>, o: int, pt: int, pe: int)
    requires
        embedded(toks, u, o),
        corr(toks, u, o, pt, pe),
        stops_type(toks, u, o),
    ensures
        agree(toks, u, o, ty_core(toks, pt), ty_core(u, pe)),
    decreases u.len() - pe, 1int,
{
    lemma_kind(toks, u, o, pt, pe, TokenKind::Int);
    lemma_kind(toks, u, o, pt, pe, TokenKind::Bool);
    assert(agree(toks, u, o, ty_atom(toks, pt), ty_atom(u, pe)));
    lemma_ty_ref_ctx(toks, u, o, pt, pe);
    lemma_ty_loc_ctx(toks, u, o, pt, pe);
    lemma_ty_prod_ctx(toks, u, o, pt, pe);
}

#[verifier::spinoff_prover]
pub proof fn lemma_ty_ref_ctx(toks: Seq<Token>, u: Seq<Token>, o: int, pt: int, pe: int)
    requires
        embedded(toks, u, o),
        corr(toks, u, o, pt, pe),
        stops_type(toks, u, o),
    ensures
        agree(toks, u, o, ty_ref(toks, pt), ty_ref(u, pe)),
    decreases u.len() - pe, 0int,
{
    lemma_setup(toks, u, o);
    lemma_kind(toks, u, o, pt, pe, TokenKind::Ref);
    if is_kind(toks, pt, TokenKind::Ref) {
        lemma_op_ctx(toks, u, o, pt + 1, pe + 1, TokenKind::LessThan);
        lemma_op(u, pe + 1, TokenKind::LessThan);
        if let Some(a1) = op(toks, pt + 1, TokenKind::LessThan) {
            let a2 = op(u, pe + 1, TokenKind::LessThan).unwrap();
            lemma_kind(toks, u, o, a1, a2, TokenKind::True);
            lemma_kind(toks, u, o, a1, a2, TokenKind::False);
            if is_kind(toks, a1, TokenKind::True) || is_kind(toks, a1, TokenKind::False) {
                lemma_kind(toks, u, o, a1 + 1, a2 + 1, TokenKind::Comma);
                if is_kind(toks, a1 + 1, TokenKind::Comma) {
                    lemma_ty_ctx(toks, u, o, a1 + 2, a2 + 2);
                    if let Some((c1, _)) = ty(toks, a1 + 2) {
                        let c2 = ty(u, a2 + 2).unwrap().0;
                        lemma_op_ctx(toks, u, o, c1, c2, TokenKind::GreaterThan);
                    }
                }
            }
        }
    }
}

#[verifier::spinoff_prover]
pub proof fn lemma_ty_loc_ctx(toks: Seq<Token>, u: Seq<Token>, o: int, pt: int, pe: int)
    requires
        embedded(toks, u, o),
        corr(toks, u, o, pt, pe),
        stops_type(toks, u, o),
    ensures
        agree(toks, u, o, ty_loc(toks, pt), ty_loc(u, pe)),
    decreases u.len() - pe, 0int,
{
    lemma_kind(toks, u, o, pt, pe, TokenKind::Loc);
    if is_kind(toks, pt, TokenKind::Loc) {
        lemma_op_ctx(toks, u, o, pt + 1, pe + 1, TokenKind::LessThan);
        lemma_op(u, pe + 1, TokenKind::LessThan);
        if let Some(a1) = op(toks, pt + 1, TokenKind::LessThan) {
            let a2 = op(u, pe + 1, TokenKind::LessThan).unwrap();
            lemma_ty_ctx(toks, u, o, a1, a2);
            if let Some((c1, _)) = ty(toks, a1) {
                let c2 = ty(u, a2).unwrap().0;
                lemma_op_ctx(toks, u, o, c1, c2, TokenKind::GreaterThan);
            }
        }
    }
}

#[verifier::spinoff_prover]
pub proof fn lemma_ty_prod_ctx(toks: Seq<Token>, u: Seq<Token>, o: int, pt: int, pe: int)
    requires
        embedded(toks, u, o),
        corr(toks, u, o, pt, pe),
        stops_type(toks, u, o),
    ensures
        agree(toks, u, o, ty_prod(toks, pt), ty_prod(u, pe)),
    decreases u.len() - pe, 0int,
{
    lemma_op_ctx(toks, u, o, pt, pe, TokenKind::LSqBra);
    lemma_op(u, pe, TokenKind::LSqBra);
    if let Some(a1) = op(toks, pt, TokenKind::LSqBra) {
        let a2 = op(u, pe, TokenKind::LSqBra).unwrap();
        lemma_ty_list_ctx(toks, u, o, a1, a2);
        lemma_op_ctx(toks, u, o, ty_list(toks, a1).0, ty_list(u, a2).0, TokenKind::RSqBra);
    }
}

#[verifier::spinoff_prover]
pub proof fn lemma_ty_list_ctx(toks: Seq<Token>, u: Seq<Token>, o: int, pt: int, pe: int)
    requires
        embedded(toks, u, o),
        corr(toks, u, o, pt, pe),
        stops_type(toks, u, o),
    ensures
        agree_end(toks, u, o, ty_list(toks, pt), ty_list(u, pe)),
    decreases u.len() - pe, 3int,
{
    lemma_ty_ctx(toks, u, o, pt, pe);
    law_guards_never_fire(toks, pt);
    law_guards_never_fire(u, pe);
    if let Some((n1, x)) = ty(toks, pt) {
        let n2 = ty(u, pe).unwrap().0;
        lemma_ty_list_rest_ctx(toks, u, o, n1, n2, seq![x]);
    }
}

#[verifier::spinoff_prover]
pub proof fn lemma_ty_list_rest_ctx(
    toks: Seq<Token>,
    u: Seq<Token>,
    o: int,
    pt: int,
    pe: int,
    acc: Seq<SpecType>,
)
    requires
        embedded(toks, u, o),
        corr(toks, u, o, pt, pe),
        stops_type(toks, u, o),
    ensures
        agree_end(toks, u, o, ty_list_rest(toks, pt, acc), ty_list_rest(u, pe, acc)),
    decreases u.len() - pe, 3int,
{
    lemma_op_ctx(toks, u, o, pt, pe, TokenKind::Comma);
    lemma_op(u, pe, TokenKind::Comma);
    if let Some(a1) = op(toks, pt, TokenKind::Comma) {
        let a2 = op(u, pe, TokenKind::Comma).unwrap();
        lemma_ty_ctx(toks, u, o, a1, a2);
        law_guards_never_fire(toks, a1);
        law_guards_never_fire(u, a2);
        if let Some((n1, x)) = ty(toks, a1) {
            let n2 = ty(u, a2).unwrap().0;
            lemma_ty_list_rest_ctx(toks, u, o, n1, n2, acc.push(x));
        }
    }
}

// ---------------------------------------------------------------------------
// Arithmetic expressions
// ---------------------------------------------------------------------------

#[verifier::spinoff_prover]
pub proof fn lemma_arith_ctx(toks: Seq<Token>, u: Seq<Token>, o: int, pt: int, pe: int)
    requires
        embedded(toks, u, o),
        corr(toks, u, o, pt, pe),
        stops_arith(toks, u, o),
    ensures
        agree(toks, u, o, arith(toks, pt), arith(u, pe)),
    decreases u.len() - pe,
{
    lemma_setup(toks, u, o);
    if is_kind(u, pe, TokenKind::Whitespace) {
        if pt < toks.len() {
            assert(u[o + pt] == toks[pt]);
            lemma_arith_ctx(toks, u, o, pt + 1, pe + 1);
        } else {
            lemma_arith_ctx(toks, u, o, pt, pe + 1);
        }
    } else {
        if pt < toks.len() {
            assert(u[o + pt] == toks[pt]);
        }
        lemma_sum_ctx(toks, u, o, pt, pe);
        if let Some((n, _)) = sum(toks, pt) {
            let n2 = sum(u, pe).unwrap().0;
            lemma_ws(toks, u, o, n, n2);
        }
    }
}

#[verifier::spinoff_prover]
pub proof fn lemma_sum_ctx(toks: Seq<Token>, u: Seq<Token>, o: int, pt: int, pe: int)
    requires
        embedded(toks, u, o),
        corr(toks, u, o, pt, pe),
        stops_arith(toks, u, o),
    ensures
        agree(toks, u, o, sum(toks, pt), sum(u, pe)),
    decreases u.len() - pe, 3int,
{
    lemma_product_ctx(toks, u, o, pt, pe);
    law_guards_never_fire(toks, pt);
    law_guards_never_fire(u, pe);
    if let Some((n1, v)) = product(toks, pt) {
        let n2 = product(u, pe).unwrap().0;
        lemma_sum_rest_ctx(toks, u, o, n1, n2, v);
    }
}

#[verifier::spinoff_prover]
pub proof fn lemma_sum_rest_ctx(
    toks: Seq<Token>,
    u: Seq<Token>,
    o: int,
    pt: int,
    pe: int,
    acc: SpecArith,
)
    requires
        embedded(toks, u, o),
        corr(toks, u, o, pt, pe),
        stops_arith(toks, u, o),
    ensures
        agree_end(toks, u, o, sum_rest(toks, pt, acc), sum_rest(u, pe, acc)),
    decreases u.len() - pe, 3int,
{
    lemma_op_ctx(toks, u, o, pt, pe, TokenKind::Plus);
    lemma_op(u, pe, TokenKind::Plus);
    lemma_op_ctx(toks, u, o, pt, pe, TokenKind::Minus);
    lemma_op(u, pe, TokenKind::Minus);
    if let Some(a1) = op(toks, pt, TokenKind::Plus) {
        let a2 = op(u, pe, TokenKind::Plus).unwrap();
        lemma_product_ctx(toks, u, o, a1, a2);
        law_guards_never_fire(toks, a1);
        law_guards_never_fire(u, a2);
        if let Some((n1, r)) = product(toks, a1) {
            let n2 = product(u, a2).unwrap().0;
            lemma_sum_rest_ctx(toks, u, o, n1, n2, SpecArith::Plus(Box::new(acc), Box::new(r)));
        }
    } else if let Some(a1) = op(toks, pt, TokenKind::Minus) {
        let a2 = op(u, pe, TokenKind::Minus).unwrap();
        lemma_product_ctx(toks, u, o, a1, a2);
        law_guards_never_fire(toks, a1);
        law_guards_never_fire(u, a2);
        if let Some((n1, r)) = product(toks, a1) {
            let n2 = product(u, a2).unwrap().0;
            lemma_sum_rest_ctx(toks, u, o, n1, n2, SpecArith::Minus(Box::new(acc), Box::new(r)));
        }
    }
}

#[verifier::spinoff_prover]
pub proof fn lemma_product_ctx(toks: Seq<Token>, u: Seq<Token>, o: int, pt: int, pe: int)
    requires
        embedded(toks, u, o),
        corr(toks, u, o, pt, pe),
        stops_arith(toks, u, o),
    ensures
        agree(toks, u, o, product(toks, pt), product(u, pe)),
    decreases u.len() - pe, 2int,
{
    lemma_unary_ctx(toks, u, o, pt, pe);
    law_guards_never_fire(toks, pt);
    law_guards_never_fire(u, pe);
    if let Some((n1, v)) = unary(toks, pt) {
        let n2 = unary(u, pe).unwrap().0;
        lemma_product_rest_ctx(toks, u, o, n1, n2, v);
    }
}

#[verifier::spinoff_prover]
pub proof fn lemma_product_rest_ctx(
    toks: Seq<Token>,
    u: Seq<Token>,
    o: int,
    pt: int,
    pe: int,
    acc: SpecArith,
)
    requires
        embedded(toks, u, o),
        corr(toks, u, o, pt, pe),
        stops_arith(toks, u, o),
    ensures
        agree_end(toks, u, o, product_rest(toks, pt, acc), product_rest(u, pe, acc)),
    decreases u.len() - pe, 2int,
{
    lemma_op_ctx(toks, u, o, pt, pe, TokenKind::Multiply);
    lemma_op(u, pe, TokenKind::Multiply);
    lemma_op_ctx(toks, u, o, pt, pe, TokenKind::Divide);
    lemma_op(u, pe, TokenKind::Divide);
    if let Some(a1) = op(toks, pt, TokenKind::Multiply) {
        let a2 = op(u, pe, TokenKind::Multiply).unwrap();
        lemma_unary_ctx(toks, u, o, a1, a2);
        law_guards_never_fire(toks, a1);
        law_guards_never_fire(u, a2);
        if let Some((n1, r)) = unary(toks, a1) {
            let n2 = unary(u, a2).unwrap().0;
            lemma_product_rest_ctx(
                toks,
                u,
                o,
                n1,
                n2,
                SpecArith::Mult(Box::new(acc), Box::new(r)),
            );
        }
    } else if let Some(a1) = op(toks, pt, TokenKind::Divide) {
        let a2 = op(u, pe, TokenKind::Divide).unwrap();
        lemma_unary_ctx(toks, u, o, a1, a2);
        law_guards_never_fire(toks, a1);
        law_guards_never_fire(u, a2);
        if let Some((n1, r)) = unary(toks, a1) {
            let n2 = unary(u, a2).unwrap().0;
            lemma_product_rest_ctx(toks, u, o, n1, n2, SpecArith::Div(Box::new(acc), Box::new(r)));
        }
    }
}

#[verifier::spinoff_prover]
pub proof fn lemma_unary_ctx(toks: Seq<Token>, u: Seq<Token>, o: int, pt: int, pe: int)
    requires
        embedded(toks, u, o),
        corr(toks, u, o, pt, pe),
        stops_arith(toks, u, o),
    ensures
        agree(toks, u, o, unary(toks, pt), unary(u, pe)),
    decreases u.len() - pe, 1int,
{
    lemma_op_ctx(toks, u, o, pt, pe, TokenKind::Minus);
    lemma_op(u, pe, TokenKind::Minus);
    if let Some(a1) = op(toks, pt, TokenKind::Minus) {
        let a2 = op(u, pe, TokenKind::Minus).unwrap();
        lemma_unary_ctx(toks, u, o, a1, a2);
    } else {
        lemma_arith_atom_ctx(toks, u, o, pt, pe);
    }
}

#[verifier::spinoff_prover]
pub proof fn lemma_arith_atom_ctx(toks: Seq<Token>, u: Seq<Token>, o: int, pt: int, pe: int)
    requires
        embedded(toks, u, o),
        corr(toks, u, o, pt, pe),
        stops_arith(toks, u, o),
    ensures
        agree(toks, u, o, arith_atom(toks, pt), arith_atom(u, pe)),
    decreases u.len() - pe, 0int,
{
    lemma_variable_ctx(toks, u, o, pt, pe);
    lemma_lhs_ctx(toks, u, o, pt, pe);
    assert(agree(toks, u, o, nat_literal(toks, pt), nat_literal(u, pe)));
    assert(agree(toks, u, o, arith_lvalue(toks, pt), arith_lvalue(u, pe)));
    lemma_op_ctx(toks, u, o, pt, pe, TokenKind::LParen);
    lemma_op(u, pe, TokenKind::LParen);
    if let Some(a1) = op(toks, pt, TokenKind::LParen) {
        let a2 = op(u, pe, TokenKind::LParen).unwrap();
        lemma_sum_ctx(toks, u, o, a1, a2);
        if let Some((b1, _)) = sum(toks, a1) {
            let b2 = sum(u, a2).unwrap().0;
            lemma_op_ctx(toks, u, o, b1, b2, TokenKind::RParen);
        }
    }
    lemma_op_ctx(toks, u, o, pt, pe, TokenKind::Sizeof);
    if let Some(a1) = op(toks, pt, TokenKind::Sizeof) {
        let a2 = op(u, pe, TokenKind::Sizeof).unwrap();
        lemma_ty_ctx(toks, u, o, a1, a2);
    }
    assert(agree(toks, u, o, arith_sizeof(toks, pt), arith_sizeof(u, pe)));
}

// ---------------------------------------------------------------------------
// Boolean expressions
// ---------------------------------------------------------------------------

#[verifier::spinoff_prover]
pub proof fn lemma_boolean_ctx(toks: Seq<Token>, u: Seq<Token>, o: int, pt: int, pe: int)
    requires
        embedded(toks, u, o),
        corr(toks, u, o, pt, pe),
        stops_bool(toks, u, o),
    ensures
        agree(toks, u, o, boolean(toks, pt), boolean(u, pe)),
    decreases u.len() - pe,
{
    lemma_setup(toks, u, o);
    if is_kind(u, pe, TokenKind::Whitespace) {
        if pt < toks.len() {
            assert(u[o + pt] == toks[pt]);
            lemma_boolean_ctx(toks, u, o, pt + 1, pe + 1);
        } else {
            lemma_boolean_ctx(toks, u, o, pt, pe + 1);
        }
    } else {
        if pt < toks.len() {
            assert(u[o + pt] == toks[pt]);
        }
        lemma_conj_ctx(toks, u, o, pt, pe);
        if let Some((n, _)) = conj(toks, pt) {
            let n2 = conj(u, pe).unwrap().0;
            lemma_ws(toks, u, o, n, n2);
        }
    }
}

#[verifier::spinoff_prover]
pub proof fn lemma_conj_ctx(toks: Seq<Token>, u: Seq<Token>, o: int, pt: int, pe: int)
    requires
        embedded(toks, u, o),
        corr(toks, u, o, pt, pe),
        stops_bool(toks, u, o),
    ensures
        agree(toks, u, o, conj(toks, pt), conj(u, pe)),
    decreases u.len() - pe, 3int,
{
    lemma_negation_ctx(toks, u, o, pt, pe);
    law_guards_never_fire(toks, pt);
    law_guards_never_fire(u, pe);
    if let Some((n1, v)) = negation(toks, pt) {
        let n2 = negation(u, pe).unwrap().0;
        lemma_conj_rest_ctx(toks, u, o, n1, n2, v);
    }
}

#[verifier::spinoff_prover]
pub proof fn lemma_conj_rest_ctx(
    toks: Seq<Token>,
    u: Seq<Token>,
    o: int,
    pt: int,
    pe: int,
    acc: SpecBool,
)
    requires
        embedded(toks, u, o),
        corr(toks, u, o, pt, pe),
        stops_bool(toks, u, o),
    ensures
        agree_end(toks, u, o, conj_rest(toks, pt, acc), conj_rest(u, pe, acc)),
    decreases u.len() - pe, 3int,
{
    lemma_op_ctx(toks, u, o, pt, pe, TokenKind::And);
    lemma_op(u, pe, TokenKind::And);
    if let Some(a1) = op(toks, pt, TokenKind::And) {
        let a2 = op(u, pe, TokenKind::And).unwrap();
        lemma_negation_ctx(toks, u, o, a1, a2);
        law_guards_never_fire(toks, a1);
        law_guards_never_fire(u, a2);
        if let Some((n1, r)) = negation(toks, a1) {
            let n2 = negation(u, a2).unwrap().0;
            lemma_conj_rest_ctx(toks, u, o, n1, n2, SpecBool::And(Box::new(acc), Box::new(r)));
        }
    }
}

#[verifier::spinoff_prover]
pub proof fn lemma_negation_ctx(toks: Seq<Token>, u: Seq<Token>, o: int, pt: int, pe: int)
    requires
        embedded(toks, u, o),
        corr(toks, u, o, pt, pe),
        stops_bool(toks, u, o),
    ensures
        agree(toks, u, o, negation(toks, pt), negation(u, pe)),
    decreases u.len() - pe, 2int,
{
    lemma_op_ctx(toks, u, o, pt, pe, TokenKind::Bang);
    lemma_op(u, pe, TokenKind::Bang);
    if let Some(a1) = op(toks, pt, TokenKind::Bang) {
        let a2 = op(u, pe, TokenKind::Bang).unwrap();
        lemma_negation_ctx(toks, u, o, a1, a2);
    } else {
        lemma_bool_atom_ctx(toks, u, o, pt, pe);
    }
}

#[verifier::spinoff_prover]
pub proof fn lemma_comparisons_ctx(toks: Seq<Token>, u: Seq<Token>, o: int, pt: int, pe: int)
    requires
        embedded(toks, u, o),
        corr(toks, u, o, pt, pe),
        stops_bool(toks, u, o),
    ensures
        agree(toks, u, o, comparison_eq(toks, pt), comparison_eq(u, pe)),
        agree(toks, u, o, comparison_lt(toks, pt), comparison_lt(u, pe)),
{
    lemma_arith_ctx(toks, u, o, pt, pe);
    if let Some((a1, _)) = arith(toks, pt) {
        let a2 = arith(u, pe).unwrap().0;
        lemma_op2_ctx(toks, u, o, a1, a2, TokenKind::Equals, TokenKind::Equals);
        if let Some(b1) = op2(toks, a1, TokenKind::Equals, TokenKind::Equals) {
            let b2 = op2(u, a2, TokenKind::Equals, TokenKind::Equals).unwrap();
            lemma_arith_ctx(toks, u, o, b1, b2);
        }
        lemma_op_ctx(toks, u, o, a1, a2, TokenKind::LessThan);
        if let Some(b1) = op(toks, a1, TokenKind::LessThan) {
            let b2 = op(u, a2, TokenKind::LessThan).unwrap();
            lemma_arith_ctx(toks, u, o, b1, b2);
        }
    }
}

#[verifier::spinoff_prover]
pub proof fn lemma_bool_atom_ctx(toks: Seq<Token>, u: Seq<Token>, o: int, pt: int, pe: int)
    requires
        embedded(toks, u, o),
        corr(toks, u, o, pt, pe),
        stops_bool(toks, u, o),
    ensures
        agree(toks, u, o, bool_atom(toks, pt), bool_atom(u, pe)),
    decreases u.len() - pe, 1int,
{
    lemma_kind(toks, u, o, pt, pe, TokenKind::True);
    lemma_kind(toks, u, o, pt, pe, TokenKind::False);
    assert(agree(toks, u, o, bool_literal(toks, pt), bool_literal(u, pe)));
    lemma_lhs_ctx(toks, u, o, pt, pe);
    assert(agree(toks, u, o, bool_lvalue(toks, pt), bool_lvalue(u, pe)));
    lemma_op_ctx(toks, u, o, pt, pe, TokenKind::LParen);
    lemma_op(u, pe, TokenKind::LParen);
    if let Some(a1) = op(toks, pt, TokenKind::LParen) {
        let a2 = op(u, pe, TokenKind::LParen).unwrap();
        lemma_conj_ctx(toks, u, o, a1, a2);
        if let Some((b1, _)) = conj(toks, a1) {
            let b2 = conj(u, a2).unwrap().0;
            lemma_op_ctx(toks, u, o, b1, b2, TokenKind::RParen);
        }
    }
    lemma_comparisons_ctx(toks, u, o, pt, pe);
}

// ---------------------------------------------------------------------------
// Expressions
// ---------------------------------------------------------------------------

#[verifier::spinoff_prover]
pub proof fn lemma_expr_ctx(toks: Seq<Token>, u: Seq<Token>, o: int, pt: int, pe: int)
    requires
        embedded(toks, u, o),
        corr(toks, u, o, pt, pe),
        stops_expr(toks, u, o),
    ensures
        agree(toks, u, o, expr(toks, pt), expr(u, pe)),
    decreases u.len() - pe,
{
    lemma_setup(toks, u, o);
    if is_kind(u, pe, TokenKind::Whitespace) {
        if pt < toks.len() {
            assert(u[o + pt] == toks[pt]);
            lemma_expr_ctx(toks, u, o, pt + 1, pe + 1);
        } else {
            lemma_expr_ctx(toks, u, o, pt, pe + 1);
        }
    } else {
        if pt < toks.len() {
            assert(u[o + pt] == toks[pt]);
        }
        lemma_expr_inner_ctx(toks, u, o, pt, pe);
        if let Some((n, _)) = expr_inner(toks, pt) {
            let n2 = expr_inner(u, pe).unwrap().0;
            lemma_ws(toks, u, o, n, n2);
        }
    }
}

#[verifier::spinoff_prover]
pub proof fn lemma_expr_inner_ctx(toks: Seq<Token>, u: Seq<Token>, o: int, pt: int, pe: int)
    requires
        embedded(toks, u, o),
        corr(toks, u, o, pt, pe),
        stops_expr(toks, u, o),
    ensures
        agree(toks, u, o, expr_inner(toks, pt), expr_inner(u, pe)),
    decreases u.len() - pe, 0int,
{
    lemma_lhs_ctx(toks, u, o, pt, pe);
    assert(agree(toks, u, o, expr_lvalue(toks, pt), expr_lvalue(u, pe)));
    lemma_kind(toks, u, o, pt, pe, TokenKind::LSqBra);
    if is_kind(toks, pt, TokenKind::LSqBra) {
        lemma_expr_items_ctx(toks, u, o, pt + 1, pe + 1, seq![]);
        let b1 = expr_items(toks, pt + 1, seq![]).0;
        let b2 = expr_items(u, pe + 1, seq![]).0;
        lemma_kind(toks, u, o, b1, b2, TokenKind::RSqBra);
    }
    lemma_op_ctx(toks, u, o, pt, pe, TokenKind::LParen);
    lemma_op(u, pe, TokenKind::LParen);
    if let Some(a1) = op(toks, pt, TokenKind::LParen) {
        let a2 = op(u, pe, TokenKind::LParen).unwrap();
        lemma_expr_inner_ctx(toks, u, o, a1, a2);
        if let Some((b1, _)) = expr_inner(toks, a1) {
            let b2 = expr_inner(u, a2).unwrap().0;
            lemma_op_ctx(toks, u, o, b1, b2, TokenKind::RParen);
        }
    }
    lemma_op_ctx(toks, u, o, pt, pe, TokenKind::Amp);
    if let Some(a1) = op(toks, pt, TokenKind::Amp) {
        lemma_variable_ctx(toks, u, o, a1, op(u, pe, TokenKind::Amp).unwrap());
    }
    assert(agree(toks, u, o, expr_ref(toks, pt), expr_ref(u, pe)));
    lemma_op2_ctx(toks, u, o, pt, pe, TokenKind::Amp, TokenKind::Mut);
    if let Some(a1) = op2(toks, pt, TokenKind::Amp, TokenKind::Mut) {
        lemma_variable_ctx(toks, u, o, a1, op2(u, pe, TokenKind::Amp, TokenKind::Mut).unwrap());
    }
    assert(agree(toks, u, o, expr_mut_ref(toks, pt), expr_mut_ref(u, pe)));
    lemma_boolean_ctx(toks, u, o, pt, pe);
    assert(agree(toks, u, o, expr_bool(toks, pt), expr_bool(u, pe)));
    lemma_arith_ctx(toks, u, o, pt, pe);
    assert(agree(toks, u, o, expr_int(toks, pt), expr_int(u, pe)));
}

#[verifier::spinoff_prover]
pub proof fn lemma_expr_items_ctx(
    toks: Seq<Token>,
    u: Seq<Token>,
    o: int,
    pt: int,
    pe: int,
    acc: Seq<SpecExpr>,
)
    requires
        embedded(toks, u, o),
        corr(toks, u, o, pt, pe),
        stops_expr(toks, u, o),
    ensures
        agree_end(toks, u, o, expr_items(toks, pt, acc), expr_items(u, pe, acc)),
    decreases u.len() - pe, 1int,
{
    lemma_expr_inner_ctx(toks, u, o, pt, pe);
    law_guards_never_fire(toks, pt);
    law_guards_never_fire(u, pe);
    if let Some((n1, e)) = expr_inner(toks, pt) {
        let n2 = expr_inner(u, pe).unwrap().0;
        lemma_expr_items_ctx(toks, u, o, n1, n2, acc.push(e));
    }
}

// ---------------------------------------------------------------------------
// Simple commands
// ---------------------------------------------------------------------------

#[verifier::spinoff_prover]
pub proof fn lemma_binding_head_ctx(toks: Seq<Token>, u: Seq<Token>, o: int, pt: int, pe: int)
    requires
        embedded(toks, u, o),
        corr(toks, u, o, pt, pe),
        stops_cmd(toks, u, o),
    ensures
        agree(toks, u, o, binding_head(toks, pt), binding_head(u, pe)),
{
    lemma_variable_ctx(toks, u, o, pt, pe);
    if let Some((a1, _)) = variable(toks, pt) {
        let a2 = variable(u, pe).unwrap().0;
        lemma_op_ctx(toks, u, o, a1, a2, TokenKind::Colon);
        if let Some(b1) = op(toks, a1, TokenKind::Colon) {
            let b2 = op(u, a2, TokenKind::Colon).unwrap();
            lemma_ty_ctx(toks, u, o, b1, b2);
            if let Some((c1, _)) = ty(toks, b1) {
                let c2 = ty(u, b2).unwrap().0;
                lemma_op_ctx(toks, u, o, c1, c2, TokenKind::Equals);
            }
        }
    }
}

#[verifier::spinoff_prover]
pub proof fn lemma_alloc_arg_ctx(toks: Seq<Token>, u: Seq<Token>, o: int, pt: int, pe: int)
    requires
        embedded(toks, u, o),
        corr(toks, u, o, pt, pe),
        stops_cmd(toks, u, o),
    ensures
        agree(toks, u, o, alloc_arg(toks, pt), alloc_arg(u, pe)),
{
    lemma_op_ctx(toks, u, o, pt, pe, TokenKind::Alloc);
    if let Some(a1) = op(toks, pt, TokenKind::Alloc) {
        let a2 = op(u, pe, TokenKind::Alloc).unwrap();
        lemma_op_ctx(toks, u, o, a1, a2, TokenKind::LParen);
        if let Some(b1) = op(toks, a1, TokenKind::LParen) {
            let b2 = op(u, a2, TokenKind::LParen).unwrap();
            lemma_arith_ctx(toks, u, o, b1, b2);
            if let Some((c1, _)) = arith(toks, b1) {
                let c2 = arith(u, b2).unwrap().0;
                lemma_op_ctx(toks, u, o, c1, c2, TokenKind::RParen);
            }
        }
    }
}

#[verifier::spinoff_prover]
pub proof fn lemma_cmd_lets_ctx(toks: Seq<Token>, u: Seq<Token>, o: int, pt: int, pe: int)
    requires
        embedded(toks, u, o),
        corr(toks, u, o, pt, pe),
        stops_cmd(toks, u, o),
    ensures
        agree(toks, u, o, cmd_let(toks, pt), cmd_let(u, pe)),
        agree(toks, u, o, cmd_let_mut(toks, pt), cmd_let_mut(u, pe)),
        agree(toks, u, o, cmd_let_alloc(toks, pt), cmd_let_alloc(u, pe)),
        agree(toks, u, o, cmd_let_mut_alloc(toks, pt), cmd_let_mut_alloc(u, pe)),
{
    lemma_op_ctx(toks, u, o, pt, pe, TokenKind::Let);
    if let Some(a1) = op(toks, pt, TokenKind::Let) {
        let a2 = op(u, pe, TokenKind::Let).unwrap();
        lemma_binding_head_ctx(toks, u, o, a1, a2);
        if let Some((b1, _)) = binding_head(toks, a1) {
            let b2 = binding_head(u, a2).unwrap().0;
            lemma_expr_ctx(toks, u, o, b1, b2);
            lemma_alloc_arg_ctx(toks, u, o, b1, b2);
        }
        lemma_op_ctx(toks, u, o, a1, a2, TokenKind::Mut);
        if let Some(m1) = op(toks, a1, TokenKind::Mut) {
            let m2 = op(u, a2, TokenKind::Mut).unwrap();
            lemma_binding_head_ctx(toks, u, o, m1, m2);
            if let Some((b1, _)) = binding_head(toks, m1) {
                let b2 = binding_head(u, m2).unwrap().0;
                lemma_expr_ctx(toks, u, o, b1, b2);
                lemma_alloc_arg_ctx(toks, u, o, b1, b2);
            }
        }
    }
}

#[verifier::spinoff_prover]
pub proof fn lemma_cmd_simple_ctx(toks: Seq<Token>, u: Seq<Token>, o: int, pt: int, pe: int)
    requires
        embedded(toks, u, o),
        corr(toks, u, o, pt, pe),
        stops_cmd(toks, u, o),
    ensures
        agree(toks, u, o, cmd_simple(toks, pt), cmd_simple(u, pe)),
{
    lemma_op_ctx(toks, u, o, pt, pe, TokenKind::Skip);
    assert(agree(toks, u, o, cmd_skip(toks, pt), cmd_skip(u, pe)));
    lemma_cmd_lets_ctx(toks, u, o, pt, pe);
    lemma_lhs_ctx(toks, u, o, pt, pe);
    if let Some((a1, _)) = lhs(toks, pt) {
        let a2 = lhs(u, pe).unwrap().0;
        lemma_op_ctx(toks, u, o, a1, a2, TokenKind::Equals);
        if let Some(b1) = op(toks, a1, TokenKind::Equals) {
            let b2 = op(u, a2, TokenKind::Equals).unwrap();
            lemma_expr_ctx(toks, u, o, b1, b2);
        }
    }
    assert(agree(toks, u, o, cmd_assign(toks, pt), cmd_assign(u, pe)));
    lemma_op_ctx(toks, u, o, pt, pe, TokenKind::Free);
    if let Some(a1) = op(toks, pt, TokenKind::Free) {
        let a2 = op(u, pe, TokenKind::Free).unwrap();
        lemma_op_ctx(toks, u, o, a1, a2, TokenKind::LParen);
        if let Some(b1) = op(toks, a1, TokenKind::LParen) {
            let b2 = op(u, a2, TokenKind::LParen).unwrap();
            lemma_lhs_ctx(toks, u, o, b1, b2);
            if let Some((c1, _)) = lhs(toks, b1) {
                let c2 = lhs(u, b2).unwrap().0;
                lemma_op_ctx(toks, u, o, c1, c2, TokenKind::RParen);
            }
        }
    }
    assert(agree(toks, u, o, cmd_free(toks, pt), cmd_free(u, pe)));
}

} // verus!
