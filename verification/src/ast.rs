use vstd::prelude::*;

verus! {

/// An assignable place: a variable under zero or more dereferences.
#[derive(Debug, PartialEq, Eq)]
pub enum Lhs {
    Var(String),
    Deref(Box<Lhs>),
}

/// A type of the language.
#[derive(Debug, PartialEq, Eq)]
pub enum Type {
    Int,
    Bool,
    Ref { mutable: bool, inner_type: Box<Type> },
    Loc(Box<Type>),
    Prod(Vec<Type>),
}

/// An arithmetic expression.
#[derive(Debug, PartialEq, Eq)]
pub enum ArithExpr {
    Nat(u64),
    Lvalue(Box<Lhs>),
    Sizeof(Box<Type>),
    Neg(Box<ArithExpr>),
    Mult(Box<ArithExpr>, Box<ArithExpr>),
    Div(Box<ArithExpr>, Box<ArithExpr>),
    Plus(Box<ArithExpr>, Box<ArithExpr>),
    Minus(Box<ArithExpr>, Box<ArithExpr>),
}

/// A boolean expression.
#[derive(Debug, PartialEq, Eq)]
pub enum BoolExpr {
    True,
    False,
    Lvalue(Box<Lhs>),
    Eq(Box<ArithExpr>, Box<ArithExpr>),
    Bang(Box<BoolExpr>),
    And(Box<BoolExpr>, Box<BoolExpr>),
}

/// An expression: a place, a tuple, a reference, or a boolean or arithmetic expression.
#[derive(Debug, PartialEq, Eq)]
pub enum Expr {
    Lvalue(Box<Lhs>),
    Tuple(Vec<Expr>),
    ImmutRef(String),
    MutRef(String),
    Bool(Box<BoolExpr>),
    Int(Box<ArithExpr>),
}

/// A command (statement) of the language.
#[derive(Debug, PartialEq, Eq)]
pub enum Cmd {
    Skip,
    Let(String, Box<Type>, Box<Expr>),
    LetMut(String, Box<Type>, Box<Expr>),
    LetAlloc(String, Box<Type>, Box<ArithExpr>),
    LetMutAlloc(String, Box<Type>, Box<ArithExpr>),
    Assign(Box<Lhs>, Box<Expr>),
    Free(Box<Lhs>),
    While(Box<BoolExpr>, Box<Cmd>),
    If(Box<BoolExpr>, Box<Cmd>, Box<Cmd>),
    Sequence(Box<Cmd>, Box<Cmd>),
}

// ---------------------------------------------------------------------------
// Mathematical models of the syntax trees: names become `Seq<char>`,
// vectors become `Seq`.
// ---------------------------------------------------------------------------

pub enum SpecLhs {
    Var(Seq<char>),
    Deref(Box<SpecLhs>),
}

pub enum SpecType {
    Int,
    Bool,
    Ref { mutable: bool, inner_type: Box<SpecType> },
    Loc(Box<SpecType>),
    Prod(Seq<SpecType>),
}

pub enum SpecArith {
    Nat(u64),
    Lvalue(Box<SpecLhs>),
    Sizeof(Box<SpecType>),
    Neg(Box<SpecArith>),
    Mult(Box<SpecArith>, Box<SpecArith>),
    Div(Box<SpecArith>, Box<SpecArith>),
    Plus(Box<SpecArith>, Box<SpecArith>),
    Minus(Box<SpecArith>, Box<SpecArith>),
}

pub enum SpecBool {
    True,
    False,
    Lvalue(Box<SpecLhs>),
    Eq(Box<SpecArith>, Box<SpecArith>),
    Bang(Box<SpecBool>),
    And(Box<SpecBool>, Box<SpecBool>),
}

pub enum SpecExpr {
    Lvalue(Box<SpecLhs>),
    Tuple(Seq<SpecExpr>),
    ImmutRef(Seq<char>),
    MutRef(Seq<char>),
    Bool(Box<SpecBool>),
    Int(Box<SpecArith>),
}

pub enum SpecCmd {
    Skip,
    Let(Seq<char>, Box<SpecType>, Box<SpecExpr>),
    LetMut(Seq<char>, Box<SpecType>, Box<SpecExpr>),
    LetAlloc(Seq<char>, Box<SpecType>, Box<SpecArith>),
    LetMutAlloc(Seq<char>, Box<SpecType>, Box<SpecArith>),
    Assign(Box<SpecLhs>, Box<SpecExpr>),
    Free(Box<SpecLhs>),
    While(Box<SpecBool>, Box<SpecCmd>),
    If(Box<SpecBool>, Box<SpecCmd>, Box<SpecCmd>),
    Sequence(Box<SpecCmd>, Box<SpecCmd>),
}

pub open spec fn lhs_view(l: Lhs) -> SpecLhs
    decreases l,
{
    match l {
        Lhs::Var(s) => SpecLhs::Var(s@),
        Lhs::Deref(b) => SpecLhs::Deref(Box::new(lhs_view(*b))),
    }
}

pub open spec fn type_view(t: Type) -> SpecType
    decreases t,
{
    match t {
        Type::Int => SpecType::Int,
        Type::Bool => SpecType::Bool,
        Type::Ref { mutable, inner_type } => SpecType::Ref {
            mutable,
            inner_type: Box::new(type_view(*inner_type)),
        },
        Type::Loc(b) => SpecType::Loc(Box::new(type_view(*b))),
        Type::Prod(v) => SpecType::Prod(
            Seq::new(
                v@.len(),
                |i: int|
                    if 0 <= i < v@.len() {
                        type_view(v@[i])
                    } else {
                        SpecType::Int
                    },
            ),
        ),
    }
}

/// The models of a sequence of types, element by element.
pub open spec fn type_seq_view(s: Seq<Type>) -> Seq<SpecType> {
    s.map_values(|t: Type| type_view(t))
}

pub open spec fn arith_view(a: ArithExpr) -> SpecArith
    decreases a,
{
    match a {
        ArithExpr::Nat(n) => SpecArith::Nat(n),
        ArithExpr::Lvalue(l) => SpecArith::Lvalue(Box::new(lhs_view(*l))),
        ArithExpr::Sizeof(t) => SpecArith::Sizeof(Box::new(type_view(*t))),
        ArithExpr::Neg(x) => SpecArith::Neg(Box::new(arith_view(*x))),
        ArithExpr::Mult(x, y) => SpecArith::Mult(Box::new(arith_view(*x)), Box::new(arith_view(*y))),
        ArithExpr::Div(x, y) => SpecArith::Div(Box::new(arith_view(*x)), Box::new(arith_view(*y))),
        ArithExpr::Plus(x, y) => SpecArith::Plus(Box::new(arith_view(*x)), Box::new(arith_view(*y))),
        ArithExpr::Minus(x, y) => SpecArith::Minus(
            Box::new(arith_view(*x)),
            Box::new(arith_view(*y)),
        ),
    }
}

pub open spec fn bool_view(b: BoolExpr) -> SpecBool
    decreases b,
{
    match b {
        BoolExpr::True => SpecBool::True,
        BoolExpr::False => SpecBool::False,
        BoolExpr::Lvalue(l) => SpecBool::Lvalue(Box::new(lhs_view(*l))),
        BoolExpr::Eq(x, y) => SpecBool::Eq(Box::new(arith_view(*x)), Box::new(arith_view(*y))),
        BoolExpr::Bang(x) => SpecBool::Bang(Box::new(bool_view(*x))),
        BoolExpr::And(x, y) => SpecBool::And(Box::new(bool_view(*x)), Box::new(bool_view(*y))),
    }
}

pub open spec fn expr_view(e: Expr) -> SpecExpr
    decreases e,
{
    match e {
        Expr::Lvalue(l) => SpecExpr::Lvalue(Box::new(lhs_view(*l))),
        Expr::Tuple(v) => SpecExpr::Tuple(
            Seq::new(
                v@.len(),
                |i: int|
                    if 0 <= i < v@.len() {
                        expr_view(v@[i])
                    } else {
                        SpecExpr::ImmutRef(Seq::empty())
                    },
            ),
        ),
        Expr::ImmutRef(s) => SpecExpr::ImmutRef(s@),
        Expr::MutRef(s) => SpecExpr::MutRef(s@),
        Expr::Bool(b) => SpecExpr::Bool(Box::new(bool_view(*b))),
        Expr::Int(a) => SpecExpr::Int(Box::new(arith_view(*a))),
    }
}

/// The models of a sequence of expressions, element by element.
pub open spec fn expr_seq_view(s: Seq<Expr>) -> Seq<SpecExpr> {
    s.map_values(|e: Expr| expr_view(e))
}

pub open spec fn cmd_view(c: Cmd) -> SpecCmd
    decreases c,
{
    match c {
        Cmd::Skip => SpecCmd::Skip,
        Cmd::Let(v, t, e) => SpecCmd::Let(v@, Box::new(type_view(*t)), Box::new(expr_view(*e))),
        Cmd::LetMut(v, t, e) => SpecCmd::LetMut(
            v@,
            Box::new(type_view(*t)),
            Box::new(expr_view(*e)),
        ),
        Cmd::LetAlloc(v, t, a) => SpecCmd::LetAlloc(
            v@,
            Box::new(type_view(*t)),
            Box::new(arith_view(*a)),
        ),
        Cmd::LetMutAlloc(v, t, a) => SpecCmd::LetMutAlloc(
            v@,
            Box::new(type_view(*t)),
            Box::new(arith_view(*a)),
        ),
        Cmd::Assign(l, e) => SpecCmd::Assign(Box::new(lhs_view(*l)), Box::new(expr_view(*e))),
        Cmd::Free(l) => SpecCmd::Free(Box::new(lhs_view(*l))),
        Cmd::While(b, c) => SpecCmd::While(Box::new(bool_view(*b)), Box::new(cmd_view(*c))),
        Cmd::If(b, c1, c2) => SpecCmd::If(
            Box::new(bool_view(*b)),
            Box::new(cmd_view(*c1)),
            Box::new(cmd_view(*c2)),
        ),
        Cmd::Sequence(c1, c2) => SpecCmd::Sequence(
            Box::new(cmd_view(*c1)),
            Box::new(cmd_view(*c2)),
        ),
    }
}

impl View for Lhs {
    type V = SpecLhs;

    open spec fn view(&self) -> SpecLhs {
        lhs_view(*self)
    }
}

impl View for Type {
    type V = SpecType;

    open spec fn view(&self) -> SpecType {
        type_view(*self)
    }
}

impl View for ArithExpr {
    type V = SpecArith;

    open spec fn view(&self) -> SpecArith {
        arith_view(*self)
    }
}

impl View for BoolExpr {
    type V = SpecBool;

    open spec fn view(&self) -> SpecBool {
        bool_view(*self)
    }
}

impl View for Expr {
    type V = SpecExpr;

    open spec fn view(&self) -> SpecExpr {
        expr_view(*self)
    }
}

impl View for Cmd {
    type V = SpecCmd;

    open spec fn view(&self) -> SpecCmd {
        cmd_view(*self)
    }
}

/// The model of a product type is the sequence of the models of its components.
pub proof fn lemma_prod_view(v: Vec<Type>)
    ensures
        type_view(Type::Prod(v)) == SpecType::Prod(type_seq_view(v@)),
{
    assert(type_view(Type::Prod(v))->Prod_0 =~= type_seq_view(v@));
}

/// The model of a tuple is the sequence of the models of its components.
pub proof fn lemma_tuple_view(v: Vec<Expr>)
    ensures
        expr_view(Expr::Tuple(v)) == SpecExpr::Tuple(expr_seq_view(v@)),
{
    assert(expr_view(Expr::Tuple(v))->Tuple_0 =~= expr_seq_view(v@));
}

} // verus!
