use huelang::ast::{ArithExpr, BoolExpr, Cmd, Expr, Lhs, Type};
use huelang::parser::{
    arith_parser, bool_parser, command_parser, expr_parser, lhs_parser, parse_command,
    type_parser, ParseError,
};
use huelang::token::Token;
use huelang::token::Token::{
    Alloc, Amp, And, Bang, Bool, Colon, Comma, Divide, Do, Else, Equals, False, Free,
    GreaterThan, If, Int, LParen, LSqBra, LessThan, Let, Loc, Minus, Multiply, Mut, Plus, RParen,
    RSqBra, Ref, Semicolon, Sizeof, Skip, Then, True, While, Whitespace,
};

const WS: Token = Whitespace;

fn v(name: &str) -> Token {
    Token::Var(name.to_string())
}

fn n(value: u64) -> Token {
    Token::Nat(value)
}

fn var(name: &str) -> Lhs {
    Lhs::Var(name.to_string())
}

fn b<T>(x: T) -> Box<T> {
    Box::new(x)
}

fn num(value: u64) -> ArithExpr {
    ArithExpr::Nat(value)
}

fn place(name: &str) -> ArithExpr {
    ArithExpr::Lvalue(b(var(name)))
}

// ---------------------------------------------------------------------------
// Places
// ---------------------------------------------------------------------------

#[test]
fn lhs_plain_variable() {
    let toks = vec![v("x")];
    assert_eq!(lhs_parser(&toks, 0), Some((1, var("x"))));
}

#[test]
fn lhs_stars_become_derefs() {
    let toks = vec![Multiply, Multiply, v("p"), Plus];
    assert_eq!(
        lhs_parser(&toks, 0),
        Some((3, Lhs::Deref(b(Lhs::Deref(b(var("p")))))))
    );
}

#[test]
fn lhs_allows_no_whitespace() {
    assert_eq!(lhs_parser(&[Multiply, WS, v("p")], 0), None);
    assert_eq!(lhs_parser(&[WS, v("p")], 0), None);
}

#[test]
fn lhs_needs_a_variable() {
    assert_eq!(lhs_parser(&[Multiply, n(3)], 0), None);
    assert_eq!(lhs_parser(&[], 0), None);
    assert_eq!(lhs_parser(&[v("x")], 5), None);
}

#[test]
fn lhs_at_an_inner_position() {
    let toks = vec![Semicolon, Multiply, v("q")];
    assert_eq!(lhs_parser(&toks, 1), Some((3, Lhs::Deref(b(var("q"))))));
}

// ---------------------------------------------------------------------------
// Types
// ---------------------------------------------------------------------------

#[test]
fn type_atoms() {
    assert_eq!(type_parser(&[Int], 0), Some((1, Type::Int)));
    assert_eq!(type_parser(&[WS, Bool, WS, WS], 0), Some((4, Type::Bool)));
}

#[test]
fn type_reference() {
    let toks = vec![Ref, LessThan, True, Comma, Int, GreaterThan];
    assert_eq!(
        type_parser(&toks, 0),
        Some((6, Type::Ref { mutable: true, inner_type: b(Type::Int) }))
    );
    let toks = vec![Ref, WS, LessThan, WS, False, Comma, WS, Bool, WS, GreaterThan, WS];
    assert_eq!(
        type_parser(&toks, 0),
        Some((11, Type::Ref { mutable: false, inner_type: b(Type::Bool) }))
    );
}

#[test]
fn type_reference_comma_must_follow_the_flag() {
    let toks = vec![Ref, LessThan, True, WS, Comma, Int, GreaterThan];
    assert_eq!(type_parser(&toks, 0), None);
}

#[test]
fn type_location() {
    let toks = vec![Loc, LessThan, Loc, LessThan, Int, GreaterThan, GreaterThan];
    assert_eq!(
        type_parser(&toks, 0),
        Some((7, Type::Loc(b(Type::Loc(b(Type::Int))))))
    );
}

#[test]
fn type_products() {
    assert_eq!(type_parser(&[LSqBra, RSqBra], 0), Some((2, Type::Prod(vec![]))));
    let toks = vec![LSqBra, Int, Comma, WS, Bool, RSqBra];
    assert_eq!(
        type_parser(&toks, 0),
        Some((6, Type::Prod(vec![Type::Int, Type::Bool])))
    );
    let toks = vec![LSqBra, Int, Comma, RSqBra];
    assert_eq!(type_parser(&toks, 0), Some((4, Type::Prod(vec![Type::Int]))));
    let toks = vec![LSqBra, LSqBra, RSqBra, Comma, Int, RSqBra];
    assert_eq!(
        type_parser(&toks, 0),
        Some((6, Type::Prod(vec![Type::Prod(vec![]), Type::Int])))
    );
}

#[test]
fn type_product_rejects_lone_comma() {
    assert_eq!(type_parser(&[LSqBra, Comma, RSqBra], 0), None);
    assert_eq!(type_parser(&[LSqBra, Int, Comma, Comma, RSqBra], 0), None);
}

#[test]
fn type_rejects_other_tokens() {
    assert_eq!(type_parser(&[v("int")], 0), None);
    assert_eq!(type_parser(&[WS, WS], 0), None);
}

// ---------------------------------------------------------------------------
// Arithmetic expressions
// ---------------------------------------------------------------------------

#[test]
fn arith_precedence() {
    let toks = vec![n(1), Plus, n(2), Multiply, n(3)];
    assert_eq!(
        arith_parser(&toks, 0),
        Some((5, ArithExpr::Plus(b(num(1)), b(ArithExpr::Mult(b(num(2)), b(num(3)))))))
    );
}

#[test]
fn arith_left_associative() {
    let toks = vec![n(1), WS, Minus, WS, n(2), Minus, n(3), Divide, n(4), Divide, n(5)];
    let expected = ArithExpr::Minus(
        b(ArithExpr::Minus(b(num(1)), b(num(2)))),
        b(ArithExpr::Div(b(ArithExpr::Div(b(num(3)), b(num(4)))), b(num(5)))),
    );
    assert_eq!(arith_parser(&toks, 0), Some((11, expected)));
}

#[test]
fn arith_prefix_minus_and_deref() {
    let toks = vec![Minus, Minus, v("x"), Multiply, Multiply, v("y")];
    let expected = ArithExpr::Mult(
        b(ArithExpr::Neg(b(ArithExpr::Neg(b(place("x")))))),
        b(ArithExpr::Lvalue(b(Lhs::Deref(b(var("y")))))),
    );
    assert_eq!(arith_parser(&toks, 0), Some((6, expected)));
}

#[test]
fn arith_parentheses_and_sizeof() {
    let toks = vec![LParen, n(1), Plus, n(2), RParen, Multiply, Sizeof, WS, Int];
    let expected = ArithExpr::Mult(
        b(ArithExpr::Plus(b(num(1)), b(num(2)))),
        b(ArithExpr::Sizeof(b(Type::Int))),
    );
    assert_eq!(arith_parser(&toks, 0), Some((9, expected)));
}

#[test]
fn arith_stops_before_a_dangling_operator() {
    let toks = vec![n(7), WS, Plus, WS];
    assert_eq!(arith_parser(&toks, 0), Some((2, num(7))));
}

#[test]
fn arith_rejects_unclosed_parenthesis() {
    assert_eq!(arith_parser(&[LParen, n(1)], 0), None);
    assert_eq!(arith_parser(&[Minus], 0), None);
}

// ---------------------------------------------------------------------------
// Boolean expressions
// ---------------------------------------------------------------------------

#[test]
fn bool_literals_and_operators() {
    let toks = vec![Bang, True, WS, And, WS, False, And, Bang, Bang, v("b")];
    let expected = BoolExpr::And(
        b(BoolExpr::And(b(BoolExpr::Bang(b(BoolExpr::True))), b(BoolExpr::False))),
        b(BoolExpr::Bang(b(BoolExpr::Bang(b(BoolExpr::Lvalue(b(var("b")))))))),
    );
    assert_eq!(bool_parser(&toks, 0), Some((10, expected)));
}

#[test]
fn bool_equality() {
    let toks = vec![n(1), WS, Equals, Equals, WS, n(2)];
    assert_eq!(
        bool_parser(&toks, 0),
        Some((6, BoolExpr::Eq(b(num(1)), b(num(2)))))
    );
}

#[test]
fn bool_less_than_builds_equality() {
    let toks = vec![n(1), LessThan, n(2), Plus, v("x")];
    assert_eq!(
        bool_parser(&toks, 0),
        Some((5, BoolExpr::Eq(b(num(1)), b(ArithExpr::Plus(b(num(2)), b(place("x")))))))
    );
}

#[test]
fn bool_place_is_taken_before_comparison() {
    let toks = vec![v("x"), Equals, Equals, n(1)];
    assert_eq!(bool_parser(&toks, 0), Some((1, BoolExpr::Lvalue(b(var("x"))))));
}

#[test]
fn bool_equals_must_be_adjacent() {
    let toks = vec![n(1), Equals, WS, Equals, n(2)];
    assert_eq!(bool_parser(&toks, 0), None);
}

#[test]
fn bool_parenthesized() {
    let toks = vec![LParen, True, And, False, RParen, And, True];
    let expected = BoolExpr::And(
        b(BoolExpr::And(b(BoolExpr::True), b(BoolExpr::False))),
        b(BoolExpr::True),
    );
    assert_eq!(bool_parser(&toks, 0), Some((7, expected)));
}

// ---------------------------------------------------------------------------
// Expressions
// ---------------------------------------------------------------------------

#[test]
fn expr_references() {
    assert_eq!(expr_parser(&[Amp, WS, v("x")], 0), Some((3, Expr::ImmutRef("x".to_string()))));
    assert_eq!(
        expr_parser(&[WS, Amp, Mut, v("x"), WS], 0),
        Some((5, Expr::MutRef("x".to_string())))
    );
    assert_eq!(expr_parser(&[Amp, WS, Mut, v("x")], 0), None);
}

#[test]
fn expr_place_then_values() {
    assert_eq!(expr_parser(&[v("x"), Plus, n(1)], 0), Some((1, Expr::Lvalue(b(var("x"))))));
    assert_eq!(
        expr_parser(&[n(1), Plus, v("x")], 0),
        Some((3, Expr::Int(b(ArithExpr::Plus(b(num(1)), b(place("x")))))))
    );
    assert_eq!(expr_parser(&[True], 0), Some((1, Expr::Bool(b(BoolExpr::True)))));
    assert_eq!(expr_parser(&[n(4)], 0), Some((1, Expr::Int(b(num(4))))));
}

#[test]
fn expr_tuples() {
    assert_eq!(expr_parser(&[LSqBra, RSqBra], 0), Some((2, Expr::Tuple(vec![]))));
    let toks = vec![LSqBra, v("x"), WS, v("y"), n(3), RSqBra];
    let expected = Expr::Tuple(vec![
        Expr::Lvalue(b(var("x"))),
        Expr::Bool(b(BoolExpr::Lvalue(b(var("y"))))),
        Expr::Int(b(num(3))),
    ]);
    assert_eq!(expr_parser(&toks, 0), Some((6, expected)));
    let toks = vec![LSqBra, LSqBra, True, RSqBra, Amp, v("a"), RSqBra];
    let expected = Expr::Tuple(vec![
        Expr::Tuple(vec![Expr::Bool(b(BoolExpr::True))]),
        Expr::ImmutRef("a".to_string()),
    ]);
    assert_eq!(expr_parser(&toks, 0), Some((7, expected)));
}

#[test]
fn expr_tuple_brackets_take_no_padding() {
    assert_eq!(expr_parser(&[LSqBra, v("x"), WS, RSqBra], 0), None);
}

#[test]
fn expr_parenthesized() {
    let toks = vec![LParen, WS, Amp, v("r"), WS, RParen];
    assert_eq!(expr_parser(&toks, 0), Some((6, Expr::ImmutRef("r".to_string()))));
}

// ---------------------------------------------------------------------------
// Commands
// ---------------------------------------------------------------------------

#[test]
fn command_skip_sequence_is_left_associative() {
    let toks = vec![Skip, Semicolon, WS, Skip, WS, Semicolon, Skip];
    let expected = Cmd::Sequence(
        b(Cmd::Sequence(b(Cmd::Skip), b(Cmd::Skip))),
        b(Cmd::Skip),
    );
    assert_eq!(command_parser(&toks, 0), Some((7, expected)));
}

#[test]
fn command_let_forms() {
    let toks = vec![Let, WS, v("x"), Colon, Int, Equals, n(5)];
    assert_eq!(
        command_parser(&toks, 0),
        Some((7, Cmd::Let("x".to_string(), b(Type::Int), b(Expr::Int(b(num(5)))))))
    );
    let toks = vec![
        Let, WS, Mut, WS, v("r"), WS, Colon, WS, Ref, LessThan, True, Comma, Int, GreaterThan,
        WS, Equals, WS, Amp, Mut, v("x"),
    ];
    assert_eq!(
        command_parser(&toks, 0),
        Some((
            20,
            Cmd::LetMut(
                "r".to_string(),
                b(Type::Ref { mutable: true, inner_type: b(Type::Int) }),
                b(Expr::MutRef("x".to_string()))
            )
        ))
    );
}

#[test]
fn command_let_alloc_forms() {
    let toks = vec![
        Let, v("p"), Colon, Loc, LessThan, Int, GreaterThan, Equals, Alloc, LParen, Sizeof, Int,
        RParen,
    ];
    assert_eq!(
        command_parser(&toks, 0),
        Some((
            13,
            Cmd::LetAlloc(
                "p".to_string(),
                b(Type::Loc(b(Type::Int))),
                b(ArithExpr::Sizeof(b(Type::Int)))
            )
        ))
    );
    let toks = vec![Let, Mut, v("q"), Colon, Bool, Equals, Alloc, LParen, n(1), RParen];
    assert_eq!(
        command_parser(&toks, 0),
        Some((10, Cmd::LetMutAlloc("q".to_string(), b(Type::Bool), b(num(1)))))
    );
}

#[test]
fn command_assign_and_free() {
    let toks = vec![Multiply, v("p"), WS, Equals, WS, n(3), Semicolon, Free, LParen, v("p"), RParen];
    let expected = Cmd::Sequence(
        b(Cmd::Assign(b(Lhs::Deref(b(var("p")))), b(Expr::Int(b(num(3)))))),
        b(Cmd::Free(b(var("p")))),
    );
    assert_eq!(command_parser(&toks, 0), Some((11, expected)));
}

#[test]
fn command_while_body_takes_the_rest_of_the_sequence() {
    let toks = vec![
        While, WS, n(0), LessThan, v("n"), WS, Do, WS, v("n"), Equals, n(0), Minus, v("n"),
        Semicolon, Skip,
    ];
    let body = Cmd::Sequence(
        b(Cmd::Assign(
            b(var("n")),
            b(Expr::Int(b(ArithExpr::Minus(b(num(0)), b(place("n")))))),
        )),
        b(Cmd::Skip),
    );
    let expected = Cmd::While(b(BoolExpr::Eq(b(num(0)), b(place("n")))), b(body));
    assert_eq!(command_parser(&toks, 0), Some((15, expected)));
}

#[test]
fn command_if_else_branch_takes_the_rest() {
    let toks = vec![If, True, Then, Skip, Else, Skip, Semicolon, Skip];
    let expected = Cmd::If(
        b(BoolExpr::True),
        b(Cmd::Skip),
        b(Cmd::Sequence(b(Cmd::Skip), b(Cmd::Skip))),
    );
    assert_eq!(command_parser(&toks, 0), Some((8, expected)));
}

#[test]
fn command_if_then_branch_is_a_sequence() {
    let toks = vec![If, False, Then, Skip, Semicolon, Skip, Else, Skip];
    let expected = Cmd::If(
        b(BoolExpr::False),
        b(Cmd::Sequence(b(Cmd::Skip), b(Cmd::Skip))),
        b(Cmd::Skip),
    );
    assert_eq!(command_parser(&toks, 0), Some((8, expected)));
}

#[test]
fn command_while_with_place_condition_fails() {
    // The condition `x < 3` reads as the place `x`, and `do` is not next.
    let toks = vec![While, v("x"), LessThan, n(3), Do, Skip];
    assert_eq!(command_parser(&toks, 0), None);
}

// ---------------------------------------------------------------------------
// Whole programs
// ---------------------------------------------------------------------------

#[test]
fn program_ok() {
    let toks = vec![WS, Skip, Semicolon, v("x"), Equals, True, WS];
    assert_eq!(
        parse_command(&toks),
        Ok(Cmd::Sequence(
            b(Cmd::Skip),
            b(Cmd::Assign(b(var("x")), b(Expr::Bool(b(BoolExpr::True)))))
        ))
    );
}

#[test]
fn program_no_parse() {
    assert_eq!(parse_command(&[Semicolon, Skip]), Err(ParseError::NoParse));
    assert_eq!(parse_command(&[]), Err(ParseError::NoParse));
    assert_eq!(parse_command(&[WS]), Err(ParseError::NoParse));
}

#[test]
fn program_trailing_tokens() {
    assert_eq!(parse_command(&[Skip, WS, RParen]), Err(ParseError::TrailingTokens(2)));
    // `n - 1` after `=` reads only the place `n`.
    let toks = vec![v("n"), Equals, v("n"), Minus, n(1)];
    assert_eq!(parse_command(&toks), Err(ParseError::TrailingTokens(3)));
}

// ---------------------------------------------------------------------------
// Laws on concrete inputs
// ---------------------------------------------------------------------------

#[test]
fn progress_on_examples() {
    let toks = vec![WS, n(1), WS, Plus, WS, n(2), WS];
    for p in 0..toks.len() {
        if let Some((end, _)) = arith_parser(&toks, p) {
            assert!(p < end && end <= toks.len());
        }
        if let Some((end, _)) = command_parser(&toks, p) {
            assert!(p < end && end <= toks.len());
        }
    }
}

#[test]
fn trailing_whitespace_is_consumed() {
    let toks = vec![Int, WS, WS, Comma];
    assert_eq!(type_parser(&toks, 0), Some((3, Type::Int)));
    let toks = vec![True, WS, RParen];
    assert_eq!(bool_parser(&toks, 0), Some((2, BoolExpr::True)));
}

#[test]
fn leading_whitespace_is_skipped() {
    let toks = vec![WS, WS, Skip, Semicolon, Skip];
    assert_eq!(command_parser(&toks, 0), command_parser(&toks, 2));
    assert_eq!(expr_parser(&toks, 1), expr_parser(&toks, 2));
}

// ---------------------------------------------------------------------------
// Composition and printing on concrete inputs
// ---------------------------------------------------------------------------

fn whole<T>(r: Option<(usize, T)>, len: usize) -> Option<T> {
    match r {
        Some((n, v)) if n == len => Some(v),
        _ => None,
    }
}

#[test]
fn whitespace_around_changes_nothing() {
    let toks = vec![n(1), Plus, WS, v("x")];
    let padded = vec![WS, WS, n(1), Plus, WS, v("x"), WS];
    assert_eq!(whole(arith_parser(&toks, 0), toks.len()), whole(arith_parser(&padded, 0), padded.len()));
    assert!(whole(arith_parser(&padded, 0), padded.len()).is_some());
    let toks = vec![Loc, LessThan, Int, GreaterThan];
    let padded = vec![WS, Loc, LessThan, Int, GreaterThan, WS, WS];
    assert_eq!(whole(type_parser(&padded, 0), padded.len()), Some(Type::Loc(b(Type::Int))));
    assert_eq!(whole(type_parser(&toks, 0), toks.len()), Some(Type::Loc(b(Type::Int))));
}

#[test]
fn printed_arith_reads_back() {
    // (-( 1 )) - (x)  with every operation parenthesized
    let toks = vec![
        LParen, Minus, LParen, n(1), RParen, RParen, Minus, LParen, v("x"), RParen,
    ];
    let expected = ArithExpr::Minus(b(ArithExpr::Neg(b(num(1)))), b(place("x")));
    assert_eq!(arith_parser(&toks, 0), Some((10, expected)));
}

#[test]
fn printed_bool_reads_back() {
    // ((1) == (2)) && (!(b))
    let toks = vec![
        LParen, LParen, n(1), RParen, Equals, Equals, LParen, n(2), RParen, RParen, And, LParen,
        Bang, LParen, v("b"), RParen, RParen,
    ];
    let expected = BoolExpr::And(
        b(BoolExpr::Eq(b(num(1)), b(num(2)))),
        b(BoolExpr::Bang(b(BoolExpr::Lvalue(b(var("b")))))),
    );
    assert_eq!(bool_parser(&toks, 0), Some((17, expected)));
}

#[test]
fn printed_type_reads_back() {
    let toks = vec![LSqBra, Ref, LessThan, False, Comma, Int, GreaterThan, Comma, Bool, RSqBra];
    let expected = Type::Prod(vec![
        Type::Ref { mutable: false, inner_type: b(Type::Int) },
        Type::Bool,
    ]);
    assert_eq!(type_parser(&toks, 0), Some((10, expected)));
}

#[test]
fn composed_let_and_assign() {
    let toks = vec![Let, v("x"), Colon, WS, Int, WS, Equals, WS, n(3)];
    assert_eq!(
        parse_command(&toks),
        Ok(Cmd::Let("x".to_string(), b(Type::Int), b(Expr::Int(b(num(3))))))
    );
    let toks = vec![Multiply, v("p"), Equals, Amp, v("q")];
    assert_eq!(
        parse_command(&toks),
        Ok(Cmd::Assign(b(Lhs::Deref(b(var("p")))), b(Expr::ImmutRef("q".to_string()))))
    );
}

#[test]
fn composed_sequence_nests_left() {
    let toks = vec![Skip, Semicolon, Free, LParen, v("p"), RParen, Semicolon, v("x"), Equals, n(1)];
    let expected = Cmd::Sequence(
        b(Cmd::Sequence(b(Cmd::Skip), b(Cmd::Free(b(var("p")))))),
        b(Cmd::Assign(b(var("x")), b(Expr::Int(b(num(1)))))),
    );
    assert_eq!(parse_command(&toks), Ok(expected));
}
