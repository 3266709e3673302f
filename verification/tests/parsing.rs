use minilox::parse;
use minilox::scan;
use minilox::BinOp;
use minilox::Decl;
use minilox::ErrorState;
use minilox::Expr;
use minilox::ExprData;
use minilox::Program;
use minilox::Stmt;
use minilox::Token;
use minilox::TokenData;
use minilox::UnaryOp;

fn parse_expr_tokens(mut tokens: Vec<Token>) -> Program {
    // append a semicolon to create a valid program
    tokens.push(Token::new(TokenData::Semicolon, 0));
    tokens.push(Token::new(TokenData::Eof, 0));
    parse(tokens).unwrap()
}

fn number(n: f32) -> Expr {
    Expr::new(ExprData::NumberLiteral(n.to_bits()), 0)
}

fn assert_expr_parses(tokens: Vec<Token>, expected: Expr) {
    let program = parse_expr_tokens(tokens);
    assert_eq!(program[0], Decl::Stmt(Stmt::Expr(expected)));
}

fn parse_source(text: &str) -> Result<Program, ErrorState> {
    parse(scan(text, 0).unwrap())
}

#[test]
fn parser_literals() {
    assert_expr_parses(
        vec![Token::new(TokenData::True, 0)],
        Expr::new(ExprData::True, 0),
    );

    assert_expr_parses(
        vec![Token::new(TokenData::False, 0)],
        Expr::new(ExprData::False, 0),
    );

    assert_expr_parses(
        vec![Token::new(TokenData::Nil, 0)],
        Expr::new(ExprData::Nil, 0),
    );

    assert_expr_parses(
        vec![Token::new(TokenData::Number(1.0f32.to_bits()), 0)],
        number(1.0),
    );

    assert_expr_parses(
        vec![Token::new(TokenData::StringToken("foo".to_string()), 0)],
        Expr::new(ExprData::StringLiteral("foo".to_string()), 0),
    );
}

#[test]
fn unary() {
    assert_expr_parses(
        vec![Token::new(TokenData::Bang, 0), Token::new(TokenData::False, 0)],
        Expr::new(
            ExprData::Unary(UnaryOp::Inverse, Box::new(Expr::new(ExprData::False, 0))),
            0,
        ),
    );

    assert_expr_parses(
        vec![Token::new(TokenData::Minus, 0), Token::new(TokenData::False, 0)],
        Expr::new(
            ExprData::Unary(UnaryOp::Negative, Box::new(Expr::new(ExprData::False, 0))),
            0,
        ),
    );
}

#[test]
fn cmps() {
    let ops = [
        (TokenData::Greater, BinOp::Gt),
        (TokenData::GreaterEqual, BinOp::GtEq),
        (TokenData::Less, BinOp::Lt),
        (TokenData::LessEqual, BinOp::LtEq),
    ];
    for (token, op) in ops {
        assert_expr_parses(
            vec![
                Token::new(TokenData::True, 0),
                Token::new(token, 0),
                Token::new(TokenData::False, 0),
            ],
            Expr::new(
                ExprData::Binary(
                    op,
                    Box::new(Expr::new(ExprData::True, 0)),
                    Box::new(Expr::new(ExprData::False, 0)),
                ),
                0,
            ),
        );
    }

    // left-associativity
    assert_expr_parses(
        vec![
            Token::new(TokenData::Number(1.0f32.to_bits()), 0),
            Token::new(TokenData::LessEqual, 0),
            Token::new(TokenData::Number(2.0f32.to_bits()), 0),
            Token::new(TokenData::GreaterEqual, 0),
            Token::new(TokenData::Number(3.0f32.to_bits()), 0),
        ],
        Expr::new(
            ExprData::Binary(
                BinOp::GtEq,
                Box::new(Expr::new(
                    ExprData::Binary(BinOp::LtEq, Box::new(number(1.0)), Box::new(number(2.0))),
                    0,
                )),
                Box::new(number(3.0)),
            ),
            0,
        ),
    );
}

#[test]
fn math() {
    let ops = [
        (TokenData::Plus, BinOp::Add),
        (TokenData::Minus, BinOp::Sub),
        (TokenData::Slash, BinOp::Div),
        (TokenData::Star, BinOp::Mult),
    ];
    for (token, op) in ops {
        assert_expr_parses(
            vec![
                Token::new(TokenData::Number(1.0f32.to_bits()), 0),
                Token::new(token, 0),
                Token::new(TokenData::Number(2.0f32.to_bits()), 0),
            ],
            Expr::new(
                ExprData::Binary(op, Box::new(number(1.0)), Box::new(number(2.0))),
                0,
            ),
        );
    }

    // left-associative on same operator
    assert_expr_parses(
        vec![
            Token::new(TokenData::Number(1.0f32.to_bits()), 0),
            Token::new(TokenData::Star, 0),
            Token::new(TokenData::Number(2.0f32.to_bits()), 0),
            Token::new(TokenData::Star, 0),
            Token::new(TokenData::Number(3.0f32.to_bits()), 0),
        ],
        Expr::new(
            ExprData::Binary(
                BinOp::Mult,
                Box::new(Expr::new(
                    ExprData::Binary(BinOp::Mult, Box::new(number(1.0)), Box::new(number(2.0))),
                    0,
                )),
                Box::new(number(3.0)),
            ),
            0,
        ),
    );

    // mult takes precedence over add
    assert_expr_parses(
        vec![
            Token::new(TokenData::Number(1.0f32.to_bits()), 0),
            Token::new(TokenData::Plus, 0),
            Token::new(TokenData::Number(2.0f32.to_bits()), 0),
            Token::new(TokenData::Star, 0),
            Token::new(TokenData::Number(3.0f32.to_bits()), 0),
        ],
        Expr::new(
            ExprData::Binary(
                BinOp::Add,
                Box::new(number(1.0)),
                Box::new(Expr::new(
                    ExprData::Binary(BinOp::Mult, Box::new(number(2.0)), Box::new(number(3.0))),
                    0,
                )),
            ),
            0,
        ),
    );
}

#[test]
fn grouping() {
    assert_expr_parses(
        vec![
            Token::new(TokenData::LeftParen, 0),
            Token::new(TokenData::Number(1.0f32.to_bits()), 0),
            Token::new(TokenData::Plus, 0),
            Token::new(TokenData::Number(2.0f32.to_bits()), 0),
            Token::new(TokenData::RightParen, 0),
            Token::new(TokenData::Star, 0),
            Token::new(TokenData::Number(3.0f32.to_bits()), 0),
        ],
        Expr::new(
            ExprData::Binary(
                BinOp::Mult,
                Box::new(Expr::new(
                    ExprData::Binary(BinOp::Add, Box::new(number(1.0)), Box::new(number(2.0))),
                    0,
                )),
                Box::new(number(3.0)),
            ),
            0,
        ),
    );
}

#[test]
fn subtraction_is_left_associative() {
    let program = parse_source("1 - 2 - 3;").unwrap();
    assert_eq!(
        program[0],
        Decl::Stmt(Stmt::Expr(Expr::new(
            ExprData::Binary(
                BinOp::Sub,
                Box::new(Expr::new(
                    ExprData::Binary(BinOp::Sub, Box::new(number(1.0)), Box::new(number(2.0))),
                    0,
                )),
                Box::new(number(3.0)),
            ),
            0,
        )))
    );
}

#[test]
fn multiplication_binds_tighter_than_addition() {
    let program = parse_source("1 + 2 * 3;").unwrap();
    assert_eq!(
        program[0],
        Decl::Stmt(Stmt::Expr(Expr::new(
            ExprData::Binary(
                BinOp::Add,
                Box::new(number(1.0)),
                Box::new(Expr::new(
                    ExprData::Binary(BinOp::Mult, Box::new(number(2.0)), Box::new(number(3.0))),
                    0,
                )),
            ),
            0,
        )))
    );
}

#[test]
fn grouping_overrides_precedence() {
    let program = parse_source("(1 + 2) * 3;").unwrap();
    assert_eq!(
        program[0],
        Decl::Stmt(Stmt::Expr(Expr::new(
            ExprData::Binary(
                BinOp::Mult,
                Box::new(Expr::new(
                    ExprData::Binary(BinOp::Add, Box::new(number(1.0)), Box::new(number(2.0))),
                    0,
                )),
                Box::new(number(3.0)),
            ),
            0,
        )))
    );
}

#[test]
fn two_malformed_statements_give_two_parse_errors() {
    let err = parse_source("1 + ; 2 * ;").unwrap_err();
    match err {
        ErrorState::ParseErrs(errs) => {
            assert_eq!(errs.len(), 2);
        }
        other => panic!("expected parse errors, got {other:?}"),
    }
}

#[test]
fn var_declaration_parses() {
    let program = parse_source("var x = 1;").unwrap();
    assert_eq!(
        program[0],
        Decl::VarDecl(
            Expr::new(ExprData::Identifier("x".to_string()), 0),
            number(1.0),
        )
    );
}

#[test]
fn var_without_identifier_is_a_parse_error() {
    let err = parse_source("var 1 = 2;").unwrap_err();
    match err {
        ErrorState::ParseErrs(errs) => {
            assert_eq!(errs.len(), 1);
            assert_eq!(errs[0].render(), "[0]: parse error: expected identifier");
        }
        other => panic!("expected parse errors, got {other:?}"),
    }
}

#[test]
fn unmatched_open_paren_is_a_parse_error() {
    let err = parse_source("(1 + 2;").unwrap_err();
    match err {
        ErrorState::ParseErrs(errs) => {
            assert_eq!(errs.len(), 1);
            assert_eq!(errs[0].render(), "[0]: parse error: expected closing parens");
        }
        other => panic!("expected parse errors, got {other:?}"),
    }
}

#[test]
fn missing_semicolon_is_a_parse_error() {
    let err = parse_source("1 + 2").unwrap_err();
    match err {
        ErrorState::ParseErrs(errs) => {
            assert_eq!(errs.len(), 1);
            assert_eq!(errs[0].render(), "[0]: parse error: expected semicolon");
        }
        other => panic!("expected parse errors, got {other:?}"),
    }
}

#[test]
fn error_recovery_still_parses_later_statements() {
    // the first statement is malformed, the second is fine: exactly one
    // error, and parsing clearly reached the second statement since a
    // third, malformed one adds a second error
    let err = parse_source("* 1; 2; * 3;").unwrap_err();
    match err {
        ErrorState::ParseErrs(errs) => {
            assert_eq!(errs.len(), 2);
        }
        other => panic!("expected parse errors, got {other:?}"),
    }
}
