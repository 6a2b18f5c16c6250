use std::rc::Rc;

use lox::parse::{desugar_for, parse, ParseErr};
use lox::stmt::{Expr, Stmt};
use lox::token::{Literal, Range, Source, Token, TokenKind};

fn tokens_without_end(kinds: Vec<TokenKind>) -> Vec<Token> {
    let text: Vec<char> = kinds.iter().map(|_| 'x').collect();
    let source = Rc::new(Source::new("<test>".to_string(), text));
    kinds
        .into_iter()
        .enumerate()
        .map(|(i, kind)| Token {
            kind,
            span: Range(i, i + 1),
            line: 1,
            source: Rc::clone(&source),
        })
        .collect()
}

fn tokens(mut kinds: Vec<TokenKind>) -> Vec<Token> {
    kinds.push(TokenKind::Eof);
    tokens_without_end(kinds)
}

fn number(value: u64) -> TokenKind {
    TokenKind::Number(value)
}

fn literal(value: u64) -> Expr {
    Expr::Literal { val: Literal::Number(value) }
}

fn expression(kinds: Vec<TokenKind>) -> Expr {
    let mut kinds = kinds;
    kinds.push(TokenKind::Semicolon);
    let (mut statements, errors) = parse(tokens(kinds));
    assert!(errors.is_empty(), "{:?}", errors);
    assert_eq!(statements.len(), 1);
    match statements.remove(0) {
        Stmt::Expression { expr } => expr,
        other => panic!("unexpected statement {:?}", other),
    }
}

fn failure(kinds: Vec<TokenKind>) -> ParseErr {
    let (statements, mut errors) = parse(tokens(kinds));
    assert!(statements.is_empty(), "{:?}", statements);
    assert_eq!(errors.len(), 1, "{:?}", errors);
    errors.remove(0)
}

fn binary(left: Expr, right: Expr) -> (Box<Expr>, Box<Expr>) {
    (Box::new(left), Box::new(right))
}

#[test]
fn no_tokens_no_statements() {
    let (statements, errors) = parse(Vec::new());
    assert!(statements.is_empty());
    assert!(errors.is_empty());
    let (statements, errors) = parse(tokens(vec![]));
    assert!(statements.is_empty());
    assert!(errors.is_empty());
}

#[test]
fn literals() {
    assert_eq!(expression(vec![TokenKind::True]), Expr::Literal { val: Literal::Bool(true) });
    assert_eq!(expression(vec![TokenKind::False]), Expr::Literal { val: Literal::Bool(false) });
    assert_eq!(expression(vec![TokenKind::Nil]), Expr::Literal { val: Literal::Nil });
    assert_eq!(expression(vec![number(7)]), literal(7));
    assert_eq!(expression(vec![TokenKind::Str("s".to_string())]),
        Expr::Literal { val: Literal::Str("s".to_string()) });
}

#[test]
fn multiplication_binds_tighter_than_addition() {
    match expression(vec![number(1), TokenKind::Plus, number(2), TokenKind::Star, number(3)]) {
        Expr::Binary { left, operator, right } => {
            assert_eq!(operator.kind, TokenKind::Plus);
            assert_eq!(operator.span, Range(1, 2));
            assert_eq!(*left, literal(1));
            match *right {
                Expr::Binary { left, operator, right } => {
                    assert_eq!(operator.kind, TokenKind::Star);
                    assert_eq!((left, right), binary(literal(2), literal(3)));
                }
                other => panic!("unexpected operand {:?}", other),
            }
        }
        other => panic!("unexpected expression {:?}", other),
    }
}

#[test]
fn operators_of_one_level_group_to_the_left() {
    match expression(vec![number(1), TokenKind::Minus, number(2), TokenKind::Minus, number(3)]) {
        Expr::Binary { left, operator, right } => {
            assert_eq!(operator.span, Range(3, 4));
            assert_eq!(*right, literal(3));
            match *left {
                Expr::Binary { left, operator, right } => {
                    assert_eq!(operator.span, Range(1, 2));
                    assert_eq!((left, right), binary(literal(1), literal(2)));
                }
                other => panic!("unexpected operand {:?}", other),
            }
        }
        other => panic!("unexpected expression {:?}", other),
    }
}

#[test]
fn levels_from_loose_to_tight() {
    let kinds = vec![
        number(1), TokenKind::Or, number(2), TokenKind::And, number(3), TokenKind::EqualEqual,
        number(4), TokenKind::Less, number(5), TokenKind::Plus, number(6), TokenKind::Slash,
        TokenKind::Minus, number(7),
    ];
    let mut expr = expression(kinds);
    let mut operators = Vec::new();
    loop {
        expr = match expr {
            Expr::Logical { left, operator, right } => {
                assert!(matches!(*left, Expr::Literal { .. }));
                operators.push(operator.kind);
                *right
            }
            Expr::Binary { left, operator, right } => {
                assert!(matches!(*left, Expr::Literal { .. }));
                operators.push(operator.kind);
                *right
            }
            Expr::Unary { operator, right } => {
                operators.push(operator.kind);
                *right
            }
            other => {
                assert_eq!(other, literal(7));
                break;
            }
        };
    }
    assert_eq!(operators, vec![TokenKind::Or, TokenKind::And, TokenKind::EqualEqual,
        TokenKind::Less, TokenKind::Plus, TokenKind::Slash, TokenKind::Minus]);
}

#[test]
fn and_or_are_logical_nodes() {
    assert!(matches!(expression(vec![number(1), TokenKind::Or, number(2)]), Expr::Logical { .. }));
    assert!(matches!(expression(vec![number(1), TokenKind::And, number(2)]), Expr::Logical { .. }));
    assert!(matches!(expression(vec![number(1), TokenKind::BangEqual, number(2)]),
        Expr::Binary { .. }));
    assert!(matches!(expression(vec![number(1), TokenKind::GreaterEqual, number(2)]),
        Expr::Binary { .. }));
}

#[test]
fn unary_nests_to_the_right() {
    match expression(vec![TokenKind::Bang, TokenKind::Minus, TokenKind::Bang, number(1)]) {
        Expr::Unary { operator, right } => {
            assert_eq!(operator.span, Range(0, 1));
            match *right {
                Expr::Unary { operator, right } => {
                    assert_eq!(operator.kind, TokenKind::Minus);
                    assert!(matches!(*right, Expr::Unary { .. }));
                }
                other => panic!("unexpected operand {:?}", other),
            }
        }
        other => panic!("unexpected expression {:?}", other),
    }
}

#[test]
fn grouping_keeps_its_parentheses() {
    match expression(vec![TokenKind::LeftParen, number(1), TokenKind::Plus, number(2),
        TokenKind::RightParen, TokenKind::Star, number(3)]) {
        Expr::Binary { left, operator, .. } => {
            assert_eq!(operator.kind, TokenKind::Star);
            match *left {
                Expr::Grouping { expr } => assert!(matches!(*expr, Expr::Binary { .. })),
                other => panic!("unexpected operand {:?}", other),
            }
        }
        other => panic!("unexpected expression {:?}", other),
    }
}

#[test]
fn assignment_groups_to_the_right() {
    match expression(vec![TokenKind::Identifier, TokenKind::Equal, TokenKind::Identifier,
        TokenKind::Equal, number(3)]) {
        Expr::Assign { name, value } => {
            assert_eq!(name.span, Range(0, 1));
            match *value {
                Expr::Assign { name, value } => {
                    assert_eq!(name.span, Range(2, 3));
                    assert_eq!(*value, literal(3));
                }
                other => panic!("unexpected value {:?}", other),
            }
        }
        other => panic!("unexpected expression {:?}", other),
    }
}

#[test]
fn assignment_needs_a_variable_and_blames_the_equal_sign() {
    let error = failure(vec![number(1), TokenKind::Equal, number(2), TokenKind::Semicolon]);
    assert_eq!(error.message, "Invalid assignment target.");
    assert_eq!(error.token.kind, TokenKind::Equal);
    assert_eq!(error.token.span, Range(1, 2));
    let error = failure(vec![TokenKind::LeftParen, TokenKind::Identifier, TokenKind::RightParen,
        TokenKind::Equal, number(2), TokenKind::Semicolon]);
    assert_eq!(error.message, "Invalid assignment target.");
    assert_eq!(error.token.span, Range(3, 4));
    let error = failure(vec![TokenKind::Identifier, TokenKind::Plus, TokenKind::Identifier,
        TokenKind::Equal, number(2), TokenKind::Semicolon]);
    assert_eq!(error.message, "Invalid assignment target.");
    assert_eq!(error.token.span, Range(3, 4));
}

#[test]
fn each_missing_token_has_its_message() {
    let cases: Vec<(Vec<TokenKind>, &str, usize)> = vec![
        (vec![number(1)], "Expect ';' after value.", 1),
        (vec![TokenKind::Print, number(1)], "Expect ';' after value.", 2),
        (vec![TokenKind::Print], "Expect expression.", 1),
        (vec![TokenKind::Plus, TokenKind::Semicolon], "Expect expression.", 0),
        (vec![TokenKind::LeftParen, number(1), TokenKind::Semicolon],
            "Expect ')' after expression.", 2),
        (vec![TokenKind::Var, TokenKind::Semicolon], "Expect variable name.", 1),
        (vec![TokenKind::Var, TokenKind::Identifier, number(1), TokenKind::Semicolon],
            "Expect ';' after variable declaration.", 2),
        (vec![TokenKind::Var, TokenKind::Identifier, TokenKind::Equal, number(1)],
            "Expect ';' after variable declaration.", 4),
        (vec![TokenKind::If, number(1)], "Expect '(' after 'if'.", 1),
        (vec![TokenKind::If, TokenKind::LeftParen, number(1), TokenKind::Semicolon],
            "Expect ')' after if condition.", 3),
        (vec![TokenKind::While, TokenKind::Semicolon], "Expect '(' after 'while'.", 1),
        (vec![TokenKind::While, TokenKind::LeftParen, number(1), TokenKind::Semicolon],
            "Expect ')' after while condition.", 3),
        (vec![TokenKind::For, TokenKind::Semicolon], "Expect '(' after 'for'.", 1),
        (vec![TokenKind::For, TokenKind::LeftParen, TokenKind::Semicolon, number(1),
            TokenKind::RightParen], "Expect ';' after loop condition.", 4),
        (vec![TokenKind::For, TokenKind::LeftParen, TokenKind::Semicolon, TokenKind::Semicolon,
            number(1), TokenKind::Semicolon], "Expect ')' after for clauses.", 5),
        (vec![TokenKind::LeftBrace, number(1), TokenKind::Semicolon], "Expect '}' after block.", 3),
    ];
    for (kinds, message, place) in cases {
        let error = failure(kinds);
        assert_eq!(error.message, message);
        assert_eq!(error.token.span, Range(place, place + 1), "{}", message);
    }
}

#[test]
fn statements_of_each_form() {
    let (statements, errors) = parse(tokens(vec![
        TokenKind::Var, TokenKind::Identifier, TokenKind::Semicolon,
        TokenKind::Var, TokenKind::Identifier, TokenKind::Equal, number(1), TokenKind::Semicolon,
        TokenKind::Print, number(2), TokenKind::Semicolon,
        number(3), TokenKind::Semicolon,
        TokenKind::LeftBrace, number(4), TokenKind::Semicolon, TokenKind::LeftBrace,
        TokenKind::RightBrace, TokenKind::RightBrace,
        TokenKind::While, TokenKind::LeftParen, TokenKind::True, TokenKind::RightParen,
        TokenKind::LeftBrace, TokenKind::RightBrace,
        TokenKind::If, TokenKind::LeftParen, TokenKind::True, TokenKind::RightParen,
        number(5), TokenKind::Semicolon,
    ]));
    assert!(errors.is_empty(), "{:?}", errors);
    assert_eq!(statements.len(), 7);
    match &statements[0] {
        Stmt::Var { name, initializer } => {
            assert_eq!(name.span, Range(1, 2));
            assert_eq!(*initializer, None);
        }
        other => panic!("unexpected statement {:?}", other),
    }
    match &statements[1] {
        Stmt::Var { name, initializer } => {
            assert_eq!(name.span, Range(4, 5));
            assert_eq!(*initializer, Some(literal(1)));
        }
        other => panic!("unexpected statement {:?}", other),
    }
    assert_eq!(statements[2], Stmt::Print { expr: literal(2) });
    assert_eq!(statements[3], Stmt::Expression { expr: literal(3) });
    assert_eq!(statements[4], Stmt::Block {
        statements: vec![Stmt::Expression { expr: literal(4) }, Stmt::Block { statements: vec![] }],
    });
    assert_eq!(statements[5], Stmt::While {
        condition: Expr::Literal { val: Literal::Bool(true) },
        body: Box::new(Stmt::Block { statements: vec![] }),
    });
    assert_eq!(statements[6], Stmt::If {
        condition: Expr::Literal { val: Literal::Bool(true) },
        then_branch: Box::new(Stmt::Expression { expr: literal(5) }),
        else_branch: None,
    });
}

#[test]
fn else_belongs_to_the_nearest_if() {
    let (statements, errors) = parse(tokens(vec![
        TokenKind::If, TokenKind::LeftParen, TokenKind::True, TokenKind::RightParen,
        TokenKind::If, TokenKind::LeftParen, TokenKind::False, TokenKind::RightParen,
        number(1), TokenKind::Semicolon,
        TokenKind::Else, number(2), TokenKind::Semicolon,
    ]));
    assert!(errors.is_empty());
    match &statements[0] {
        Stmt::If { then_branch, else_branch, .. } => {
            assert_eq!(*else_branch, None);
            match &**then_branch {
                Stmt::If { else_branch, .. } => {
                    assert_eq!(*else_branch, Some(Box::new(Stmt::Expression { expr: literal(2) })));
                }
                other => panic!("unexpected branch {:?}", other),
            }
        }
        other => panic!("unexpected statement {:?}", other),
    }
}

#[test]
fn for_is_rewritten_with_while() {
    let body = Stmt::Print { expr: literal(1) };
    let first = Stmt::Expression { expr: literal(2) };
    assert_eq!(
        desugar_for(Some(first), literal(3), Some(literal(4)), body),
        Stmt::Block {
            statements: vec![
                Stmt::Expression { expr: literal(2) },
                Stmt::While {
                    condition: literal(3),
                    body: Box::new(Stmt::Block {
                        statements: vec![
                            Stmt::Print { expr: literal(1) },
                            Stmt::Expression { expr: literal(4) },
                        ],
                    }),
                },
            ],
        }
    );
    assert_eq!(
        desugar_for(None, literal(3), None, Stmt::Print { expr: literal(1) }),
        Stmt::While { condition: literal(3), body: Box::new(Stmt::Print { expr: literal(1) }) }
    );
    assert_eq!(
        desugar_for(None, literal(3), Some(literal(4)), Stmt::Print { expr: literal(1) }),
        Stmt::While {
            condition: literal(3),
            body: Box::new(Stmt::Block {
                statements: vec![
                    Stmt::Print { expr: literal(1) },
                    Stmt::Expression { expr: literal(4) },
                ],
            }),
        }
    );
    let (statements, errors) = parse(tokens(vec![
        TokenKind::For, TokenKind::LeftParen, number(2), TokenKind::Semicolon, number(3),
        TokenKind::Semicolon, number(4), TokenKind::RightParen, TokenKind::Print, number(1),
        TokenKind::Semicolon,
    ]));
    assert!(errors.is_empty());
    assert_eq!(
        statements,
        vec![desugar_for(
            Some(Stmt::Expression { expr: literal(2) }),
            literal(3),
            Some(literal(4)),
            Stmt::Print { expr: literal(1) },
        )]
    );
}

#[test]
fn recovery_drops_tokens_up_to_a_statement_boundary() {
    let (statements, errors) = parse(tokens(vec![
        TokenKind::Var, TokenKind::Equal, number(1), TokenKind::Semicolon,
        TokenKind::Print, number(2), TokenKind::Semicolon,
        TokenKind::Print, number(3), number(4), number(5), TokenKind::Print, number(6),
        TokenKind::Semicolon,
    ]));
    assert_eq!(errors.len(), 2);
    assert_eq!(errors[0].message, "Expect variable name.");
    assert_eq!(errors[0].token.span, Range(1, 2));
    assert_eq!(errors[1].message, "Expect ';' after value.");
    assert_eq!(errors[1].token.span, Range(9, 10));
    assert_eq!(statements, vec![Stmt::Print { expr: literal(2) }, Stmt::Print { expr: literal(6) }]);
}

#[test]
fn recovery_always_drops_a_token() {
    let (statements, errors) = parse(tokens(vec![
        TokenKind::Class, TokenKind::Return, TokenKind::Fun, number(1), TokenKind::Semicolon,
    ]));
    assert_eq!(errors.len(), 3);
    for error in &errors {
        assert_eq!(error.message, "Expect expression.");
    }
    assert_eq!(errors[0].token.kind, TokenKind::Class);
    assert_eq!(errors[1].token.kind, TokenKind::Return);
    assert_eq!(errors[2].token.kind, TokenKind::Fun);
    assert!(statements.is_empty());
}

#[test]
fn token_that_starts_no_expression_is_left_for_recovery() {
    let (statements, errors) = parse(tokens(vec![
        TokenKind::Print, TokenKind::Semicolon,
        TokenKind::Print, number(2), TokenKind::Semicolon,
        number(1), TokenKind::Plus, TokenKind::Semicolon,
        TokenKind::Print, number(3), TokenKind::Semicolon,
        TokenKind::Semicolon,
        TokenKind::Print, number(4), TokenKind::Semicolon,
    ]));
    assert_eq!(errors.len(), 3);
    assert_eq!(errors[0].token.span, Range(1, 2));
    assert_eq!(errors[1].token.span, Range(7, 8));
    assert_eq!(errors[2].token.span, Range(11, 12));
    for error in &errors {
        assert_eq!(error.message, "Expect expression.");
        assert_eq!(error.token.kind, TokenKind::Semicolon);
    }
    assert_eq!(statements, vec![
        Stmt::Print { expr: literal(2) },
        Stmt::Print { expr: literal(3) },
        Stmt::Print { expr: literal(4) },
    ]);
}

#[test]
fn error_inside_a_block_gives_up_the_block() {
    let (statements, errors) = parse(tokens(vec![
        TokenKind::LeftBrace, number(1), TokenKind::Semicolon, number(2), number(3),
        TokenKind::Semicolon, TokenKind::RightBrace, TokenKind::Print, number(4),
        TokenKind::Semicolon,
    ]));
    assert_eq!(errors.len(), 2);
    assert_eq!(errors[0].message, "Expect ';' after value.");
    assert_eq!(errors[0].token.kind, number(3));
    assert_eq!(errors[1].message, "Expect expression.");
    assert_eq!(errors[1].token.kind, TokenKind::RightBrace);
    assert_eq!(statements, vec![Stmt::Print { expr: literal(4) }]);
}

#[test]
fn input_without_end_marker_is_read_to_its_last_token() {
    let (statements, errors) = parse(tokens_without_end(vec![
        TokenKind::Print, number(1), TokenKind::Semicolon, TokenKind::Print, number(2),
    ]));
    assert_eq!(statements, vec![Stmt::Print { expr: literal(1) }]);
    assert_eq!(errors.len(), 1);
    assert_eq!(errors[0].message, "Expect ';' after value.");
    assert_eq!(errors[0].token.kind, number(2));
}

#[test]
fn tokens_behind_the_end_marker_are_not_read() {
    let (statements, errors) = parse(tokens_without_end(vec![
        TokenKind::Print, number(1), TokenKind::Semicolon, TokenKind::Eof, TokenKind::Print,
        number(2), TokenKind::Semicolon,
    ]));
    assert_eq!(statements, vec![Stmt::Print { expr: literal(1) }]);
    assert!(errors.is_empty());
}
