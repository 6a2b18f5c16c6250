use lox::lex::{lead, token_kind_for_text, Lead, Lexer, Scan};
use lox::token::TokenKind::{
    And, Bang, BangEqual, Class, Comma, Dot, Else, Eof, Equal, EqualEqual, False, For, Fun,
    Greater, GreaterEqual, Identifier, If, LeftBrace, LeftParen, Less, LessEqual, Minus, Nil,
    Number, Or, Plus, Print, Return, RightBrace, RightParen, Semicolon, Slash, Star, Str, Super,
    This, True, Var, While,
};
use lox::token::{Range, Token, TokenKind};

fn lex(name: String, source: &str) -> Vec<Token> {
    let mut lexer = lox::lex::lex(name, source);
    loop {
        match lexer.scan() {
            Scan::Number { lexeme, fractional } => {
                let value: f64 = if fractional {
                    lexeme.parse().unwrap()
                } else {
                    lexeme.parse::<u64>().unwrap() as f64
                };
                lexer.number_value(value.to_bits());
            }
            Scan::Unexpected { character, .. } => panic!("unexpected char {}", character),
            Scan::Finished => return lexer.finish(),
        }
    }
}

fn to_token_kinds(source: &str) -> Vec<TokenKind> {
    lex("<for testing>".to_string(), source).iter().map(|token| token.kind.clone()).collect()
}

fn number(value: f64) -> TokenKind {
    Number(value.to_bits())
}

#[test]
fn test_var() {
    assert_eq!(to_token_kinds("var a;"), vec![Var, Identifier, Semicolon, Eof],);
}

#[test]
fn test_var_with_init() {
    assert_eq!(
        to_token_kinds("var a = 1;"),
        vec![Var, Identifier, Equal, number(1.0), Semicolon, Eof],
    );
}

#[test]
fn punctuation_and_operators() {
    assert_eq!(
        to_token_kinds("(){},.-+;*/"),
        vec![
            LeftParen, RightParen, LeftBrace, RightBrace, Comma, Dot, Minus, Plus, Semicolon,
            Star, Slash, Eof
        ],
    );
    assert_eq!(
        to_token_kinds("! != = == > >= < <="),
        vec![Bang, BangEqual, Equal, EqualEqual, Greater, GreaterEqual, Less, LessEqual, Eof],
    );
    assert_eq!(to_token_kinds("==="), vec![EqualEqual, Equal, Eof]);
    assert_eq!(to_token_kinds("!"), vec![Bang, Eof]);
}

#[test]
fn keywords_and_identifiers() {
    assert_eq!(
        to_token_kinds(
            "and class else false fun for if nil or print return super this true var while"
        ),
        vec![
            And, Class, Else, False, Fun, For, If, Nil, Or, Print, Return, Super, This, True, Var,
            While, Eof
        ],
    );
    assert_eq!(to_token_kinds("android classy iff var1 été"),
        vec![Identifier, Identifier, Identifier, Identifier, Identifier, Eof]);
}

#[test]
fn keyword_table() {
    assert_eq!(token_kind_for_text(&"true".to_string()), True);
    assert_eq!(token_kind_for_text(&"while".to_string()), While);
    assert_eq!(token_kind_for_text(&"True".to_string()), Identifier);
    assert_eq!(token_kind_for_text(&"".to_string()), Identifier);
    assert_eq!(token_kind_for_text(&"truex".to_string()), Identifier);
}

#[test]
fn numbers_whole_and_fractional() {
    assert_eq!(to_token_kinds("12 3.25 7. .5"),
        vec![number(12.0), number(3.25), number(7.0), Dot, Dot, number(5.0), Eof]);
    assert_eq!(to_token_kinds("1.5.2"), vec![number(1.5), Dot, number(2.0), Eof]);
    assert_eq!(to_token_kinds("0.1"), vec![number(0.1), Eof]);
}

#[test]
fn number_is_reported_with_its_lexeme() {
    let mut lexer = Lexer::new("n".to_string(), "x = 3.14; 42".chars().collect());
    assert_eq!(lexer.scan(), Scan::Number { lexeme: "3.14".to_string(), fractional: true });
    assert_eq!(lexer.tokens().len(), 2);
    assert_eq!(lexer.scan(), Scan::Number { lexeme: "3.14".to_string(), fractional: true });
    assert_eq!(lexer.tokens().len(), 2);
    lexer.number_value(7);
    lexer.number_value(8);
    assert_eq!(lexer.tokens().len(), 3);
    assert_eq!(lexer.tokens()[2].kind, Number(7));
    assert_eq!(lexer.tokens()[2].span, Range(4, 8));
    assert_eq!(lexer.scan(), Scan::Number { lexeme: "42".to_string(), fractional: false });
    lexer.number_value(9);
    assert_eq!(lexer.scan(), Scan::Finished);
    let kinds: Vec<TokenKind> = lexer.finish().iter().map(|token| token.kind.clone()).collect();
    assert_eq!(kinds, vec![Identifier, Equal, Number(7), Semicolon, Number(9), Eof]);
}

#[test]
fn value_without_a_pending_number_is_ignored() {
    let mut lexer = Lexer::new("n".to_string(), "a".chars().collect());
    lexer.number_value(1);
    assert_eq!(lexer.tokens().len(), 0);
    assert_eq!(lexer.scan(), Scan::Finished);
    lexer.number_value(1);
    assert_eq!(lexer.tokens().len(), 2);
}

#[test]
fn strings_carry_their_text() {
    assert_eq!(to_token_kinds("\"hi there\" \"\""),
        vec![Str("hi there".to_string()), Str(String::new()), Eof]);
    let tokens = lex("s".to_string(), "a \"bc\"");
    assert_eq!(tokens[1].span, Range(2, 6));
    assert_eq!(tokens[1].name(), "\"bc\"");
}

#[test]
fn string_without_closing_quote_leaves_no_token() {
    assert_eq!(to_token_kinds("a \"bc"), vec![Identifier, Eof]);
}

#[test]
fn string_may_span_lines_without_counting_them() {
    let tokens = lex("s".to_string(), "\"a\nb\" c");
    assert_eq!(tokens[0].kind, Str("a\nb".to_string()));
    assert_eq!(tokens[1].line, 1);
}

#[test]
fn comments_and_blanks_are_skipped() {
    assert_eq!(to_token_kinds("a // b c d\n e"), vec![Identifier, Identifier, Eof]);
    assert_eq!(to_token_kinds(" \t\r\n "), vec![Eof]);
    assert_eq!(to_token_kinds("// only a comment"), vec![Eof]);
    assert_eq!(to_token_kinds("a / b"), vec![Identifier, Slash, Identifier, Eof]);
}

#[test]
fn tokens_know_their_place() {
    let tokens = lex("file".to_string(), "var abc\n= 12;\n");
    let spans: Vec<Range> = tokens.iter().map(|token| token.span.clone()).collect();
    assert_eq!(spans, vec![Range(0, 3), Range(4, 7), Range(8, 9), Range(10, 12), Range(12, 13),
        Range(14, 14)]);
    let lines: Vec<usize> = tokens.iter().map(|token| token.line).collect();
    assert_eq!(lines, vec![1, 1, 2, 2, 2, 3]);
    let names: Vec<String> = tokens.iter().map(|token| token.name()).collect();
    assert_eq!(names, vec!["var", "abc", "=", "12", ";", ""]);
    for token in &tokens {
        assert!(token.is_placed());
        assert_eq!(token.source.name(), "file");
    }
}

#[test]
fn end_of_input_is_reported_once() {
    let mut lexer = Lexer::new("n".to_string(), Vec::new());
    assert_eq!(lexer.scan(), Scan::Finished);
    assert_eq!(lexer.scan(), Scan::Finished);
    let tokens = lexer.finish();
    assert_eq!(tokens.len(), 1);
    assert_eq!(tokens[0].kind, Eof);
    assert_eq!(tokens[0].span, Range(0, 0));
}

#[test]
fn unexpected_character_is_reported_and_skipped() {
    let mut lexer = Lexer::new("n".to_string(), "a\n# b".chars().collect());
    assert_eq!(lexer.scan(), Scan::Unexpected { character: '#', line: 2 });
    assert_eq!(lexer.scan(), Scan::Finished);
    let kinds: Vec<TokenKind> = lexer.finish().iter().map(|token| token.kind.clone()).collect();
    assert_eq!(kinds, vec![Identifier, Identifier, Eof]);
}

#[test]
fn first_character_decides_the_lexeme() {
    assert_eq!(lead('(', false, false), Lead::Single(LeftParen));
    assert_eq!(lead('*', false, false), Lead::Single(Star));
    assert_eq!(lead('!', false, false), Lead::Pair(Bang, BangEqual));
    assert_eq!(lead('<', false, false), Lead::Pair(Less, LessEqual));
    assert_eq!(lead('/', false, false), Lead::Slash);
    assert_eq!(lead(' ', false, false), Lead::Blank);
    assert_eq!(lead('\t', false, false), Lead::Blank);
    assert_eq!(lead('\r', false, false), Lead::Blank);
    assert_eq!(lead('\n', false, false), Lead::Newline);
    assert_eq!(lead('"', false, false), Lead::Quote);
    assert_eq!(lead('7', true, false), Lead::Digit);
    assert_eq!(lead('x', false, true), Lead::Letter);
    assert_eq!(lead('x', true, true), Lead::Digit);
    assert_eq!(lead('#', false, false), Lead::Unknown);
    assert_eq!(lead('+', true, true), Lead::Single(Plus));
}
