use std::rc::Rc;

use lox::token::{collect, Literal, Range, Source, Token, TokenKind, ValueKind};

fn source(name: &str, text: &str) -> Rc<Source> {
    Rc::new(Source::new(name.to_string(), text.chars().collect()))
}

fn token(kind: TokenKind, start: usize, end: usize, line: usize, source: &Rc<Source>) -> Token {
    Token { kind, span: Range(start, end), line, source: Rc::clone(source) }
}

#[test]
fn source_hands_out_its_characters() {
    let source = Source::new("file".to_string(), "héllo".chars().collect());
    assert_eq!(source.len(), 5);
    assert_eq!(source.name(), "file");
    assert_eq!(source.get(0), Some(&'h'));
    assert_eq!(source.get(1), Some(&'é'));
    assert_eq!(source.get(4), Some(&'o'));
    assert_eq!(source.get(5), None);
    assert_eq!(*source.get_unchecked(2), 'l');
    assert_eq!(source.range(&Range(1, 4)), &['é', 'l', 'l']);
    assert_eq!(source.range(&Range(0, 5)).len(), 5);
    assert!(source.range(&Range(3, 3)).is_empty());
}

#[test]
fn empty_source() {
    let source = Source::new(String::new(), Vec::new());
    assert_eq!(source.len(), 0);
    assert_eq!(source.get(0), None);
    assert!(source.range(&Range(0, 0)).is_empty());
}

#[test]
fn token_name_is_its_text() {
    let source = source("file", "var abc = 1;");
    let name = token(TokenKind::Identifier, 4, 7, 1, &source);
    assert!(name.is_placed());
    assert_eq!(name.name(), "abc");
    assert_eq!(name.lexeme(), Some("abc".to_string()));
    assert_eq!(token(TokenKind::Eof, 12, 12, 1, &source).name(), "");
}

#[test]
fn token_outside_its_source_has_no_text() {
    let source = source("file", "abc");
    assert!(!token(TokenKind::Identifier, 2, 4, 1, &source).is_placed());
    assert_eq!(token(TokenKind::Identifier, 2, 4, 1, &source).lexeme(), None);
    assert!(!token(TokenKind::Identifier, 2, 1, 1, &source).is_placed());
    assert_eq!(token(TokenKind::Identifier, 2, 1, 1, &source).lexeme(), None);
}

#[test]
fn tokens_compare_by_kind_place_line_and_source_name() {
    let first = source("file", "abc abc");
    let same_name = source("file", "something else");
    let other_name = source("other", "abc abc");
    let a = token(TokenKind::Identifier, 0, 3, 1, &first);
    assert_eq!(a, a.clone());
    assert_eq!(a, token(TokenKind::Identifier, 0, 3, 1, &same_name));
    assert_ne!(a, token(TokenKind::Identifier, 0, 3, 1, &other_name));
    assert_ne!(a, token(TokenKind::Identifier, 4, 7, 1, &first));
    assert_ne!(a, token(TokenKind::Identifier, 0, 3, 2, &first));
    assert_ne!(a, token(TokenKind::Var, 0, 3, 1, &first));
    assert_ne!(token(TokenKind::Number(1), 0, 3, 1, &first),
        token(TokenKind::Number(2), 0, 3, 1, &first));
}

#[test]
fn token_kinds_compare_with_their_payload() {
    assert!(TokenKind::Plus.equals(&TokenKind::Plus));
    assert!(!TokenKind::Plus.equals(&TokenKind::Minus));
    assert!(TokenKind::Number(3).equals(&TokenKind::Number(3)));
    assert!(!TokenKind::Number(3).equals(&TokenKind::Number(4)));
    assert!(TokenKind::Str("a".to_string()).equals(&TokenKind::Str("a".to_string())));
    assert!(!TokenKind::Str("a".to_string()).equals(&TokenKind::Str("b".to_string())));
    assert!(!TokenKind::Str("a".to_string()).equals(&TokenKind::Identifier));
    assert!(TokenKind::Eof.equals(&TokenKind::Eof));
    assert_eq!(TokenKind::Str("a".to_string()).clone(), TokenKind::Str("a".to_string()));
}

#[test]
fn characters_are_collected_in_order() {
    assert_eq!(collect(&['a', 'b', 'ç']), "abç");
    assert_eq!(collect(&[]), "");
}

#[test]
fn truthiness() {
    assert!(!Literal::Bool(false).is_truthy());
    assert!(!Literal::Nil.is_truthy());
    assert!(Literal::Bool(true).is_truthy());
    assert!(Literal::Number(0).is_truthy());
    assert!(Literal::Number(0.0f64.to_bits()).is_truthy());
    assert!(Literal::Str(String::new()).is_truthy());
    assert!(Literal::Str("false".to_string()).is_truthy());
}

#[test]
fn kinds_and_their_names() {
    assert_eq!(Literal::Bool(true).kind_name(), "bool");
    assert_eq!(Literal::Nil.kind_name(), "nil");
    assert_eq!(Literal::Number(1).kind_name(), "number");
    assert_eq!(Literal::Str("s".to_string()).kind_name(), "string");
    assert_eq!(Literal::Bool(true).kind(), ValueKind::Bool);
    assert_eq!(Literal::Nil.kind(), ValueKind::Nil);
    assert_eq!(Literal::Number(1).kind(), ValueKind::Number);
    assert_eq!(Literal::Str("s".to_string()).kind(), ValueKind::Str);
    assert_eq!(ValueKind::Str.name(), "string");
}

#[test]
fn text_of_a_value() {
    assert_eq!(Literal::Bool(true).text(), Some("true".to_string()));
    assert_eq!(Literal::Bool(false).text(), Some("false".to_string()));
    assert_eq!(Literal::Nil.text(), Some("nil".to_string()));
    assert_eq!(Literal::Str("raw \"text\"".to_string()).text(), Some("raw \"text\"".to_string()));
    assert_eq!(Literal::Number(1.0f64.to_bits()).text(), None);
}

#[test]
fn values_are_equal_within_a_kind() {
    let one = Literal::Number(1.0f64.to_bits());
    assert!(one.equals(&Literal::Number(1.0f64.to_bits())));
    assert!(!one.equals(&Literal::Number(2.0f64.to_bits())));
    assert!(!one.equals(&Literal::Str("1".to_string())));
    assert!(!Literal::Nil.equals(&Literal::Bool(false)));
    assert!(Literal::Nil.equals(&Literal::Nil));
    assert!(Literal::Bool(false).equals(&Literal::Bool(false)));
    assert!(!Literal::Bool(false).equals(&Literal::Bool(true)));
    assert!(Literal::Str("a".to_string()).equals(&Literal::Str("a".to_string())));
    assert!(!Literal::Str("a".to_string()).equals(&Literal::Str("b".to_string())));
    assert_eq!(Literal::Str("a".to_string()).clone(), Literal::Str("a".to_string()));
}
