//! Source texts, tokens and runtime values, each with its mathematical content.

use std::rc::Rc;
use vstd::prelude::*;

verus! {

/// A half-open interval `[start, end)` of character offsets into a source text.
#[derive(Debug, PartialEq, Eq, Hash, Structural)]
pub struct Range(pub usize, pub usize);

impl Clone for Range {
    fn clone(&self) -> (copy: Self)
        ensures
            copy == *self,
    {
        Range(self.0, self.1)
    }
}

/// A named source text, held as a sequence of characters.
#[derive(Debug, Hash)]
pub struct Source {
    name: String,
    chars: Vec<char>,
}

/// The mathematical content of a [`Source`].
pub struct SourceView {
    pub name: Seq<char>,
    pub chars: Seq<char>,
}

impl SourceView {
    /// Whether `span` lies inside the text.
    pub open spec fn holds(self, span: Range) -> bool {
        span.0 <= span.1 && span.1 <= self.chars.len()
    }

    /// The characters that `span` covers; nothing when the span leaves the text.
    pub open spec fn text(self, span: Range) -> Seq<char> {
        if self.holds(span) {
            self.chars.subrange(span.0 as int, span.1 as int)
        } else {
            Seq::empty()
        }
    }
}

impl View for Source {
    type V = SourceView;

    closed spec fn view(&self) -> SourceView {
        SourceView { name: self.name@, chars: self.chars@ }
    }
}

impl Source {
    pub fn new(name: String, chars: Vec<char>) -> (source: Self)
        ensures
            source@ == (SourceView { name: name@, chars: chars@ }),
    {
        Self { name, chars }
    }

    /// The characters of `range`.
    pub fn range(&self, range: &Range) -> (slice: &[char])
        requires
            self@.holds(*range),
        ensures
            slice@ == self@.chars.subrange(range.0 as int, range.1 as int),
    {
        vstd::slice::slice_subrange(self.chars.as_slice(), range.0, range.1)
    }

    /// The character at `index`, which the caller knows to be inside the text.
    pub fn get_unchecked(&self, index: usize) -> (c: &char)
        requires
            index < self@.chars.len(),
        ensures
            *c == self@.chars[index as int],
    {
        &self.chars[index]
    }

    /// The character at `index`, if the text is that long.
    pub fn get(&self, index: usize) -> (c: Option<&char>)
        ensures
            index < self@.chars.len() ==> c == Some(&self@.chars[index as int]),
            index >= self@.chars.len() ==> c.is_none(),
    {
        if index < self.chars.len() {
            Some(&self.chars[index])
        } else {
            None
        }
    }

    pub fn len(&self) -> (len: usize)
        ensures
            len == self@.chars.len(),
    {
        self.chars.len()
    }

    /// The name under which the text was read.
    pub fn name(&self) -> (name: &String)
        ensures
            name@ == self@.name,
    {
        &self.name
    }
}

/// The lexical class of a token. `Str` carries the text between the quotes and
/// `Number` the bit pattern of the IEEE 754 binary64 value that the literal denotes.
#[derive(Debug, PartialEq)]
pub enum TokenKind {
    // Single-character tokens.
    LeftParen,
    RightParen,
    LeftBrace,
    RightBrace,
    Comma,
    Dot,
    Minus,
    Plus,
    Semicolon,
    Slash,
    Star,
    // One or two character tokens.
    Bang,
    BangEqual,
    Equal,
    EqualEqual,
    Greater,
    GreaterEqual,
    Less,
    LessEqual,
    // Literals.
    Identifier,
    Str(String),
    Number(u64),
    // Keywords.
    And,
    Class,
    Else,
    False,
    Fun,
    For,
    If,
    Nil,
    Or,
    Print,
    Return,
    Super,
    This,
    True,
    Var,
    While,
    // End of input.
    Eof,
}

/// The mathematical content of a [`TokenKind`].
pub enum TokenKindView {
    // Single-character tokens.
    LeftParen,
    RightParen,
    LeftBrace,
    RightBrace,
    Comma,
    Dot,
    Minus,
    Plus,
    Semicolon,
    Slash,
    Star,
    // One or two character tokens.
    Bang,
    BangEqual,
    Equal,
    EqualEqual,
    Greater,
    GreaterEqual,
    Less,
    LessEqual,
    // Literals.
    Identifier,
    Str(Seq<char>),
    Number(u64),
    // Keywords.
    And,
    Class,
    Else,
    False,
    Fun,
    For,
    If,
    Nil,
    Or,
    Print,
    Return,
    Super,
    This,
    True,
    Var,
    While,
    // End of input.
    Eof,
}

impl View for TokenKind {
    type V = TokenKindView;

    open spec fn view(&self) -> TokenKindView {
        match self {
            TokenKind::LeftParen => TokenKindView::LeftParen,
            TokenKind::RightParen => TokenKindView::RightParen,
            TokenKind::LeftBrace => TokenKindView::LeftBrace,
            TokenKind::RightBrace => TokenKindView::RightBrace,
            TokenKind::Comma => TokenKindView::Comma,
            TokenKind::Dot => TokenKindView::Dot,
            TokenKind::Minus => TokenKindView::Minus,
            TokenKind::Plus => TokenKindView::Plus,
            TokenKind::Semicolon => TokenKindView::Semicolon,
            TokenKind::Slash => TokenKindView::Slash,
            TokenKind::Star => TokenKindView::Star,
            TokenKind::Bang => TokenKindView::Bang,
            TokenKind::BangEqual => TokenKindView::BangEqual,
            TokenKind::Equal => TokenKindView::Equal,
            TokenKind::EqualEqual => TokenKindView::EqualEqual,
            TokenKind::Greater => TokenKindView::Greater,
            TokenKind::GreaterEqual => TokenKindView::GreaterEqual,
            TokenKind::Less => TokenKindView::Less,
            TokenKind::LessEqual => TokenKindView::LessEqual,
            TokenKind::Identifier => TokenKindView::Identifier,
            TokenKind::Str(text) => TokenKindView::Str(text@),
            TokenKind::Number(bits) => TokenKindView::Number(*bits),
            TokenKind::And => TokenKindView::And,
            TokenKind::Class => TokenKindView::Class,
            TokenKind::Else => TokenKindView::Else,
            TokenKind::False => TokenKindView::False,
            TokenKind::Fun => TokenKindView::Fun,
            TokenKind::For => TokenKindView::For,
            TokenKind::If => TokenKindView::If,
            TokenKind::Nil => TokenKindView::Nil,
            TokenKind::Or => TokenKindView::Or,
            TokenKind::Print => TokenKindView::Print,
            TokenKind::Return => TokenKindView::Return,
            TokenKind::Super => TokenKindView::Super,
            TokenKind::This => TokenKindView::This,
            TokenKind::True => TokenKindView::True,
            TokenKind::Var => TokenKindView::Var,
            TokenKind::While => TokenKindView::While,
            TokenKind::Eof => TokenKindView::Eof,
        }
    }
}

impl Clone for TokenKind {
    fn clone(&self) -> (copy: Self)
        ensures
            copy == *self,
    {
        match self {
            TokenKind::LeftParen => TokenKind::LeftParen,
            TokenKind::RightParen => TokenKind::RightParen,
            TokenKind::LeftBrace => TokenKind::LeftBrace,
            TokenKind::RightBrace => TokenKind::RightBrace,
            TokenKind::Comma => TokenKind::Comma,
            TokenKind::Dot => TokenKind::Dot,
            TokenKind::Minus => TokenKind::Minus,
            TokenKind::Plus => TokenKind::Plus,
            TokenKind::Semicolon => TokenKind::Semicolon,
            TokenKind::Slash => TokenKind::Slash,
            TokenKind::Star => TokenKind::Star,
            TokenKind::Bang => TokenKind::Bang,
            TokenKind::BangEqual => TokenKind::BangEqual,
            TokenKind::Equal => TokenKind::Equal,
            TokenKind::EqualEqual => TokenKind::EqualEqual,
            TokenKind::Greater => TokenKind::Greater,
            TokenKind::GreaterEqual => TokenKind::GreaterEqual,
            TokenKind::Less => TokenKind::Less,
            TokenKind::LessEqual => TokenKind::LessEqual,
            TokenKind::Identifier => TokenKind::Identifier,
            TokenKind::Str(text) => TokenKind::Str(text.clone()),
            TokenKind::Number(bits) => TokenKind::Number(*bits),
            TokenKind::And => TokenKind::And,
            TokenKind::Class => TokenKind::Class,
            TokenKind::Else => TokenKind::Else,
            TokenKind::False => TokenKind::False,
            TokenKind::Fun => TokenKind::Fun,
            TokenKind::For => TokenKind::For,
            TokenKind::If => TokenKind::If,
            TokenKind::Nil => TokenKind::Nil,
            TokenKind::Or => TokenKind::Or,
            TokenKind::Print => TokenKind::Print,
            TokenKind::Return => TokenKind::Return,
            TokenKind::Super => TokenKind::Super,
            TokenKind::This => TokenKind::This,
            TokenKind::True => TokenKind::True,
            TokenKind::Var => TokenKind::Var,
            TokenKind::While => TokenKind::While,
            TokenKind::Eof => TokenKind::Eof,
        }
    }
}

impl TokenKind {
    /// Whether two kinds are the same, payload included.
    pub fn equals(&self, other: &TokenKind) -> (equal: bool)
        ensures
            equal == (self@ == other@),
    {
        match (self, other) {
            (TokenKind::LeftParen, TokenKind::LeftParen) => true,
            (TokenKind::RightParen, TokenKind::RightParen) => true,
            (TokenKind::LeftBrace, TokenKind::LeftBrace) => true,
            (TokenKind::RightBrace, TokenKind::RightBrace) => true,
            (TokenKind::Comma, TokenKind::Comma) => true,
            (TokenKind::Dot, TokenKind::Dot) => true,
            (TokenKind::Minus, TokenKind::Minus) => true,
            (TokenKind::Plus, TokenKind::Plus) => true,
            (TokenKind::Semicolon, TokenKind::Semicolon) => true,
            (TokenKind::Slash, TokenKind::Slash) => true,
            (TokenKind::Star, TokenKind::Star) => true,
            (TokenKind::Bang, TokenKind::Bang) => true,
            (TokenKind::BangEqual, TokenKind::BangEqual) => true,
            (TokenKind::Equal, TokenKind::Equal) => true,
            (TokenKind::EqualEqual, TokenKind::EqualEqual) => true,
            (TokenKind::Greater, TokenKind::Greater) => true,
            (TokenKind::GreaterEqual, TokenKind::GreaterEqual) => true,
            (TokenKind::Less, TokenKind::Less) => true,
            (TokenKind::LessEqual, TokenKind::LessEqual) => true,
            (TokenKind::Identifier, TokenKind::Identifier) => true,
            (TokenKind::Str(a), TokenKind::Str(b)) => *a == *b,
            (TokenKind::Number(a), TokenKind::Number(b)) => *a == *b,
            (TokenKind::And, TokenKind::And) => true,
            (TokenKind::Class, TokenKind::Class) => true,
            (TokenKind::Else, TokenKind::Else) => true,
            (TokenKind::False, TokenKind::False) => true,
            (TokenKind::Fun, TokenKind::Fun) => true,
            (TokenKind::For, TokenKind::For) => true,
            (TokenKind::If, TokenKind::If) => true,
            (TokenKind::Nil, TokenKind::Nil) => true,
            (TokenKind::Or, TokenKind::Or) => true,
            (TokenKind::Print, TokenKind::Print) => true,
            (TokenKind::Return, TokenKind::Return) => true,
            (TokenKind::Super, TokenKind::Super) => true,
            (TokenKind::This, TokenKind::This) => true,
            (TokenKind::True, TokenKind::True) => true,
            (TokenKind::Var, TokenKind::Var) => true,
            (TokenKind::While, TokenKind::While) => true,
            (TokenKind::Eof, TokenKind::Eof) => true,
            _ => false,
        }
    }
}

/// A classified lexical unit: what it is, where it stands and in which text.
#[derive(Debug)]
pub struct Token {
    pub kind: TokenKind,
    pub span: Range,
    pub line: usize,
    pub source: Rc<Source>,
}

/// The mathematical content of a [`Token`].
pub struct TokenView {
    pub kind: TokenKindView,
    pub span: Range,
    pub line: usize,
    pub source: SourceView,
}

impl TokenView {
    /// Whether the span of the token lies inside its source.
    pub open spec fn is_placed(self) -> bool {
        self.source.holds(self.span)
    }

    /// The text of the token in its source.
    pub open spec fn name(self) -> Seq<char> {
        self.source.text(self.span)
    }
}

impl View for Token {
    type V = TokenView;

    open spec fn view(&self) -> TokenView {
        TokenView { kind: self.kind@, span: self.span, line: self.line, source: (*self.source)@ }
    }
}

/// The contents of a token sequence.
pub open spec fn tokens_view(tokens: Seq<Token>) -> Seq<TokenView> {
    Seq::new(tokens.len(), |i: int| tokens[i]@)
}

/// Whether every token of the sequence lies inside its source.
pub open spec fn tokens_placed(tokens: Seq<TokenView>) -> bool {
    forall|i: int| 0 <= i < tokens.len() ==> (#[trigger] tokens[i]).is_placed()
}

/// `Rc::clone` hands out another pointer to the same allocation, so the value
/// behind the new pointer is the value behind the old one.
#[verifier::external_body]
pub(crate) fn share(source: &Rc<Source>) -> (shared: Rc<Source>)
    ensures
        shared == *source,
{
    Rc::clone(source)
}

/// `String::push` appends the character to the end of the string.
#[verifier::external_body]
fn push_char(text: &mut String, c: char)
    ensures
        final(text)@ == old(text)@.push(c),
{
    text.push(c)
}

/// The string made of the characters of a slice.
pub fn collect(chars: &[char]) -> (text: String)
    ensures
        text@ == chars@,
{
    let mut text = String::new();
    let mut i: usize = 0;
    while i < chars.len()
        invariant
            i <= chars@.len(),
            text@ == chars@.take(i as int),
        decreases chars@.len() - i,
    {
        push_char(&mut text, chars[i]);
        i += 1;
        assert(chars@.take(i as int) == chars@.take(i - 1).push(chars@[i - 1]));
    }
    assert(chars@.take(i as int) == chars@);
    text
}

impl Clone for Token {
    fn clone(&self) -> (copy: Self)
        ensures
            copy == *self,
    {
        Token {
            kind: self.kind.clone(),
            span: self.span.clone(),
            line: self.line,
            source: share(&self.source),
        }
    }
}

/// Two tokens are equal when they are of the same kind, stand at the same
/// place, on the same line, in sources of the same name.
impl PartialEq for Token {
    fn eq(&self, other: &Token) -> (equal: bool) {
        self.kind.equals(&other.kind) && self.span.0 == other.span.0 && self.span.1
            == other.span.1 && self.line == other.line && *self.source.name()
            == *other.source.name()
    }
}

impl vstd::std_specs::cmp::PartialEqSpecImpl for Token {
    open spec fn obeys_eq_spec() -> bool {
        true
    }

    open spec fn eq_spec(&self, other: &Token) -> bool {
        &&& self@.kind == other@.kind
        &&& self.span == other.span
        &&& self.line == other.line
        &&& self@.source.name == other@.source.name
    }
}

impl Token {
    /// Whether the span of the token lies inside its source.
    pub fn is_placed(&self) -> (placed: bool)
        ensures
            placed == self@.is_placed(),
    {
        self.span.0 <= self.span.1 && self.span.1 <= self.source.len()
    }

    /// The text of the token in its source.
    pub fn name(&self) -> (name: String)
        requires
            self@.is_placed(),
        ensures
            name@ == self@.name(),
    {
        collect(self.source.range(&self.span))
    }

    /// The text of the token, or nothing when its span leaves the source.
    pub fn lexeme(&self) -> (name: Option<String>)
        ensures
            self@.is_placed() ==> name.is_some() && name.unwrap()@ == self@.name(),
            !self@.is_placed() ==> name.is_none(),
    {
        if self.is_placed() {
            Some(self.name())
        } else {
            None
        }
    }
}

/// The runtime kind of a value.
#[derive(Clone, Copy, Debug, PartialEq, Eq, Structural)]
pub enum ValueKind {
    Bool,
    Nil,
    Number,
    Str,
}

impl ValueKind {
    /// The name of the kind.
    pub open spec fn label(self) -> Seq<char> {
        match self {
            ValueKind::Bool => "bool"@,
            ValueKind::Nil => "nil"@,
            ValueKind::Number => "number"@,
            ValueKind::Str => "string"@,
        }
    }

    /// The name of the kind.
    pub fn name(self) -> (name: &'static str)
        ensures
            name@ == self.label(),
    {
        match self {
            ValueKind::Bool => "bool",
            ValueKind::Nil => "nil",
            ValueKind::Number => "number",
            ValueKind::Str => "string",
        }
    }
}

/// A runtime value. `Number` holds the bit pattern of an IEEE 754 binary64 value.
#[derive(Debug, PartialEq)]
pub enum Literal {
    Bool(bool),
    Nil,
    Number(u64),
    Str(String),
}

/// The mathematical content of a [`Literal`].
pub enum LiteralView {
    Bool(bool),
    Nil,
    Number(u64),
    Str(Seq<char>),
}

impl LiteralView {
    /// `false` and `nil` count as false in a condition; every other value,
    /// zero and the empty string among them, counts as true.
    pub open spec fn is_truthy(self) -> bool {
        !(self == LiteralView::Bool(false) || self == LiteralView::Nil)
    }

    /// The runtime kind of the value.
    pub open spec fn kind(self) -> ValueKind {
        match self {
            LiteralView::Bool(_) => ValueKind::Bool,
            LiteralView::Nil => ValueKind::Nil,
            LiteralView::Number(_) => ValueKind::Number,
            LiteralView::Str(_) => ValueKind::Str,
        }
    }

    /// The name of the runtime kind of the value.
    pub open spec fn kind_name(self) -> Seq<char> {
        self.kind().label()
    }
}

impl View for Literal {
    type V = LiteralView;

    open spec fn view(&self) -> LiteralView {
        match self {
            Literal::Bool(b) => LiteralView::Bool(*b),
            Literal::Nil => LiteralView::Nil,
            Literal::Number(bits) => LiteralView::Number(*bits),
            Literal::Str(text) => LiteralView::Str(text@),
        }
    }
}

impl Clone for Literal {
    fn clone(&self) -> (copy: Self)
        ensures
            copy == *self,
    {
        match self {
            Literal::Bool(b) => Literal::Bool(*b),
            Literal::Nil => Literal::Nil,
            Literal::Number(bits) => Literal::Number(*bits),
            Literal::Str(text) => Literal::Str(text.clone()),
        }
    }
}

impl Literal {
    /// Whether the value counts as true in a condition.
    pub fn is_truthy(&self) -> (truthy: bool)
        ensures
            truthy == self@.is_truthy(),
            truthy == !(self@ == LiteralView::Bool(false) || self@ == LiteralView::Nil),
    {
        match self {
            Literal::Bool(val) => *val,
            Literal::Nil => false,
            _ => true,
        }
    }

    /// The runtime kind of the value.
    pub fn kind(&self) -> (kind: ValueKind)
        ensures
            kind == self@.kind(),
    {
        match self {
            Literal::Bool(_) => ValueKind::Bool,
            Literal::Nil => ValueKind::Nil,
            Literal::Number(_) => ValueKind::Number,
            Literal::Str(_) => ValueKind::Str,
        }
    }

    /// The name of the runtime kind of the value: `bool`, `nil`, `number` or `string`.
    pub fn kind_name(&self) -> (name: &str)
        ensures
            name@ == self@.kind_name(),
    {
        self.kind().name()
    }
}

} // verus!
