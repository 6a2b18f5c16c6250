//! The lexer: from characters to tokens.

use crate::token::{
    collect, share, tokens_placed, tokens_view, Range, Source, SourceView, Token, TokenKind,
    TokenKindView, TokenView,
};
use std::rc::Rc;
use vstd::prelude::*;
use vstd::string::StringExecFns;

verus! {

/// Whether `char::is_numeric` holds of the character: it belongs to one of the
/// Unicode categories of numbers.
pub uninterp spec fn is_numeric(c: char) -> bool;

/// Whether `char::is_alphabetic` holds of the character: it has the Unicode
/// property `Alphabetic`.
pub uninterp spec fn is_alphabetic(c: char) -> bool;

/// `char::is_numeric`, a table lookup that depends on the character alone.
#[verifier::external_body]
fn char_is_numeric(c: char) -> (numeric: bool)
    ensures
        numeric == is_numeric(c),
{
    c.is_numeric()
}

/// `char::is_alphabetic`, a table lookup that depends on the character alone.
#[verifier::external_body]
fn char_is_alphabetic(c: char) -> (alphabetic: bool)
    ensures
        alphabetic == is_alphabetic(c),
{
    c.is_alphabetic()
}

/// What the first character of a lexeme says about the lexeme.
#[derive(Debug, PartialEq)]
pub enum Lead {
    /// The character is a token by itself.
    Single(TokenKind),
    /// The character is a token by itself, and another one with a `=` behind it.
    Pair(TokenKind, TokenKind),
    /// A division sign, or with a second `/` the start of a comment.
    Slash,
    /// A blank, a tab or a carriage return.
    Blank,
    Newline,
    /// The opening quote of a string.
    Quote,
    /// The first character of a number.
    Digit,
    /// The first character of a name or keyword.
    Letter,
    /// No lexeme starts with the character.
    Unknown,
}

/// The mathematical content of a [`Lead`].
pub enum LeadView {
    Single(TokenKindView),
    Pair(TokenKindView, TokenKindView),
    Slash,
    Blank,
    Newline,
    Quote,
    Digit,
    Letter,
    Unknown,
}

impl View for Lead {
    type V = LeadView;

    open spec fn view(&self) -> LeadView {
        match self {
            Lead::Single(kind) => LeadView::Single(kind@),
            Lead::Pair(alone, followed) => LeadView::Pair(alone@, followed@),
            Lead::Slash => LeadView::Slash,
            Lead::Blank => LeadView::Blank,
            Lead::Newline => LeadView::Newline,
            Lead::Quote => LeadView::Quote,
            Lead::Digit => LeadView::Digit,
            Lead::Letter => LeadView::Letter,
            Lead::Unknown => LeadView::Unknown,
        }
    }
}

/// What a lexeme is that starts with `c`, where `numeric` and `alphabetic` say
/// whether the character counts as a digit and as a letter. Punctuation comes
/// first; a character that is both digit and letter starts a number.
pub open spec fn lead_of(c: char, numeric: bool, alphabetic: bool) -> LeadView {
    if c == '(' {
        LeadView::Single(TokenKindView::LeftParen)
    } else if c == ')' {
        LeadView::Single(TokenKindView::RightParen)
    } else if c == '{' {
        LeadView::Single(TokenKindView::LeftBrace)
    } else if c == '}' {
        LeadView::Single(TokenKindView::RightBrace)
    } else if c == ',' {
        LeadView::Single(TokenKindView::Comma)
    } else if c == '.' {
        LeadView::Single(TokenKindView::Dot)
    } else if c == '-' {
        LeadView::Single(TokenKindView::Minus)
    } else if c == '+' {
        LeadView::Single(TokenKindView::Plus)
    } else if c == ';' {
        LeadView::Single(TokenKindView::Semicolon)
    } else if c == '*' {
        LeadView::Single(TokenKindView::Star)
    } else if c == '!' {
        LeadView::Pair(TokenKindView::Bang, TokenKindView::BangEqual)
    } else if c == '=' {
        LeadView::Pair(TokenKindView::Equal, TokenKindView::EqualEqual)
    } else if c == '>' {
        LeadView::Pair(TokenKindView::Greater, TokenKindView::GreaterEqual)
    } else if c == '<' {
        LeadView::Pair(TokenKindView::Less, TokenKindView::LessEqual)
    } else if c == '/' {
        LeadView::Slash
    } else if c == ' ' || c == '\t' || c == '\r' {
        LeadView::Blank
    } else if c == '\n' {
        LeadView::Newline
    } else if c == '"' {
        LeadView::Quote
    } else if numeric {
        LeadView::Digit
    } else if alphabetic {
        LeadView::Letter
    } else {
        LeadView::Unknown
    }
}

/// What a lexeme is that starts with `c`, given how the character is classified.
pub fn lead(c: char, numeric: bool, alphabetic: bool) -> (lead: Lead)
    ensures
        lead@ == lead_of(c, numeric, alphabetic),
{
    match c {
        '(' => Lead::Single(TokenKind::LeftParen),
        ')' => Lead::Single(TokenKind::RightParen),
        '{' => Lead::Single(TokenKind::LeftBrace),
        '}' => Lead::Single(TokenKind::RightBrace),
        ',' => Lead::Single(TokenKind::Comma),
        '.' => Lead::Single(TokenKind::Dot),
        '-' => Lead::Single(TokenKind::Minus),
        '+' => Lead::Single(TokenKind::Plus),
        ';' => Lead::Single(TokenKind::Semicolon),
        '*' => Lead::Single(TokenKind::Star),
        '!' => Lead::Pair(TokenKind::Bang, TokenKind::BangEqual),
        '=' => Lead::Pair(TokenKind::Equal, TokenKind::EqualEqual),
        '>' => Lead::Pair(TokenKind::Greater, TokenKind::GreaterEqual),
        '<' => Lead::Pair(TokenKind::Less, TokenKind::LessEqual),
        '/' => Lead::Slash,
        ' ' | '\t' | '\r' => Lead::Blank,
        '\n' => Lead::Newline,
        '"' => Lead::Quote,
        _ => {
            if numeric {
                Lead::Digit
            } else if alphabetic {
                Lead::Letter
            } else {
                Lead::Unknown
            }
        },
    }
}

/// The kind of the word: one of the sixteen keywords, or an identifier.
pub open spec fn keyword(text: Seq<char>) -> TokenKindView {
    if text == "true"@ {
        TokenKindView::True
    } else if text == "false"@ {
        TokenKindView::False
    } else if text == "nil"@ {
        TokenKindView::Nil
    } else if text == "and"@ {
        TokenKindView::And
    } else if text == "class"@ {
        TokenKindView::Class
    } else if text == "else"@ {
        TokenKindView::Else
    } else if text == "for"@ {
        TokenKindView::For
    } else if text == "fun"@ {
        TokenKindView::Fun
    } else if text == "if"@ {
        TokenKindView::If
    } else if text == "or"@ {
        TokenKindView::Or
    } else if text == "print"@ {
        TokenKindView::Print
    } else if text == "return"@ {
        TokenKindView::Return
    } else if text == "super"@ {
        TokenKindView::Super
    } else if text == "this"@ {
        TokenKindView::This
    } else if text == "var"@ {
        TokenKindView::Var
    } else if text == "while"@ {
        TokenKindView::While
    } else {
        TokenKindView::Identifier
    }
}

/// Whether the text is the word.
fn is_word(text: &String, word: &str) -> (same: bool)
    ensures
        same == (text@ == word@),
{
    let other = String::from_str(word);
    *text == other
}

/// The kind of token that a word is: a keyword, or else an identifier.
pub fn token_kind_for_text(text: &String) -> (kind: TokenKind)
    ensures
        kind@ == keyword(text@),
{
    if is_word(text, "true") {
        TokenKind::True
    } else if is_word(text, "false") {
        TokenKind::False
    } else if is_word(text, "nil") {
        TokenKind::Nil
    } else if is_word(text, "and") {
        TokenKind::And
    } else if is_word(text, "class") {
        TokenKind::Class
    } else if is_word(text, "else") {
        TokenKind::Else
    } else if is_word(text, "for") {
        TokenKind::For
    } else if is_word(text, "fun") {
        TokenKind::Fun
    } else if is_word(text, "if") {
        TokenKind::If
    } else if is_word(text, "or") {
        TokenKind::Or
    } else if is_word(text, "print") {
        TokenKind::Print
    } else if is_word(text, "return") {
        TokenKind::Return
    } else if is_word(text, "super") {
        TokenKind::Super
    } else if is_word(text, "this") {
        TokenKind::This
    } else if is_word(text, "var") {
        TokenKind::Var
    } else if is_word(text, "while") {
        TokenKind::While
    } else {
        TokenKind::Identifier
    }
}

/// A set of characters that a run of the input is made of.
#[derive(Clone, Copy, Debug, PartialEq, Eq, Structural)]
pub enum CharClass {
    /// The digits.
    Numeric,
    /// The letters and the digits.
    Alphanumeric,
    /// Every character but the one given.
    Except(char),
}

impl CharClass {
    pub open spec fn holds(self, c: char) -> bool {
        match self {
            CharClass::Numeric => is_numeric(c),
            CharClass::Alphanumeric => is_alphabetic(c) || is_numeric(c),
            CharClass::Except(stop) => c != stop,
        }
    }

    fn accepts(self, c: char) -> (accepted: bool)
        ensures
            accepted == self.holds(c),
    {
        match self {
            CharClass::Numeric => char_is_numeric(c),
            CharClass::Alphanumeric => char_is_alphabetic(c) || char_is_numeric(c),
            CharClass::Except(stop) => c != stop,
        }
    }
}

/// The length of the longest run of characters of the class that starts at `pos`.
pub open spec fn run_length(chars: Seq<char>, pos: nat, class: CharClass) -> nat
    decreases chars.len() - pos,
{
    if pos < chars.len() && class.holds(chars[pos as int]) {
        1 + run_length(chars, pos + 1, class)
    } else {
        0
    }
}

/// A run ends at the first character that is not of the class, or at the end
/// of the text: every character of the run is of the class, and the one behind
/// it, if there is one, is not.
pub proof fn lemma_run_length(chars: Seq<char>, pos: nat, class: CharClass)
    requires
        pos <= chars.len(),
    ensures
        pos + run_length(chars, pos, class) <= chars.len(),
        forall|i: int|
            pos <= i < pos + run_length(chars, pos, class) ==> class.holds(#[trigger] chars[i]),
        pos + run_length(chars, pos, class) < chars.len() ==> !class.holds(
            chars[pos + run_length(chars, pos, class) as int],
        ),
    decreases chars.len() - pos,
{
    if pos < chars.len() && class.holds(chars[pos as int]) {
        lemma_run_length(chars, pos + 1, class);
    }
}

/// What the lexer reports when it stops.
#[derive(Debug, PartialEq)]
pub enum Scan {
    /// A number was read. The host converts the lexeme: a `fractional` one, of
    /// the form digits `.` digits, as a decimal fraction, any other as a whole
    /// number, and hands the value to [`Lexer::number`].
    Number { lexeme: String, fractional: bool },
    /// A character that starts no lexeme was skipped.
    Unexpected { character: char, line: usize },
    /// The text has been read to its end.
    Finished,
}

/// The mathematical content of a [`Scan`].
pub enum ScanView {
    Number { lexeme: Seq<char>, fractional: bool },
    Unexpected { character: char, line: usize },
    Finished,
}

impl View for Scan {
    type V = ScanView;

    open spec fn view(&self) -> ScanView {
        match self {
            Scan::Number { lexeme, fractional } => ScanView::Number {
                lexeme: lexeme@,
                fractional: *fractional,
            },
            Scan::Unexpected { character, line } => ScanView::Unexpected {
                character: *character,
                line: *line,
            },
            Scan::Finished => ScanView::Finished,
        }
    }
}

/// The state of a lexer: the text, the tokens read so far, the bounds of the
/// lexeme at hand, the line of the cursor, the number that waits for its value,
/// if one does, with whether it is fractional, and whether the end of the text
/// has been reported.
pub struct LexerView {
    pub source: SourceView,
    pub tokens: Seq<TokenView>,
    pub start: nat,
    pub current: nat,
    pub line: usize,
    pub pending: Option<bool>,
    pub finished: bool,
}

impl LexerView {
    /// The lexer in front of the first character.
    pub open spec fn begin(source: SourceView) -> Self {
        LexerView {
            source,
            tokens: Seq::empty(),
            start: 0,
            current: 0,
            line: 1,
            pending: None,
            finished: false,
        }
    }

    /// The character `ahead` places behind the cursor.
    pub open spec fn peek(self, ahead: nat) -> Option<char> {
        if self.current + ahead < self.source.chars.len() {
            Some(self.source.chars[self.current + ahead as int])
        } else {
            None
        }
    }

    /// The text of the lexeme at hand.
    pub open spec fn lexeme(self) -> Seq<char> {
        self.source.text(Range(self.start as usize, self.current as usize))
    }

    /// The token of this kind for the lexeme at hand.
    pub open spec fn token(self, kind: TokenKindView) -> TokenView {
        TokenView {
            kind,
            span: Range(self.start as usize, self.current as usize),
            line: self.line,
            source: self.source,
        }
    }

    pub open spec fn with_token(self, kind: TokenKindView) -> Self {
        LexerView { tokens: self.tokens.push(self.token(kind)), ..self }
    }

    /// The cursor goes `count` characters forward.
    pub open spec fn forward(self, count: nat) -> Self {
        LexerView { current: self.current + count, ..self }
    }

    /// The cursor goes over the run of characters of the class in front of it.
    pub open spec fn over(self, class: CharClass) -> Self {
        self.forward(run_length(self.source.chars, self.current, class))
    }

    /// Whether a fraction follows the digits: a `.` with a digit behind it.
    pub open spec fn fraction_follows(self) -> bool {
        self.peek(0) == Some('.') && match self.peek(1) {
            Some(c) => is_numeric(c),
            None => false,
        }
    }

    /// Reads the lexeme at the cursor, which stands in front of a character.
    /// Blanks, comments and a string without its closing quote leave no token.
    pub open spec fn scan_token(self) -> (Self, Option<ScanView>) {
        let c = self.source.chars[self.current as int];
        let first = LexerView { start: self.current, ..self }.forward(1);
        match lead_of(c, is_numeric(c), is_alphabetic(c)) {
            LeadView::Single(kind) => (first.with_token(kind), None),
            LeadView::Pair(alone, followed) => if first.peek(0) == Some('=') {
                (first.forward(1).with_token(followed), None)
            } else {
                (first.with_token(alone), None)
            },
            LeadView::Slash => if first.peek(0) == Some('/') {
                (first.forward(1).over(CharClass::Except('\n')), None)
            } else {
                (first.with_token(TokenKindView::Slash), None)
            },
            LeadView::Blank => (first, None),
            LeadView::Newline => (
                LexerView {
                    line: if first.line < usize::MAX {
                        (first.line + 1) as usize
                    } else {
                        first.line
                    },
                    ..first
                },
                None,
            ),
            LeadView::Quote => {
                let body = first.over(CharClass::Except('"'));
                if body.current >= body.source.chars.len() {
                    (body, None)
                } else {
                    (
                        body.forward(1).with_token(
                            TokenKindView::Str(
                                body.source.chars.subrange(
                                    body.start as int + 1,
                                    body.current as int,
                                ),
                            ),
                        ),
                        None,
                    )
                }
            },
            LeadView::Digit => {
                let whole = first.over(CharClass::Numeric);
                let fractional = whole.fraction_follows();
                let number = if fractional {
                    whole.forward(1).over(CharClass::Numeric)
                } else {
                    whole
                };
                (
                    LexerView { pending: Some(fractional), ..number },
                    Some(ScanView::Number { lexeme: number.lexeme(), fractional }),
                )
            },
            LeadView::Letter => {
                let word = first.over(CharClass::Alphanumeric);
                (word.with_token(keyword(word.lexeme())), None)
            },
            LeadView::Unknown => (
                first,
                Some(ScanView::Unexpected { character: c, line: first.line }),
            ),
        }
    }

    /// The number of characters from the cursor on.
    pub open spec fn unread(self) -> nat {
        if self.current < self.source.chars.len() {
            (self.source.chars.len() - self.current) as nat
        } else {
            0
        }
    }

    /// Reads on until there is something to report. While a number waits for
    /// its value the report is repeated and nothing is read. At the end of the
    /// text the end-of-input token is added, once.
    pub open spec fn scan(self) -> (Self, ScanView)
        decreases self.unread(),
    {
        match self.pending {
            Some(fractional) => (self, ScanView::Number { lexeme: self.lexeme(), fractional }),
            None => if self.finished {
                (self, ScanView::Finished)
            } else if self.current >= self.source.chars.len() {
                (
                    LexerView { start: self.current, finished: true, ..self }.with_token(
                        TokenKindView::Eof,
                    ),
                    ScanView::Finished,
                )
            } else {
                let (next, found) = self.scan_token();
                match found {
                    Some(report) => (next, report),
                    None => next.scan(),
                }
            },
        }
    }

    /// The value of the number that was reported becomes its token. Without a
    /// number waiting nothing changes.
    pub open spec fn number(self, value: u64) -> Self {
        if self.pending.is_some() {
            LexerView { pending: None, ..self }.with_token(TokenKindView::Number(value))
        } else {
            self
        }
    }
}

/// The text of a punctuation mark or operator.
pub open spec fn symbol(kind: TokenKindView) -> Option<Seq<char>> {
    match kind {
        TokenKindView::LeftParen => Some(seq!['(']),
        TokenKindView::RightParen => Some(seq![')']),
        TokenKindView::LeftBrace => Some(seq!['{']),
        TokenKindView::RightBrace => Some(seq!['}']),
        TokenKindView::Comma => Some(seq![',']),
        TokenKindView::Dot => Some(seq!['.']),
        TokenKindView::Minus => Some(seq!['-']),
        TokenKindView::Plus => Some(seq!['+']),
        TokenKindView::Semicolon => Some(seq![';']),
        TokenKindView::Slash => Some(seq!['/']),
        TokenKindView::Star => Some(seq!['*']),
        TokenKindView::Bang => Some(seq!['!']),
        TokenKindView::BangEqual => Some(seq!['!', '=']),
        TokenKindView::Equal => Some(seq!['=']),
        TokenKindView::EqualEqual => Some(seq!['=', '=']),
        TokenKindView::Greater => Some(seq!['>']),
        TokenKindView::GreaterEqual => Some(seq!['>', '=']),
        TokenKindView::Less => Some(seq!['<']),
        TokenKindView::LessEqual => Some(seq!['<', '=']),
        _ => None,
    }
}

/// Whether a token is of the kind that its text calls for: a mark is its
/// symbol; a string stands between its quotes and holds what is between them;
/// a number begins with a digit and is made of digits and `.`; a word begins
/// with a letter, is made of letters and digits, and is the keyword that it
/// spells or else an identifier; the end of the input has no text.
pub open spec fn fits(token: TokenView) -> bool {
    let text = token.name();
    match token.kind {
        TokenKindView::Eof => text.len() == 0,
        TokenKindView::Str(content) => {
            &&& text.len() >= 2
            &&& text[0] == '"'
            &&& text.last() == '"'
            &&& content == text.subrange(1, text.len() - 1)
            &&& forall|i: int| 0 <= i < content.len() ==> content[i] != '"'
        },
        TokenKindView::Number(_) => {
            &&& text.len() >= 1
            &&& is_numeric(text[0])
            &&& forall|i: int| 0 <= i < text.len() ==> is_numeric(#[trigger] text[i]) || text[i] == '.'
        },
        kind => match symbol(kind) {
            Some(mark) => text == mark,
            None => {
                &&& text.len() >= 1
                &&& is_alphabetic(text[0])
                &&& forall|i: int|
                    0 <= i < text.len() ==> is_alphabetic(#[trigger] text[i]) || is_numeric(text[i])
                &&& kind == keyword(text)
            },
        },
    }
}

/// Whether the tokens stand in the order of the text: each one ends before the
/// next one begins, on the same line or an earlier one.
pub open spec fn in_order(tokens: Seq<TokenView>) -> bool {
    forall|i: int, j: int|
        0 <= i < j < tokens.len() ==> (#[trigger] tokens[i]).span.1 <= (#[trigger] tokens[j]).span.0
            && tokens[i].line <= tokens[j].line
}

impl LexerView {
    /// What holds of every lexer from its start on: the lexeme at hand lies
    /// inside the text, every token lies inside the text and is of the kind
    /// that its text calls for, the end-of-input token is there exactly when
    /// the end has been reported, as the last token, and the tokens stand in
    /// the order of the text, in front of the cursor.
    pub open spec fn well_formed(self) -> bool {
        &&& self.start <= self.current <= self.source.chars.len() <= usize::MAX
        &&& forall|i: int|
            0 <= i < self.tokens.len() ==> (#[trigger] self.tokens[i]).is_placed()
        &&& forall|i: int|
            0 <= i < self.tokens.len() ==> ((#[trigger] self.tokens[i]).kind == TokenKindView::Eof
                <==> self.finished && i == self.tokens.len() - 1)
        &&& self.finished ==> self.tokens.len() > 0 && self.pending.is_none()
        &&& in_order(self.tokens)
        &&& forall|i: int| 0 <= i < self.tokens.len() ==> fits(#[trigger] self.tokens[i])
        &&& self.pending matches Some(fractional) ==> fits(
            self.token(TokenKindView::Number(0)),
        )
        &&& forall|i: int|
            0 <= i < self.tokens.len() ==> (#[trigger] self.tokens[i]).line <= self.line
                && self.tokens[i].span.1 <= if self.pending.is_some() {
                self.start
            } else {
                self.current
            }
    }

    /// The conditions under which one more token for the lexeme at hand keeps
    /// the lexer well formed.
    proof fn lemma_with_token(self, kind: TokenKindView)
        requires
            self.well_formed(),
            !self.finished,
            kind != TokenKindView::Eof,
            forall|i: int|
                0 <= i < self.tokens.len() ==> (#[trigger] self.tokens[i]).span.1 <= self.start,
            self.pending.is_none(),
            fits(self.token(kind)),
        ensures
            self.with_token(kind).well_formed(),
    {
    }

    /// Going forward inside the text keeps the lexer well formed.
    proof fn lemma_forward(self, count: nat)
        requires
            self.well_formed(),
            self.current + count <= self.source.chars.len(),
            self.pending.is_none(),
        ensures
            self.forward(count).well_formed(),
    {
    }

    /// Going over a run keeps the lexer well formed.
    proof fn lemma_over(self, class: CharClass)
        requires
            self.well_formed(),
            self.pending.is_none(),
        ensures
            self.over(class).well_formed(),
            self.over(class).current < self.source.chars.len() ==> !class.holds(
                self.source.chars[self.over(class).current as int],
            ),
    {
        lemma_run_length(self.source.chars, self.current, class);
    }

    /// The text of the lexeme at hand, character by character.
    proof fn lemma_lexeme(self)
        requires
            self.start <= self.current <= self.source.chars.len() <= usize::MAX,
        ensures
            self.lexeme().len() == self.current - self.start,
            forall|i: int|
                0 <= i < self.current - self.start ==> #[trigger] self.lexeme()[i]
                    == self.source.chars[self.start + i],
            forall|kind: TokenKindView| (#[trigger] self.token(kind)).name() == self.lexeme(),
    {
    }

    /// A mark of one character, or of two where a `=` follows.
    #[verifier::rlimit(40)]
    proof fn lemma_scan_mark(self)
        requires
            self.well_formed(),
            !self.finished,
            self.pending.is_none(),
            self.current < self.source.chars.len(),
            ({
                let c = self.source.chars[self.current as int];
                let lead = lead_of(c, is_numeric(c), is_alphabetic(c));
                lead is Single || lead is Pair || (lead == LeadView::Slash && LexerView {
                    start: self.current,
                    ..self
                }.forward(1).peek(0) != Some('/'))
            }),
        ensures
            self.scan_token().0.well_formed(),
    {
        let c = self.source.chars[self.current as int];
        let first = LexerView { start: self.current, ..self }.forward(1);
        first.lemma_lexeme();
        assert(first.lexeme() =~= seq![c]);
        match lead_of(c, is_numeric(c), is_alphabetic(c)) {
            LeadView::Single(kind) => {
                first.lemma_with_token(kind);
            },
            LeadView::Pair(alone, followed) => {
                if first.peek(0) == Some('=') {
                    let second = first.forward(1);
                    second.lemma_lexeme();
                    assert(second.lexeme() =~= seq![c, '=']);
                    second.lemma_with_token(followed);
                } else {
                    first.lemma_with_token(alone);
                }
            },
            _ => {
                first.lemma_with_token(TokenKindView::Slash);
            },
        }
    }

    /// A string up to its closing quote.
    #[verifier::rlimit(40)]
    proof fn lemma_scan_string(self)
        requires
            self.well_formed(),
            !self.finished,
            self.pending.is_none(),
            self.current < self.source.chars.len(),
            self.source.chars[self.current as int] == '"',
        ensures
            self.scan_token().0.well_formed(),
    {
        let chars = self.source.chars;
        let first = LexerView { start: self.current, ..self }.forward(1);
        first.lemma_over(CharClass::Except('"'));
        lemma_run_length(chars, first.current, CharClass::Except('"'));
        let body = first.over(CharClass::Except('"'));
        if body.current < chars.len() {
            let closed = body.forward(1);
            closed.lemma_lexeme();
            let content = chars.subrange(body.start as int + 1, body.current as int);
            let text = closed.lexeme();
            assert(content =~= text.subrange(1, text.len() - 1));
            assert forall|i: int| 0 <= i < content.len() implies content[i] != '"' by {
                assert(CharClass::Except('"').holds(chars[first.current + i]));
            }
            closed.lemma_with_token(TokenKindView::Str(content));
        }
    }

    /// A number: digits, and behind a `.` more digits.
    #[verifier::rlimit(40)]
    proof fn lemma_scan_number(self)
        requires
            self.well_formed(),
            !self.finished,
            self.pending.is_none(),
            self.current < self.source.chars.len(),
            is_numeric(self.source.chars[self.current as int]),
            lead_of(
                self.source.chars[self.current as int],
                true,
                is_alphabetic(self.source.chars[self.current as int]),
            ) == LeadView::Digit,
        ensures
            self.scan_token().0.well_formed(),
    {
        let chars = self.source.chars;
        let first = LexerView { start: self.current, ..self }.forward(1);
        first.lemma_over(CharClass::Numeric);
        lemma_run_length(chars, first.current, CharClass::Numeric);
        let whole = first.over(CharClass::Numeric);
        let number = if whole.fraction_follows() {
            whole.lemma_forward(1);
            whole.forward(1).lemma_over(CharClass::Numeric);
            lemma_run_length(chars, whole.current + 1, CharClass::Numeric);
            whole.forward(1).over(CharClass::Numeric)
        } else {
            whole
        };
        number.lemma_lexeme();
        let text = number.lexeme();
        assert forall|i: int| 0 <= i < text.len() implies is_numeric(#[trigger] text[i]) || text[i]
            == '.' by {
            let at = number.start + i;
            if at == self.current {
            } else if at < whole.current {
                assert(CharClass::Numeric.holds(chars[at]));
            } else if at == whole.current {
            } else {
                assert(CharClass::Numeric.holds(chars[at]));
            }
        }
    }

    /// A word: a letter, and letters and digits behind it.
    #[verifier::rlimit(40)]
    proof fn lemma_scan_word(self)
        requires
            self.well_formed(),
            !self.finished,
            self.pending.is_none(),
            self.current < self.source.chars.len(),
            is_alphabetic(self.source.chars[self.current as int]),
            lead_of(
                self.source.chars[self.current as int],
                is_numeric(self.source.chars[self.current as int]),
                true,
            ) == LeadView::Letter,
        ensures
            self.scan_token().0.well_formed(),
    {
        let chars = self.source.chars;
        let first = LexerView { start: self.current, ..self }.forward(1);
        first.lemma_over(CharClass::Alphanumeric);
        lemma_run_length(chars, first.current, CharClass::Alphanumeric);
        let word = first.over(CharClass::Alphanumeric);
        word.lemma_lexeme();
        let text = word.lexeme();
        assert forall|i: int| 0 <= i < text.len() implies is_alphabetic(#[trigger] text[i])
            || is_numeric(text[i]) by {
            let at = word.start + i;
            if at > self.current {
                assert(CharClass::Alphanumeric.holds(chars[at]));
            }
        }
        word.lemma_with_token(keyword(text));
    }

    /// Reading a lexeme keeps the lexer well formed and moves the cursor.
    pub proof fn lemma_scan_token(self)
        requires
            self.well_formed(),
            !self.finished,
            self.pending.is_none(),
            self.current < self.source.chars.len(),
        ensures
            self.scan_token().0.well_formed(),
            !self.scan_token().0.finished,
            self.scan_token().0.current > self.current,
            self.scan_token().0.source == self.source,
    {
        let c = self.source.chars[self.current as int];
        let first = LexerView { start: self.current, ..self }.forward(1);
        match lead_of(c, is_numeric(c), is_alphabetic(c)) {
            LeadView::Single(_) | LeadView::Pair(_, _) => {
                self.lemma_scan_mark();
            },
            LeadView::Slash => {
                if first.peek(0) == Some('/') {
                    first.lemma_forward(1);
                    first.forward(1).lemma_over(CharClass::Except('\n'));
                } else {
                    self.lemma_scan_mark();
                }
            },
            LeadView::Blank => {},
            LeadView::Newline => {},
            LeadView::Quote => {
                self.lemma_scan_string();
            },
            LeadView::Digit => {
                self.lemma_scan_number();
            },
            LeadView::Letter => {
                self.lemma_scan_word();
            },
            LeadView::Unknown => {},
        }
    }

    /// Whatever the lexer reads, it stays well formed. So every token that it
    /// hands out lies inside the text, and once it reports the end, the tokens
    /// end with the one end-of-input token.
    pub proof fn lemma_scan(self)
        requires
            self.well_formed(),
        ensures
            self.scan().0.well_formed(),
            self.scan().0.source == self.source,
            self.scan().1 == ScanView::Finished ==> self.scan().0.finished,
            self.scan().1 is Number <==> self.scan().0.pending.is_some(),
        decreases self.unread(),
    {
        if self.pending.is_none() && !self.finished && self.current < self.source.chars.len() {
            self.lemma_scan_token();
            let (next, found) = self.scan_token();
            if found.is_none() {
                next.lemma_scan();
            }
        }
    }

    /// Taking in the value of a number keeps the lexer well formed.
    pub proof fn lemma_number(self, value: u64)
        requires
            self.well_formed(),
        ensures
            self.number(value).well_formed(),
            self.number(value).pending.is_none(),
    {
        if self.pending.is_some() {
            let ready = LexerView { pending: None, ..self };
            assert(ready.well_formed());
            ready.lemma_with_token(TokenKindView::Number(value));
        }
    }

    /// A lexer in front of a text is well formed.
    pub proof fn lemma_begin(source: SourceView)
        requires
            source.chars.len() <= usize::MAX,
        ensures
            LexerView::begin(source).well_formed(),
    {
    }
}

/// Reads a text into tokens, lexeme by lexeme. What the lexer cannot do itself,
/// turning the lexeme of a number into a binary64 value, it asks of its host:
/// the host calls [`Lexer::scan`], hands the value of each number that is
/// reported to [`Lexer::number_value`], and scans on until the end is reported.
pub struct Lexer {
    tokens: Vec<Token>,
    start: usize,
    current: usize,
    line: usize,
    source: Rc<Source>,
    pending: Option<bool>,
    finished: bool,
}

impl View for Lexer {
    type V = LexerView;

    closed spec fn view(&self) -> LexerView {
        LexerView {
            source: (*self.source)@,
            tokens: tokens_view(self.tokens@),
            start: self.start as nat,
            current: self.current as nat,
            line: self.line,
            pending: self.pending,
            finished: self.finished,
        }
    }
}

impl Lexer {
    pub fn new(name: String, chars: Vec<char>) -> (lexer: Self)
        ensures
            lexer@ == LexerView::begin(SourceView { name: name@, chars: chars@ }),
            lexer@.well_formed(),
    {
        proof {
            assert(chars.len() == chars@.len());
            LexerView::lemma_begin(SourceView { name: name@, chars: chars@ });
        }
        let source = Source::new(name, chars);
        let lexer = Self {
            source: Rc::new(source),
            tokens: Vec::new(),
            start: 0,
            current: 0,
            line: 1,
            pending: None,
            finished: false,
        };
        assert(lexer@.tokens =~= Seq::empty());
        lexer
    }

    fn is_at_end(&self) -> (ended: bool)
        ensures
            ended == (self@.current >= self@.source.chars.len()),
    {
        self.current >= self.source.len()
    }

    /// The character `ahead` places behind the cursor.
    fn peek_nth(&self, ahead: usize) -> (c: Option<char>)
        ensures
            c == self@.peek(ahead as nat),
    {
        if self.current < self.source.len() && ahead < self.source.len() - self.current {
            Some(*self.source.get_unchecked(self.current + ahead))
        } else {
            None
        }
    }

    fn peek(&self) -> (c: Option<char>)
        ensures
            c == self@.peek(0),
    {
        self.peek_nth(0)
    }

    fn next_is(&self, c: char) -> (is: bool)
        ensures
            is == (self@.peek(0) == Some(c)),
    {
        match self.peek() {
            Some(next) => next == c,
            None => false,
        }
    }

    /// Goes one character forward and hands out the character passed.
    fn advance(&mut self) -> (c: char)
        requires
            old(self)@.current < old(self)@.source.chars.len(),
        ensures
            final(self)@ == old(self)@.forward(1),
            c == old(self)@.source.chars[old(self)@.current as int],
    {
        let c = *self.source.get_unchecked(self.current);
        if self.current < self.source.len() {
            self.current += 1;
        }
        c
    }

    /// Goes over the next character if it is the one given.
    fn eat(&mut self, c: char) -> (eaten: bool)
        ensures
            eaten == (old(self)@.peek(0) == Some(c)),
            final(self)@ == if eaten {
                old(self)@.forward(1)
            } else {
                old(self)@
            },
    {
        if self.next_is(c) {
            self.advance();
            true
        } else {
            false
        }
    }

    /// Goes over the run of characters of the class in front of the cursor.
    fn eat_while(&mut self, class: CharClass)
        ensures
            final(self)@ == old(self)@.over(class),
    {
        let ghost chars = self@.source.chars;
        let ghost from = self@.current;
        loop
            invariant
                self@ == old(self)@.forward((self@.current - from) as nat),
                chars == self@.source.chars,
                from == old(self)@.current,
                from <= self@.current,
                run_length(chars, from, class) == (self@.current - from) + run_length(
                    chars,
                    self@.current,
                    class,
                ),
            decreases self@.unread(),
        {
            match self.peek() {
                Some(c) => {
                    if class.accepts(c) {
                        self.advance();
                    } else {
                        return ;
                    }
                },
                None => {
                    return ;
                },
            }
        }
    }

    /// The text between two places of the source.
    fn get_lexeme(&self, range: &Range) -> (text: String)
        requires
            self@.source.holds(*range),
        ensures
            text@ == self@.source.chars.subrange(range.0 as int, range.1 as int),
    {
        collect(self.source.range(range))
    }

    /// The text of the lexeme at hand.
    fn get_current_lexeme(&self) -> (text: String)
        ensures
            text@ == self@.lexeme(),
    {
        if self.start <= self.current && self.current <= self.source.len() {
            self.get_lexeme(&Range(self.start, self.current))
        } else {
            String::new()
        }
    }

    /// The token of this kind for the lexeme at hand.
    fn token(&self, kind: TokenKind) -> (token: Token)
        ensures
            token@ == self@.token(kind@),
    {
        Token {
            source: share(&self.source),
            kind,
            span: Range(self.start, self.current),
            line: self.line,
        }
    }

    fn add_token(&mut self, token: Token)
        ensures
            final(self)@ == (LexerView { tokens: old(self)@.tokens.push(token@), ..old(self)@ }),
    {
        self.tokens.push(token);
        assert(self@.tokens =~= old(self)@.tokens.push(token@));
    }

    fn add_basic_token(&mut self, kind: TokenKind)
        ensures
            final(self)@ == old(self)@.with_token(kind@),
    {
        let token = self.token(kind);
        self.add_token(token);
    }

    /// The rest of a string behind its opening quote.
    fn string(&mut self)
        requires
            old(self)@.start + 1 == old(self)@.current,
        ensures
            final(self)@ == ({
                let body = old(self)@.over(CharClass::Except('"'));
                if body.current >= body.source.chars.len() {
                    body
                } else {
                    body.forward(1).with_token(
                        TokenKindView::Str(
                            body.source.chars.subrange(body.start as int + 1, body.current as int),
                        ),
                    )
                }
            }),
    {
        self.eat_while(CharClass::Except('"'));
        if self.is_at_end() {
            return ;
        }
        proof {
            lemma_run_length(
                old(self)@.source.chars,
                old(self)@.current,
                CharClass::Except('"'),
            );
        }
        self.advance();
        let text = self.get_lexeme(&Range(self.start + 1, self.current - 1));
        self.add_basic_token(TokenKind::Str(text));
    }

    /// The rest of a number behind its first digit. The lexeme waits for its value.
    fn number(&mut self) -> (report: Scan)
        ensures
            (final(self)@, Some(report@)) == ({
                let whole = old(self)@.over(CharClass::Numeric);
                let fractional = whole.fraction_follows();
                let number = if fractional {
                    whole.forward(1).over(CharClass::Numeric)
                } else {
                    whole
                };
                (
                    LexerView { pending: Some(fractional), ..number },
                    Some(ScanView::Number { lexeme: number.lexeme(), fractional }),
                )
            }),
    {
        self.eat_while(CharClass::Numeric);
        let fractional = self.next_is('.') && match self.peek_nth(1) {
            Some(c) => char_is_numeric(c),
            None => false,
        };
        if fractional {
            self.advance();
            self.eat_while(CharClass::Numeric);
        }
        let lexeme = self.get_current_lexeme();
        self.pending = Some(fractional);
        Scan::Number { lexeme, fractional }
    }

    /// The rest of a name or keyword behind its first letter.
    fn identifier(&mut self)
        ensures
            final(self)@ == ({
                let word = old(self)@.over(CharClass::Alphanumeric);
                word.with_token(keyword(word.lexeme()))
            }),
    {
        self.eat_while(CharClass::Alphanumeric);
        let text = self.get_current_lexeme();
        let kind = token_kind_for_text(&text);
        self.add_basic_token(kind);
    }

    /// Reads the lexeme at the cursor.
    fn scan_token(&mut self) -> (report: Option<Scan>)
        requires
            old(self)@.current < old(self)@.source.chars.len(),
        ensures
            final(self)@ == old(self)@.scan_token().0,
            match report {
                Some(scan) => Some(scan@),
                None => None,
            } == old(self)@.scan_token().1,
    {
        self.start = self.current;
        let c = self.advance();
        match lead(c, char_is_numeric(c), char_is_alphabetic(c)) {
            Lead::Single(kind) => {
                self.add_basic_token(kind);
                None
            },
            Lead::Pair(alone, followed) => {
                if self.eat('=') {
                    self.add_basic_token(followed);
                } else {
                    self.add_basic_token(alone);
                }
                None
            },
            Lead::Slash => {
                if self.eat('/') {
                    self.eat_while(CharClass::Except('\n'));
                } else {
                    self.add_basic_token(TokenKind::Slash);
                }
                None
            },
            Lead::Blank => None,
            Lead::Newline => {
                if self.line < usize::MAX {
                    self.line += 1;
                }
                None
            },
            Lead::Quote => {
                self.string();
                None
            },
            Lead::Digit => Some(self.number()),
            Lead::Letter => {
                self.identifier();
                None
            },
            Lead::Unknown => Some(Scan::Unexpected { character: c, line: self.line }),
        }
    }

    /// Reads on until there is something to report: a number that needs its
    /// value, a character that starts no lexeme, or the end of the text.
    pub fn scan(&mut self) -> (report: Scan)
        ensures
            (final(self)@, report@) == old(self)@.scan(),
            old(self)@.well_formed() ==> final(self)@.well_formed(),
    {
        proof {
            if self@.well_formed() {
                self@.lemma_scan();
            }
        }
        match self.pending {
            Some(fractional) => {
                return Scan::Number { lexeme: self.get_current_lexeme(), fractional };
            },
            None => {},
        }
        if self.finished {
            return Scan::Finished;
        }
        loop
            invariant
                self@.pending.is_none(),
                !self@.finished,
                old(self)@.scan() == self@.scan(),
                old(self)@.well_formed() ==> old(self)@.scan().0.well_formed(),
            decreases self@.unread(),
        {
            if self.is_at_end() {
                self.start = self.current;
                self.finished = true;
                self.add_basic_token(TokenKind::Eof);
                return Scan::Finished;
            }
            match self.scan_token() {
                Some(report) => {
                    return report;
                },
                None => {},
            }
        }
    }

    /// Hands in the value of the number that was reported last.
    pub fn number_value(&mut self, value: u64)
        ensures
            final(self)@ == old(self)@.number(value),
            old(self)@.well_formed() ==> final(self)@.well_formed(),
    {
        proof {
            if self@.well_formed() {
                self@.lemma_number(value);
            }
        }
        if self.pending.is_some() {
            self.pending = None;
            self.add_basic_token(TokenKind::Number(value));
        }
    }

    /// The tokens read so far.
    pub fn tokens(&self) -> (tokens: &Vec<Token>)
        ensures
            tokens_view(tokens@) == self@.tokens,
            self@.well_formed() ==> tokens_placed(tokens_view(tokens@)),
    {
        &self.tokens
    }

    /// Gives up the lexer for its tokens.
    pub fn finish(self) -> (tokens: Vec<Token>)
        ensures
            tokens_view(tokens@) == self@.tokens,
            self@.well_formed() ==> tokens_placed(tokens_view(tokens@)),
    {
        self.tokens
    }
}

/// Sets up a lexer in front of the text.
pub fn lex(name: String, source: &str) -> (lexer: Lexer)
    ensures
        lexer@ == LexerView::begin(SourceView { name: name@, chars: source@ }),
        lexer@.well_formed(),
{
    let mut chars: Vec<char> = Vec::new();
    for c in iter: source.chars()
        invariant
            iter.seq() == source@,
            chars@ == iter.seq().take(iter.index() as int),
    {
        chars.push(c);
    }
    assert(chars@ =~= source@);
    Lexer::new(name, chars)
}

} // verus!
