//! The grammar of the language as functions on token sequences. Each rule
//! says what it reads from a position on and how many tokens that takes.

use crate::stmt::{ExprView, StmtView};
use crate::token::{LiteralView, TokenKindView, TokenView};
use vstd::prelude::*;

verus! {

/// The mathematical content of a parse diagnostic: the token at which the
/// parser gave up on a statement, and why.
pub struct ParseErrView {
    pub token: TokenView,
    pub message: Seq<char>,
}

/// What a rule of the grammar makes of the tokens from some position on: the
/// tree it has read or the reason it could not, and the number of tokens it consumed.
pub type Parsed<T> = (Result<T, ParseErrView>, nat);

/// The kind of the token at `pos`. Past the last token the input reads as ended.
pub open spec fn kind_at(tokens: Seq<TokenView>, pos: nat) -> TokenKindView {
    if pos < tokens.len() {
        tokens[pos as int].kind
    } else {
        TokenKindView::Eof
    }
}

/// Whether the input has ended at `pos`.
pub open spec fn at_end(tokens: Seq<TokenView>, pos: nat) -> bool {
    kind_at(tokens, pos) == TokenKindView::Eof
}

/// The token at `pos`, and the last token for every position behind it.
pub open spec fn token_at(tokens: Seq<TokenView>, pos: nat) -> TokenView {
    if pos < tokens.len() {
        tokens[pos as int]
    } else {
        tokens.last()
    }
}

/// The number of tokens from `pos` on.
pub open spec fn remaining(tokens: Seq<TokenView>, pos: nat) -> nat {
    if pos < tokens.len() {
        (tokens.len() - pos) as nat
    } else {
        0
    }
}

/// The diagnostic that blames the token at `pos`.
pub open spec fn error_at(tokens: Seq<TokenView>, pos: nat, message: Seq<char>) -> ParseErrView {
    ParseErrView { token: token_at(tokens, pos), message }
}

/// The same outcome, counted from `by` tokens earlier.
pub open spec fn shift<T>(parsed: Parsed<T>, by: nat) -> Parsed<T> {
    (parsed.0, parsed.1 + by)
}

/// Whether an operator of this kind binds at this level of precedence. Level 0
/// binds loosest.
pub open spec fn binds_at(level: nat, kind: TokenKindView) -> bool {
    match kind {
        TokenKindView::Or => level == 0,
        TokenKindView::And => level == 1,
        TokenKindView::BangEqual | TokenKindView::EqualEqual => level == 2,
        TokenKindView::Greater
        | TokenKindView::GreaterEqual
        | TokenKindView::Less
        | TokenKindView::LessEqual => level == 3,
        TokenKindView::Minus | TokenKindView::Plus => level == 4,
        TokenKindView::Slash | TokenKindView::Star => level == 5,
        _ => false,
    }
}

/// The number of levels of infix operators.
pub const LEVELS: usize = 6;

/// The number of levels that bind tighter than `level`, twice.
pub open spec fn tighter(level: nat) -> nat {
    if level < LEVELS {
        (2 * (LEVELS - level)) as nat
    } else {
        0
    }
}

/// The node for `left operator right` at a level: `and` and `or` short-circuit,
/// the other operators do not.
pub open spec fn infix(level: nat, left: ExprView, operator: TokenView, right: ExprView) -> ExprView {
    if level < 2 {
        ExprView::Logical { left: Box::new(left), operator, right: Box::new(right) }
    } else {
        ExprView::Binary { left: Box::new(left), operator, right: Box::new(right) }
    }
}

/// Whether a token of this kind begins a statement, so that skipping after an
/// error may stop in front of it.
pub open spec fn starts_statement(kind: TokenKindView) -> bool {
    match kind {
        TokenKindView::Class
        | TokenKindView::Fun
        | TokenKindView::Var
        | TokenKindView::For
        | TokenKindView::If
        | TokenKindView::While
        | TokenKindView::Print
        | TokenKindView::Return => true,
        _ => false,
    }
}

/// `primary := NUMBER | STRING | "true" | "false" | "nil" | "(" expression ")" | IDENT`.
/// A token that begins none of these is blamed and left where it is.
pub open spec fn primary(tokens: Seq<TokenView>, pos: nat) -> Parsed<ExprView>
    decreases remaining(tokens, pos), 0nat,
{
    match kind_at(tokens, pos) {
        TokenKindView::False => (Ok(ExprView::Literal { val: LiteralView::Bool(false) }), 1),
        TokenKindView::True => (Ok(ExprView::Literal { val: LiteralView::Bool(true) }), 1),
        TokenKindView::Nil => (Ok(ExprView::Literal { val: LiteralView::Nil }), 1),
        TokenKindView::Number(bits) => (Ok(ExprView::Literal { val: LiteralView::Number(bits) }), 1),
        TokenKindView::Str(text) => (Ok(ExprView::Literal { val: LiteralView::Str(text) }), 1),
        TokenKindView::Identifier => (Ok(ExprView::Variable { name: token_at(tokens, pos) }), 1),
        TokenKindView::LeftParen => match expression(tokens, pos + 1) {
            (Ok(inner), used) => if kind_at(tokens, pos + 1 + used) == TokenKindView::RightParen {
                (Ok(ExprView::Grouping { expr: Box::new(inner) }), used + 2)
            } else {
                (
                    Err(error_at(tokens, pos + 1 + used, "Expect ')' after expression."@)),
                    used + 1,
                )
            },
            (Err(error), used) => (Err(error), used + 1),
        },
        _ => (Err(error_at(tokens, pos, "Expect expression."@)), 0),
    }
}

/// `unary := ("!" | "-") unary | primary`.
pub open spec fn unary(tokens: Seq<TokenView>, pos: nat) -> Parsed<ExprView>
    decreases remaining(tokens, pos), 1nat,
{
    match kind_at(tokens, pos) {
        TokenKindView::Bang | TokenKindView::Minus => match unary(tokens, pos + 1) {
            (Ok(right), used) => (
                Ok(ExprView::Unary { operator: token_at(tokens, pos), right: Box::new(right) }),
                used + 1,
            ),
            (Err(error), used) => (Err(error), used + 1),
        },
        _ => primary(tokens, pos),
    }
}

/// An operand of the operators of `level`: an expression of the next tighter
/// level, and a unary expression at the tightest.
pub open spec fn operand(tokens: Seq<TokenView>, pos: nat, level: nat) -> Parsed<ExprView>
    decreases remaining(tokens, pos), tighter(level) + 3,
{
    if level + 1 < LEVELS {
        binary(tokens, pos, level + 1)
    } else {
        unary(tokens, pos)
    }
}

/// One level of infix operators: `operand (operator operand)*`, grouped to the left.
pub open spec fn binary(tokens: Seq<TokenView>, pos: nat, level: nat) -> Parsed<ExprView>
    decreases remaining(tokens, pos), tighter(level) + 4,
{
    if level >= LEVELS {
        unary(tokens, pos)
    } else {
        match operand(tokens, pos, level) {
            (Ok(left), used) => shift(binary_rest(tokens, pos + used, level, left), used),
            (Err(error), used) => (Err(error), used),
        }
    }
}

/// The operators of `level` that follow a left operand, with their right operands.
pub open spec fn binary_rest(tokens: Seq<TokenView>, pos: nat, level: nat, left: ExprView) -> Parsed<
    ExprView,
>
    decreases remaining(tokens, pos), 2nat,
{
    if binds_at(level, kind_at(tokens, pos)) {
        match operand(tokens, pos + 1, level) {
            (Ok(right), used) => shift(
                binary_rest(
                    tokens,
                    pos + 1 + used,
                    level,
                    infix(level, left, token_at(tokens, pos), right),
                ),
                used + 1,
            ),
            (Err(error), used) => (Err(error), used + 1),
        }
    } else {
        (Ok(left), 0)
    }
}

/// `assignment := IDENT "=" assignment | logic_or`. The left side is read as an
/// expression first; when a `=` follows, it has to be a bare variable, and the
/// diagnostic for any other target blames the `=`.
pub open spec fn assignment(tokens: Seq<TokenView>, pos: nat) -> Parsed<ExprView>
    decreases remaining(tokens, pos), 20nat,
{
    match binary(tokens, pos, 0) {
        (Ok(target), used) => if kind_at(tokens, pos + used) == TokenKindView::Equal {
            match assignment(tokens, pos + used + 1) {
                (Ok(value), more) => match target {
                    ExprView::Variable { name } => (
                        Ok(ExprView::Assign { name, value: Box::new(value) }),
                        used + 1 + more,
                    ),
                    _ => (
                        Err(error_at(tokens, pos + used, "Invalid assignment target."@)),
                        used + 1 + more,
                    ),
                },
                (Err(error), more) => (Err(error), used + 1 + more),
            }
        } else {
            (Ok(target), used)
        },
        (Err(error), used) => (Err(error), used),
    }
}

/// `expression := assignment`.
pub open spec fn expression(tokens: Seq<TokenView>, pos: nat) -> Parsed<ExprView>
    decreases remaining(tokens, pos), 21nat,
{
    assignment(tokens, pos)
}

/// An expression and the `;` that ends a statement.
pub open spec fn terminated(tokens: Seq<TokenView>, pos: nat) -> Parsed<ExprView>
    decreases remaining(tokens, pos), 22nat,
{
    match expression(tokens, pos) {
        (Ok(expr), used) => if kind_at(tokens, pos + used) == TokenKindView::Semicolon {
            (Ok(expr), used + 1)
        } else {
            (Err(error_at(tokens, pos + used, "Expect ';' after value."@)), used)
        },
        (Err(error), used) => (Err(error), used),
    }
}

/// `exprStmt := expression ";"`.
pub open spec fn expression_statement(tokens: Seq<TokenView>, pos: nat) -> Parsed<StmtView>
    decreases remaining(tokens, pos), 23nat,
{
    match terminated(tokens, pos) {
        (Ok(expr), used) => (Ok(StmtView::Expression { expr }), used),
        (Err(error), used) => (Err(error), used),
    }
}

/// `printStmt := "print" expression ";"`, from behind the keyword.
pub open spec fn print_statement(tokens: Seq<TokenView>, pos: nat) -> Parsed<StmtView>
    decreases remaining(tokens, pos), 23nat,
{
    match terminated(tokens, pos) {
        (Ok(expr), used) => (Ok(StmtView::Print { expr }), used),
        (Err(error), used) => (Err(error), used),
    }
}

/// `"var" IDENT ("=" expression)? ";"`, from behind the keyword.
pub open spec fn var_declaration(tokens: Seq<TokenView>, pos: nat) -> Parsed<StmtView>
    decreases remaining(tokens, pos), 23nat,
{
    if kind_at(tokens, pos) != TokenKindView::Identifier {
        (Err(error_at(tokens, pos, "Expect variable name."@)), 0)
    } else {
        let name = token_at(tokens, pos);
        let initializer: Parsed<Option<ExprView>> = if kind_at(tokens, pos + 1)
            == TokenKindView::Equal {
            match expression(tokens, pos + 2) {
                (Ok(expr), used) => (Ok(Some(expr)), used + 2),
                (Err(error), used) => (Err(error), used + 2),
            }
        } else {
            (Ok(None), 1)
        };
        match initializer {
            (Ok(initializer), used) => if kind_at(tokens, pos + used) == TokenKindView::Semicolon {
                (Ok(StmtView::Var { name, initializer }), used + 1)
            } else {
                (
                    Err(error_at(tokens, pos + used, "Expect ';' after variable declaration."@)),
                    used,
                )
            },
            (Err(error), used) => (Err(error), used),
        }
    }
}

/// A condition in parentheses, as `if` and `while` have it. `opening` and
/// `closing` are the diagnostics for a missing parenthesis.
pub open spec fn condition(
    tokens: Seq<TokenView>,
    pos: nat,
    opening: Seq<char>,
    closing: Seq<char>,
) -> Parsed<ExprView>
    decreases remaining(tokens, pos), 23nat,
{
    if kind_at(tokens, pos) != TokenKindView::LeftParen {
        (Err(error_at(tokens, pos, opening)), 0)
    } else {
        match expression(tokens, pos + 1) {
            (Ok(expr), used) => if kind_at(tokens, pos + 1 + used) == TokenKindView::RightParen {
                (Ok(expr), used + 2)
            } else {
                (Err(error_at(tokens, pos + 1 + used, closing)), used + 1)
            },
            (Err(error), used) => (Err(error), used + 1),
        }
    }
}

/// `ifStmt := "if" "(" expression ")" statement ("else" statement)?`, from
/// behind the keyword. An `else` belongs to the nearest `if`.
pub open spec fn if_statement(tokens: Seq<TokenView>, pos: nat) -> Parsed<StmtView>
    decreases remaining(tokens, pos), 24nat,
{
    match condition(tokens, pos, "Expect '(' after 'if'."@, "Expect ')' after if condition."@) {
        (Ok(condition), used) => match statement(tokens, pos + used) {
            (Ok(then_branch), more) => if kind_at(tokens, pos + used + more)
                == TokenKindView::Else {
                match statement(tokens, pos + used + more + 1) {
                    (Ok(else_branch), rest) => (
                        Ok(
                            StmtView::If {
                                condition,
                                then_branch: Box::new(then_branch),
                                else_branch: Some(Box::new(else_branch)),
                            },
                        ),
                        used + more + 1 + rest,
                    ),
                    (Err(error), rest) => (Err(error), used + more + 1 + rest),
                }
            } else {
                (
                    Ok(
                        StmtView::If {
                            condition,
                            then_branch: Box::new(then_branch),
                            else_branch: None,
                        },
                    ),
                    used + more,
                )
            },
            (Err(error), more) => (Err(error), used + more),
        },
        (Err(error), used) => (Err(error), used),
    }
}

/// `whileStmt := "while" "(" expression ")" statement`, from behind the keyword.
pub open spec fn while_statement(tokens: Seq<TokenView>, pos: nat) -> Parsed<StmtView>
    decreases remaining(tokens, pos), 24nat,
{
    match condition(
        tokens,
        pos,
        "Expect '(' after 'while'."@,
        "Expect ')' after while condition."@,
    ) {
        (Ok(condition), used) => match statement(tokens, pos + used) {
            (Ok(body), more) => (
                Ok(StmtView::While { condition, body: Box::new(body) }),
                used + more,
            ),
            (Err(error), more) => (Err(error), used + more),
        },
        (Err(error), used) => (Err(error), used),
    }
}

/// The statement that a `for` loop stands for: the body, followed by the
/// increment if there is one, repeated while the condition holds, and all of it
/// behind the initializer if there is one, in a block of their own.
pub open spec fn desugar_for(
    initializer: Option<StmtView>,
    condition: ExprView,
    increment: Option<ExprView>,
    body: StmtView,
) -> StmtView {
    let repeated = match increment {
        Some(expr) => StmtView::Block { statements: seq![body, StmtView::Expression { expr }] },
        None => body,
    };
    let looped = StmtView::While { condition, body: Box::new(repeated) };
    match initializer {
        Some(first) => StmtView::Block { statements: seq![first, looped] },
        None => looped,
    }
}

/// The first clause of a `for`: `varDecl | exprStmt | ";"`.
pub open spec fn for_initializer(tokens: Seq<TokenView>, pos: nat) -> Parsed<Option<StmtView>>
    decreases remaining(tokens, pos), 24nat,
{
    match kind_at(tokens, pos) {
        TokenKindView::Semicolon => (Ok(None), 1),
        TokenKindView::Var => match var_declaration(tokens, pos + 1) {
            (Ok(statement), used) => (Ok(Some(statement)), used + 1),
            (Err(error), used) => (Err(error), used + 1),
        },
        _ => match expression_statement(tokens, pos) {
            (Ok(statement), used) => (Ok(Some(statement)), used),
            (Err(error), used) => (Err(error), used),
        },
    }
}

/// The second clause of a `for`: `expression? ";"`. Without an expression the
/// loop runs while `true`.
pub open spec fn for_condition(tokens: Seq<TokenView>, pos: nat) -> Parsed<ExprView>
    decreases remaining(tokens, pos), 24nat,
{
    let condition: Parsed<ExprView> = if kind_at(tokens, pos) == TokenKindView::Semicolon {
        (Ok(ExprView::Literal { val: LiteralView::Bool(true) }), 0)
    } else {
        expression(tokens, pos)
    };
    match condition {
        (Ok(expr), used) => if kind_at(tokens, pos + used) == TokenKindView::Semicolon {
            (Ok(expr), used + 1)
        } else {
            (Err(error_at(tokens, pos + used, "Expect ';' after loop condition."@)), used)
        },
        (Err(error), used) => (Err(error), used),
    }
}

/// The third clause of a `for`: `expression? ")"`.
pub open spec fn for_increment(tokens: Seq<TokenView>, pos: nat) -> Parsed<Option<ExprView>>
    decreases remaining(tokens, pos), 24nat,
{
    let increment: Parsed<Option<ExprView>> = if kind_at(tokens, pos)
        == TokenKindView::RightParen {
        (Ok(None), 0)
    } else {
        match expression(tokens, pos) {
            (Ok(expr), used) => (Ok(Some(expr)), used),
            (Err(error), used) => (Err(error), used),
        }
    };
    match increment {
        (Ok(expr), used) => if kind_at(tokens, pos + used) == TokenKindView::RightParen {
            (Ok(expr), used + 1)
        } else {
            (Err(error_at(tokens, pos + used, "Expect ')' after for clauses."@)), used)
        },
        (Err(error), used) => (Err(error), used),
    }
}

/// `forStmt := "for" "(" (varDecl | exprStmt | ";") expression? ";" expression? ")" statement`,
/// from behind the keyword. The result is the loop written with `while`.
pub open spec fn for_statement(tokens: Seq<TokenView>, pos: nat) -> Parsed<StmtView>
    decreases remaining(tokens, pos), 25nat,
{
    if kind_at(tokens, pos) != TokenKindView::LeftParen {
        (Err(error_at(tokens, pos, "Expect '(' after 'for'."@)), 0)
    } else {
        match for_initializer(tokens, pos + 1) {
            (Ok(initializer), a) => match for_condition(tokens, pos + 1 + a) {
                (Ok(condition), b) => match for_increment(tokens, pos + 1 + a + b) {
                    (Ok(increment), c) => match statement(tokens, pos + 1 + a + b + c) {
                        (Ok(body), d) => (
                            Ok(desugar_for(initializer, condition, increment, body)),
                            1 + a + b + c + d,
                        ),
                        (Err(error), d) => (Err(error), 1 + a + b + c + d),
                    },
                    (Err(error), c) => (Err(error), 1 + a + b + c),
                },
                (Err(error), b) => (Err(error), 1 + a + b),
            },
            (Err(error), a) => (Err(error), 1 + a),
        }
    }
}

/// `block := "{" declaration* "}"`, from behind the brace and with the
/// statements read so far. A statement that fails ends the block with its
/// diagnostic. Every statement that is read ends with a token of its own, so
/// the block reads on behind it; the definition says so to be well founded.
pub open spec fn block(tokens: Seq<TokenView>, pos: nat, done: Seq<StmtView>) -> Parsed<
    Seq<StmtView>,
>
    decreases remaining(tokens, pos), 40nat,
{
    if kind_at(tokens, pos) == TokenKindView::RightBrace {
        (Ok(done), 1)
    } else if at_end(tokens, pos) {
        (Err(error_at(tokens, pos, "Expect '}' after block."@)), 0)
    } else {
        match declaration(tokens, pos) {
            (Ok(statement), used) => if used > 0 {
                shift(block(tokens, pos + used, done.push(statement)), used)
            } else {
                (Ok(done.push(statement)), 0)
            },
            (Err(error), used) => (Err(error), used),
        }
    }
}

/// `statement := forStmt | ifStmt | printStmt | whileStmt | block | exprStmt`.
pub open spec fn statement(tokens: Seq<TokenView>, pos: nat) -> Parsed<StmtView>
    decreases remaining(tokens, pos), 30nat,
{
    match kind_at(tokens, pos) {
        TokenKindView::For => shift(for_statement(tokens, pos + 1), 1),
        TokenKindView::If => shift(if_statement(tokens, pos + 1), 1),
        TokenKindView::Print => shift(print_statement(tokens, pos + 1), 1),
        TokenKindView::While => shift(while_statement(tokens, pos + 1), 1),
        TokenKindView::LeftBrace => match block(tokens, pos + 1, Seq::empty()) {
            (Ok(statements), used) => (Ok(StmtView::Block { statements }), used + 1),
            (Err(error), used) => (Err(error), used + 1),
        },
        _ => expression_statement(tokens, pos),
    }
}

/// `declaration := "var" IDENT ("=" expression)? ";" | statement`.
pub open spec fn declaration(tokens: Seq<TokenView>, pos: nat) -> Parsed<StmtView>
    decreases remaining(tokens, pos), 31nat,
{
    if kind_at(tokens, pos) == TokenKindView::Var {
        shift(var_declaration(tokens, pos + 1), 1)
    } else {
        statement(tokens, pos)
    }
}

/// A statement that was read has consumed at least its last token.
pub proof fn lemma_statement_consumes(tokens: Seq<TokenView>, pos: nat)
    ensures
        declaration(tokens, pos).0.is_ok() ==> declaration(tokens, pos).1 > 0,
        statement(tokens, pos).0.is_ok() ==> statement(tokens, pos).1 > 0,
{
}

/// The number of tokens to skip from `pos`, behind a token already skipped, to
/// reach the next likely start of a statement: none when the token before
/// `pos` is a `;`, when the one at `pos` begins a statement, or at the end.
pub open spec fn skipped(tokens: Seq<TokenView>, pos: nat) -> nat
    decreases remaining(tokens, pos),
{
    if at_end(tokens, pos) {
        0
    } else if pos >= 1 && kind_at(tokens, (pos - 1) as nat) == TokenKindView::Semicolon {
        0
    } else if starts_statement(kind_at(tokens, pos)) {
        0
    } else {
        1 + skipped(tokens, pos + 1)
    }
}

/// Skipping ends at the end of the input, behind a `;` or in front of a token
/// that begins a statement, and at the first such place.
pub proof fn lemma_skipped_stops(tokens: Seq<TokenView>, pos: nat)
    requires
        pos >= 1,
    ensures
        ({
            let end = pos + skipped(tokens, pos);
            &&& at_end(tokens, end) || kind_at(tokens, (end - 1) as nat) == TokenKindView::Semicolon
                || starts_statement(kind_at(tokens, end))
            &&& forall|between: nat|
                pos <= between < end ==> !at_end(tokens, between) && #[trigger] kind_at(
                    tokens,
                    (between - 1) as nat,
                ) != TokenKindView::Semicolon && !starts_statement(kind_at(tokens, between))
        }),
    decreases remaining(tokens, pos),
{
    if !at_end(tokens, pos) && kind_at(tokens, (pos - 1) as nat) != TokenKindView::Semicolon
        && !starts_statement(kind_at(tokens, pos)) {
        lemma_skipped_stops(tokens, pos + 1);
    }
}

/// Recovery makes progress and stays inside the input: it drops at least one
/// token unless the input has ended, and never goes past the last token.
pub proof fn lemma_synchronize_advances(tokens: Seq<TokenView>, pos: nat)
    requires
        pos <= tokens.len(),
    ensures
        !at_end(tokens, pos) ==> synchronize(tokens, pos) >= 1,
        pos + synchronize(tokens, pos) <= tokens.len(),
{
    if !at_end(tokens, pos) {
        lemma_skipped_bounded(tokens, pos + 1);
    }
}

/// Skipping never goes past the last token.
pub proof fn lemma_skipped_bounded(tokens: Seq<TokenView>, pos: nat)
    requires
        pos <= tokens.len(),
    ensures
        pos + skipped(tokens, pos) <= tokens.len(),
    decreases remaining(tokens, pos),
{
    if !at_end(tokens, pos) && !(pos >= 1 && kind_at(tokens, (pos - 1) as nat)
        == TokenKindView::Semicolon) && !starts_statement(kind_at(tokens, pos)) {
        lemma_skipped_bounded(tokens, pos + 1);
    }
}

/// A statement that breaks at its own `;` costs one diagnostic and no other
/// statement: recovery drops the `;` and nothing more, and parsing goes on with
/// the statement behind it.
pub proof fn lemma_broken_statement_costs_itself(
    tokens: Seq<TokenView>,
    pos: nat,
    statements: Seq<StmtView>,
    errors: Seq<ParseErrView>,
)
    requires
        !at_end(tokens, pos),
        declaration(tokens, pos).0 is Err,
        kind_at(tokens, pos + declaration(tokens, pos).1) == TokenKindView::Semicolon,
    ensures
        synchronize(tokens, pos + declaration(tokens, pos).1) == 1,
        program(tokens, pos, statements, errors) == program(
            tokens,
            pos + declaration(tokens, pos).1 + 1,
            statements,
            errors.push(declaration(tokens, pos).0->Err_0),
        ),
{
    let broken = pos + declaration(tokens, pos).1;
    assert(kind_at(tokens, ((broken + 1) - 1) as nat) == TokenKindView::Semicolon);
}

/// A statement that is read is kept, and parsing goes on behind it.
pub proof fn lemma_read_statement_is_kept(
    tokens: Seq<TokenView>,
    pos: nat,
    statements: Seq<StmtView>,
    errors: Seq<ParseErrView>,
)
    requires
        !at_end(tokens, pos),
        declaration(tokens, pos).0 is Ok,
    ensures
        program(tokens, pos, statements, errors) == program(
            tokens,
            pos + declaration(tokens, pos).1,
            statements.push(declaration(tokens, pos).0->Ok_0),
            errors,
        ),
{
    lemma_statement_consumes(tokens, pos);
}

/// A `for` loop is its `while` loop: with all three clauses it is the block
/// `{ initializer while (condition) { body increment; } }`; without an
/// increment the body stands alone, and without an initializer the loop does.
pub proof fn lemma_for_is_while(
    initializer: StmtView,
    condition: ExprView,
    increment: ExprView,
    body: StmtView,
)
    ensures
        desugar_for(Some(initializer), condition, Some(increment), body) == (StmtView::Block {
            statements: seq![
                initializer,
                StmtView::While {
                    condition,
                    body: Box::new(
                        StmtView::Block {
                            statements: seq![body, StmtView::Expression { expr: increment }],
                        },
                    ),
                },
            ],
        }),
        desugar_for(Some(initializer), condition, None, body) == (StmtView::Block {
            statements: seq![initializer, StmtView::While { condition, body: Box::new(body) }],
        }),
        desugar_for(None, condition, Some(increment), body) == (StmtView::While {
            condition,
            body: Box::new(
                StmtView::Block {
                    statements: seq![body, StmtView::Expression { expr: increment }],
                },
            ),
        }),
        desugar_for(None, condition, None, body) == (StmtView::While {
            condition,
            body: Box::new(body),
        }),
{
}

/// The number of tokens that recovery drops from `pos`, where a statement
/// failed: one in any case, unless the input has ended, and then as far as the
/// next likely start of a statement.
pub open spec fn synchronize(tokens: Seq<TokenView>, pos: nat) -> nat {
    if at_end(tokens, pos) {
        0
    } else {
        1 + skipped(tokens, pos + 1)
    }
}

/// `program := declaration* EOF`, from `pos` and with the statements and
/// diagnostics so far. A statement that fails leaves its diagnostic, and
/// parsing goes on behind the tokens that recovery drops. As in a block, every
/// statement that is read has consumed a token.
pub open spec fn program(
    tokens: Seq<TokenView>,
    pos: nat,
    statements: Seq<StmtView>,
    errors: Seq<ParseErrView>,
) -> (Seq<StmtView>, Seq<ParseErrView>)
    decreases remaining(tokens, pos), 50nat,
{
    if at_end(tokens, pos) {
        (statements, errors)
    } else {
        match declaration(tokens, pos) {
            (Ok(statement), used) => if used > 0 {
                program(tokens, pos + used, statements.push(statement), errors)
            } else {
                (statements.push(statement), errors)
            },
            (Err(error), used) => program(
                tokens,
                pos + used + synchronize(tokens, pos + used),
                statements,
                errors.push(error),
            ),
        }
    }
}

/// The statements of a token sequence and the diagnostics for what could not be read.
pub open spec fn parse(tokens: Seq<TokenView>) -> (Seq<StmtView>, Seq<ParseErrView>) {
    program(tokens, 0, Seq::empty(), Seq::empty())
}

} // verus!
