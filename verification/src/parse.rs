//! The parser: a recursive descent over the token sequence that computes what
//! the grammar says, statement by statement, and recovers behind a statement
//! that it cannot read. Each level of nesting in the input takes a level of
//! the call stack, which bounds the depth of the programs that can be parsed.

use crate::grammar::{
    at_end, binds_at, error_at, kind_at, lemma_statement_consumes, remaining, shift,
    starts_statement, tighter, token_at, ParseErrView, LEVELS,
};
use crate::placement::lemma_parse_keeps_tokens_placed;
use crate::stmt::{all_placed, statements_view, Expr, ExprView, Stmt, StmtView};
use crate::token::{tokens_placed, tokens_view, Literal, Token, TokenKind, TokenView};
use vstd::prelude::*;
use vstd::string::StringExecFns;

verus! {

/// A parse diagnostic: the token at which a statement was given up, and why.
#[derive(Debug, PartialEq)]
pub struct ParseErr {
    pub token: Token,
    pub message: String,
}

impl View for ParseErr {
    type V = ParseErrView;

    open spec fn view(&self) -> ParseErrView {
        ParseErrView { token: self.token@, message: self.message@ }
    }
}

/// The contents of a list of diagnostics.
pub open spec fn errors_view(errors: Seq<ParseErr>) -> Seq<ParseErrView> {
    Seq::new(errors.len(), |i: int| errors[i]@)
}

/// The contents of what a rule for an expression returns.
pub open spec fn expr_outcome(result: Result<Expr, ParseErr>) -> Result<ExprView, ParseErrView> {
    match result {
        Ok(expr) => Ok(expr@),
        Err(error) => Err(error@),
    }
}

/// The contents of what a rule for a statement returns.
pub open spec fn stmt_outcome(result: Result<Stmt, ParseErr>) -> Result<StmtView, ParseErrView> {
    match result {
        Ok(statement) => Ok(statement@),
        Err(error) => Err(error@),
    }
}

/// The contents of what a rule for an optional expression returns.
pub open spec fn optional_expr_outcome(result: Result<Option<Expr>, ParseErr>) -> Result<
    Option<ExprView>,
    ParseErrView,
> {
    match result {
        Ok(Some(expr)) => Ok(Some(expr@)),
        Ok(None) => Ok(None),
        Err(error) => Err(error@),
    }
}

/// The contents of what a rule for an optional statement returns.
pub open spec fn optional_stmt_outcome(result: Result<Option<Stmt>, ParseErr>) -> Result<
    Option<StmtView>,
    ParseErrView,
> {
    match result {
        Ok(Some(statement)) => Ok(Some(statement@)),
        Ok(None) => Ok(None),
        Err(error) => Err(error@),
    }
}

/// The contents of what the rule for a block returns.
pub open spec fn block_outcome(result: Result<Vec<Stmt>, ParseErr>) -> Result<
    Seq<StmtView>,
    ParseErrView,
> {
    match result {
        Ok(statements) => Ok(statements_view(statements@)),
        Err(error) => Err(error@),
    }
}

/// A cursor over a token sequence, with one method for each rule of the grammar.
struct Parser {
    tokens: Vec<Token>,
    current: usize,
}

impl Parser {
    spec fn input(&self) -> Seq<TokenView> {
        tokens_view(self.tokens@)
    }

    spec fn at(&self) -> nat {
        self.current as nat
    }

    spec fn ready(&self) -> bool {
        0 < self.tokens@.len() && self.current <= self.tokens@.len()
    }

    /// The cursor has gone `used` tokens forward over the same sequence.
    spec fn moved(&self, before: &Parser, used: nat) -> bool {
        self.tokens == before.tokens && self.current == before.current + used && self.ready()
    }

    fn is_at_end(&self) -> (ended: bool)
        ensures
            ended == at_end(self.input(), self.at()),
    {
        if self.current < self.tokens.len() {
            matches!(self.tokens[self.current].kind, TokenKind::Eof)
        } else {
            true
        }
    }

    /// Whether the token at the cursor is of the kind given.
    fn check(&self, kind: &TokenKind) -> (same: bool)
        ensures
            same == (kind_at(self.input(), self.at()) == kind@),
    {
        if self.current < self.tokens.len() {
            self.tokens[self.current].kind.equals(kind)
        } else {
            matches!(kind, TokenKind::Eof)
        }
    }

    /// The token at the cursor, or the last token when the cursor is behind it.
    fn peek(&self) -> (token: Token)
        requires
            self.ready(),
        ensures
            token@ == token_at(self.input(), self.at()),
    {
        if self.current < self.tokens.len() {
            self.tokens[self.current].clone()
        } else {
            self.tokens[self.tokens.len() - 1].clone()
        }
    }

    /// Whether the token before the cursor is of the kind given.
    fn previous_is(&self, kind: &TokenKind) -> (same: bool)
        requires
            self.ready(),
            self.current >= 1,
        ensures
            same == (kind_at(self.input(), (self.at() - 1) as nat) == kind@),
    {
        self.tokens[self.current - 1].kind.equals(kind)
    }

    /// Goes one token forward, unless the input has ended.
    fn advance(&mut self)
        requires
            old(self).ready(),
        ensures
            final(self).moved(
                old(self),
                if at_end(old(self).input(), old(self).at()) {
                    0
                } else {
                    1
                },
            ),
    {
        if self.current < self.tokens.len() && !self.is_at_end() {
            self.current += 1;
        }
    }

    /// The diagnostic that blames the token at the cursor.
    fn error(&self, message: &str) -> (error: ParseErr)
        requires
            self.ready(),
        ensures
            error@ == error_at(self.input(), self.at(), message@),
    {
        ParseErr { token: self.peek(), message: String::from_str(message) }
    }

    fn primary(&mut self) -> (result: Result<Expr, ParseErr>)
        requires
            old(self).ready(),
        ensures
            final(self).moved(old(self), crate::grammar::primary(old(self).input(), old(self).at()).1),
            expr_outcome(result) == crate::grammar::primary(old(self).input(), old(self).at()).0,
        decreases remaining(old(self).input(), old(self).at()), 0nat,
    {
        let token = self.peek();
        if self.current >= self.tokens.len() {
            return Err(ParseErr { token, message: String::from_str("Expect expression.") });
        }
        match &token.kind {
            TokenKind::False => {
                self.advance();
                Ok(Expr::Literal { val: Literal::Bool(false) })
            },
            TokenKind::True => {
                self.advance();
                Ok(Expr::Literal { val: Literal::Bool(true) })
            },
            TokenKind::Nil => {
                self.advance();
                Ok(Expr::Literal { val: Literal::Nil })
            },
            TokenKind::Number(bits) => {
                self.advance();
                Ok(Expr::Literal { val: Literal::Number(*bits) })
            },
            TokenKind::Str(text) => {
                self.advance();
                Ok(Expr::Literal { val: Literal::Str(text.clone()) })
            },
            TokenKind::Identifier => {
                self.advance();
                Ok(Expr::Variable { name: token })
            },
            TokenKind::LeftParen => {
                self.advance();
                match self.expression() {
                    Ok(inner) => {
                        if self.check(&TokenKind::RightParen) {
                            self.advance();
                            Ok(Expr::Grouping { expr: Box::new(inner) })
                        } else {
                            Err(self.error("Expect ')' after expression."))
                        }
                    },
                    Err(error) => Err(error),
                }
            },
            _ => Err(ParseErr { token, message: String::from_str("Expect expression.") }),
        }
    }

    fn unary(&mut self) -> (result: Result<Expr, ParseErr>)
        requires
            old(self).ready(),
        ensures
            final(self).moved(old(self), crate::grammar::unary(old(self).input(), old(self).at()).1),
            expr_outcome(result) == crate::grammar::unary(old(self).input(), old(self).at()).0,
        decreases remaining(old(self).input(), old(self).at()), 1nat,
    {
        if self.check(&TokenKind::Bang) || self.check(&TokenKind::Minus) {
            let operator = self.peek();
            self.advance();
            match self.unary() {
                Ok(right) => Ok(Expr::Unary { operator, right: Box::new(right) }),
                Err(error) => Err(error),
            }
        } else {
            self.primary()
        }
    }

    fn operand(&mut self, level: usize) -> (result: Result<Expr, ParseErr>)
        requires
            old(self).ready(),
        ensures
            final(self).moved(
                old(self),
                crate::grammar::operand(old(self).input(), old(self).at(), level as nat).1,
            ),
            expr_outcome(result) == crate::grammar::operand(
                old(self).input(),
                old(self).at(),
                level as nat,
            ).0,
        decreases remaining(old(self).input(), old(self).at()), tighter(level as nat) + 3,
    {
        if level < LEVELS - 1 {
            self.binary(level + 1)
        } else {
            self.unary()
        }
    }

    /// Whether the token at the cursor is an operator of `level`.
    fn binds(&self, level: usize) -> (binds: bool)
        ensures
            binds == binds_at(level as nat, kind_at(self.input(), self.at())),
    {
        if self.current < self.tokens.len() {
            match self.tokens[self.current].kind {
                TokenKind::Or => level == 0,
                TokenKind::And => level == 1,
                TokenKind::BangEqual | TokenKind::EqualEqual => level == 2,
                TokenKind::Greater
                | TokenKind::GreaterEqual
                | TokenKind::Less
                | TokenKind::LessEqual => level == 3,
                TokenKind::Minus | TokenKind::Plus => level == 4,
                TokenKind::Slash | TokenKind::Star => level == 5,
                _ => false,
            }
        } else {
            false
        }
    }

    fn binary(&mut self, level: usize) -> (result: Result<Expr, ParseErr>)
        requires
            old(self).ready(),
        ensures
            final(self).moved(
                old(self),
                crate::grammar::binary(old(self).input(), old(self).at(), level as nat).1,
            ),
            expr_outcome(result) == crate::grammar::binary(
                old(self).input(),
                old(self).at(),
                level as nat,
            ).0,
        decreases remaining(old(self).input(), old(self).at()), tighter(level as nat) + 4,
    {
        if level >= LEVELS {
            return self.unary();
        }
        let ghost input = self.input();
        let ghost start = self.at();
        let mut expr = match self.operand(level) {
            Ok(left) => left,
            Err(error) => {
                return Err(error);
            },
        };
        while self.binds(level)
            invariant
                self.ready(),
                self.tokens == old(self).tokens,
                input == old(self).input(),
                start == old(self).at(),
                start <= self.at(),
                level < LEVELS,
                crate::grammar::binary(input, start, level as nat) == shift(
                    crate::grammar::binary_rest(input, self.at(), level as nat, expr@),
                    (self.at() - start) as nat,
                ),
            decreases remaining(input, self.at()),
        {
            let operator = self.peek();
            self.advance();
            let right = match self.operand(level) {
                Ok(right) => right,
                Err(error) => {
                    return Err(error);
                },
            };
            expr = if level < 2 {
                Expr::Logical { left: Box::new(expr), operator, right: Box::new(right) }
            } else {
                Expr::Binary { left: Box::new(expr), operator, right: Box::new(right) }
            };
        }
        Ok(expr)
    }

    fn assignment(&mut self) -> (result: Result<Expr, ParseErr>)
        requires
            old(self).ready(),
        ensures
            final(self).moved(
                old(self),
                crate::grammar::assignment(old(self).input(), old(self).at()).1,
            ),
            expr_outcome(result) == crate::grammar::assignment(old(self).input(), old(self).at()).0,
        decreases remaining(old(self).input(), old(self).at()), 20nat,
    {
        let target = match self.binary(0) {
            Ok(target) => target,
            Err(error) => {
                return Err(error);
            },
        };
        if self.check(&TokenKind::Equal) {
            let equals = self.peek();
            self.advance();
            let value = match self.assignment() {
                Ok(value) => value,
                Err(error) => {
                    return Err(error);
                },
            };
            match target {
                Expr::Variable { name } => Ok(Expr::Assign { name, value: Box::new(value) }),
                _ => Err(
                    ParseErr {
                        token: equals,
                        message: String::from_str("Invalid assignment target."),
                    },
                ),
            }
        } else {
            Ok(target)
        }
    }

    fn expression(&mut self) -> (result: Result<Expr, ParseErr>)
        requires
            old(self).ready(),
        ensures
            final(self).moved(
                old(self),
                crate::grammar::expression(old(self).input(), old(self).at()).1,
            ),
            expr_outcome(result) == crate::grammar::expression(old(self).input(), old(self).at()).0,
        decreases remaining(old(self).input(), old(self).at()), 21nat,
    {
        self.assignment()
    }

    /// An expression and the `;` behind it.
    fn terminated(&mut self) -> (result: Result<Expr, ParseErr>)
        requires
            old(self).ready(),
        ensures
            final(self).moved(
                old(self),
                crate::grammar::terminated(old(self).input(), old(self).at()).1,
            ),
            expr_outcome(result) == crate::grammar::terminated(old(self).input(), old(self).at()).0,
        decreases remaining(old(self).input(), old(self).at()), 22nat,
    {
        match self.expression() {
            Ok(expr) => {
                if self.check(&TokenKind::Semicolon) {
                    self.advance();
                    Ok(expr)
                } else {
                    Err(self.error("Expect ';' after value."))
                }
            },
            Err(error) => Err(error),
        }
    }

    fn expression_statement(&mut self) -> (result: Result<Stmt, ParseErr>)
        requires
            old(self).ready(),
        ensures
            final(self).moved(
                old(self),
                crate::grammar::expression_statement(old(self).input(), old(self).at()).1,
            ),
            stmt_outcome(result) == crate::grammar::expression_statement(
                old(self).input(),
                old(self).at(),
            ).0,
        decreases remaining(old(self).input(), old(self).at()), 23nat,
    {
        match self.terminated() {
            Ok(expr) => Ok(Stmt::Expression { expr }),
            Err(error) => Err(error),
        }
    }

    fn print_statement(&mut self) -> (result: Result<Stmt, ParseErr>)
        requires
            old(self).ready(),
        ensures
            final(self).moved(
                old(self),
                crate::grammar::print_statement(old(self).input(), old(self).at()).1,
            ),
            stmt_outcome(result) == crate::grammar::print_statement(
                old(self).input(),
                old(self).at(),
            ).0,
        decreases remaining(old(self).input(), old(self).at()), 23nat,
    {
        match self.terminated() {
            Ok(expr) => Ok(Stmt::Print { expr }),
            Err(error) => Err(error),
        }
    }

    fn var_declaration(&mut self) -> (result: Result<Stmt, ParseErr>)
        requires
            old(self).ready(),
        ensures
            final(self).moved(
                old(self),
                crate::grammar::var_declaration(old(self).input(), old(self).at()).1,
            ),
            stmt_outcome(result) == crate::grammar::var_declaration(
                old(self).input(),
                old(self).at(),
            ).0,
        decreases remaining(old(self).input(), old(self).at()), 23nat,
    {
        if !self.check(&TokenKind::Identifier) {
            return Err(self.error("Expect variable name."));
        }
        let name = self.peek();
        self.advance();
        let initializer = if self.check(&TokenKind::Equal) {
            self.advance();
            match self.expression() {
                Ok(expr) => Some(expr),
                Err(error) => {
                    return Err(error);
                },
            }
        } else {
            None
        };
        if self.check(&TokenKind::Semicolon) {
            self.advance();
            Ok(Stmt::Var { name, initializer })
        } else {
            Err(self.error("Expect ';' after variable declaration."))
        }
    }

    /// A condition in parentheses.
    fn condition(&mut self, opening: &str, closing: &str) -> (result: Result<Expr, ParseErr>)
        requires
            old(self).ready(),
        ensures
            final(self).moved(
                old(self),
                crate::grammar::condition(old(self).input(), old(self).at(), opening@, closing@).1,
            ),
            expr_outcome(result) == crate::grammar::condition(
                old(self).input(),
                old(self).at(),
                opening@,
                closing@,
            ).0,
        decreases remaining(old(self).input(), old(self).at()), 23nat,
    {
        if !self.check(&TokenKind::LeftParen) {
            return Err(self.error(opening));
        }
        self.advance();
        match self.expression() {
            Ok(expr) => {
                if self.check(&TokenKind::RightParen) {
                    self.advance();
                    Ok(expr)
                } else {
                    Err(self.error(closing))
                }
            },
            Err(error) => Err(error),
        }
    }

    fn if_statement(&mut self) -> (result: Result<Stmt, ParseErr>)
        requires
            old(self).ready(),
        ensures
            final(self).moved(
                old(self),
                crate::grammar::if_statement(old(self).input(), old(self).at()).1,
            ),
            stmt_outcome(result) == crate::grammar::if_statement(old(self).input(), old(self).at()).0,
        decreases remaining(old(self).input(), old(self).at()), 24nat,
    {
        let condition = match self.condition(
            "Expect '(' after 'if'.",
            "Expect ')' after if condition.",
        ) {
            Ok(condition) => condition,
            Err(error) => {
                return Err(error);
            },
        };
        let then_branch = match self.statement() {
            Ok(statement) => Box::new(statement),
            Err(error) => {
                return Err(error);
            },
        };
        let else_branch = if self.check(&TokenKind::Else) {
            self.advance();
            match self.statement() {
                Ok(statement) => Some(Box::new(statement)),
                Err(error) => {
                    return Err(error);
                },
            }
        } else {
            None
        };
        Ok(Stmt::If { condition, then_branch, else_branch })
    }

    fn while_statement(&mut self) -> (result: Result<Stmt, ParseErr>)
        requires
            old(self).ready(),
        ensures
            final(self).moved(
                old(self),
                crate::grammar::while_statement(old(self).input(), old(self).at()).1,
            ),
            stmt_outcome(result) == crate::grammar::while_statement(
                old(self).input(),
                old(self).at(),
            ).0,
        decreases remaining(old(self).input(), old(self).at()), 24nat,
    {
        let condition = match self.condition(
            "Expect '(' after 'while'.",
            "Expect ')' after while condition.",
        ) {
            Ok(condition) => condition,
            Err(error) => {
                return Err(error);
            },
        };
        match self.statement() {
            Ok(body) => Ok(Stmt::While { condition, body: Box::new(body) }),
            Err(error) => Err(error),
        }
    }

    fn for_initializer(&mut self) -> (result: Result<Option<Stmt>, ParseErr>)
        requires
            old(self).ready(),
        ensures
            final(self).moved(
                old(self),
                crate::grammar::for_initializer(old(self).input(), old(self).at()).1,
            ),
            optional_stmt_outcome(result) == crate::grammar::for_initializer(
                old(self).input(),
                old(self).at(),
            ).0,
        decreases remaining(old(self).input(), old(self).at()), 24nat,
    {
        if self.check(&TokenKind::Semicolon) {
            self.advance();
            Ok(None)
        } else if self.check(&TokenKind::Var) {
            self.advance();
            match self.var_declaration() {
                Ok(statement) => Ok(Some(statement)),
                Err(error) => Err(error),
            }
        } else {
            match self.expression_statement() {
                Ok(statement) => Ok(Some(statement)),
                Err(error) => Err(error),
            }
        }
    }

    fn for_condition(&mut self) -> (result: Result<Expr, ParseErr>)
        requires
            old(self).ready(),
        ensures
            final(self).moved(
                old(self),
                crate::grammar::for_condition(old(self).input(), old(self).at()).1,
            ),
            expr_outcome(result) == crate::grammar::for_condition(
                old(self).input(),
                old(self).at(),
            ).0,
        decreases remaining(old(self).input(), old(self).at()), 24nat,
    {
        let condition = if self.check(&TokenKind::Semicolon) {
            Expr::Literal { val: Literal::Bool(true) }
        } else {
            match self.expression() {
                Ok(expr) => expr,
                Err(error) => {
                    return Err(error);
                },
            }
        };
        if self.check(&TokenKind::Semicolon) {
            self.advance();
            Ok(condition)
        } else {
            Err(self.error("Expect ';' after loop condition."))
        }
    }

    fn for_increment(&mut self) -> (result: Result<Option<Expr>, ParseErr>)
        requires
            old(self).ready(),
        ensures
            final(self).moved(
                old(self),
                crate::grammar::for_increment(old(self).input(), old(self).at()).1,
            ),
            optional_expr_outcome(result) == crate::grammar::for_increment(
                old(self).input(),
                old(self).at(),
            ).0,
        decreases remaining(old(self).input(), old(self).at()), 24nat,
    {
        let increment = if self.check(&TokenKind::RightParen) {
            None
        } else {
            match self.expression() {
                Ok(expr) => Some(expr),
                Err(error) => {
                    return Err(error);
                },
            }
        };
        if self.check(&TokenKind::RightParen) {
            self.advance();
            Ok(increment)
        } else {
            Err(self.error("Expect ')' after for clauses."))
        }
    }

    /// A `for` loop, which comes out written with `while`.
    fn for_statement(&mut self) -> (result: Result<Stmt, ParseErr>)
        requires
            old(self).ready(),
        ensures
            final(self).moved(
                old(self),
                crate::grammar::for_statement(old(self).input(), old(self).at()).1,
            ),
            stmt_outcome(result) == crate::grammar::for_statement(
                old(self).input(),
                old(self).at(),
            ).0,
        decreases remaining(old(self).input(), old(self).at()), 25nat,
    {
        if !self.check(&TokenKind::LeftParen) {
            return Err(self.error("Expect '(' after 'for'."));
        }
        self.advance();
        let initializer = match self.for_initializer() {
            Ok(initializer) => initializer,
            Err(error) => {
                return Err(error);
            },
        };
        let condition = match self.for_condition() {
            Ok(condition) => condition,
            Err(error) => {
                return Err(error);
            },
        };
        let increment = match self.for_increment() {
            Ok(increment) => increment,
            Err(error) => {
                return Err(error);
            },
        };
        match self.statement() {
            Ok(body) => Ok(desugar_for(initializer, condition, increment, body)),
            Err(error) => Err(error),
        }
    }

    /// The statements of a block up to its closing brace.
    fn block(&mut self) -> (result: Result<Vec<Stmt>, ParseErr>)
        requires
            old(self).ready(),
        ensures
            final(self).moved(
                old(self),
                crate::grammar::block(old(self).input(), old(self).at(), Seq::empty()).1,
            ),
            block_outcome(result) == crate::grammar::block(
                old(self).input(),
                old(self).at(),
                Seq::empty(),
            ).0,
        decreases remaining(old(self).input(), old(self).at()), 40nat,
    {
        let ghost input = self.input();
        let ghost start = self.at();
        let mut statements: Vec<Stmt> = Vec::new();
        assert(statements_view(statements@) =~= Seq::empty());
        loop
            invariant
                self.ready(),
                self.tokens == old(self).tokens,
                input == old(self).input(),
                start == old(self).at(),
                start <= self.at(),
                crate::grammar::block(input, start, Seq::empty()) == shift(
                    crate::grammar::block(input, self.at(), statements_view(statements@)),
                    (self.at() - start) as nat,
                ),
            decreases remaining(input, self.at()),
        {
            if self.check(&TokenKind::RightBrace) {
                self.advance();
                return Ok(statements);
            }
            if self.is_at_end() {
                return Err(self.error("Expect '}' after block."));
            }
            proof {
                lemma_statement_consumes(input, self.at());
            }
            let ghost before = statements_view(statements@);
            match self.declaration() {
                Ok(statement) => {
                    statements.push(statement);
                    assert(statements_view(statements@) =~= before.push(statement@));
                },
                Err(error) => {
                    return Err(error);
                },
            }
        }
    }

    fn statement(&mut self) -> (result: Result<Stmt, ParseErr>)
        requires
            old(self).ready(),
        ensures
            final(self).moved(
                old(self),
                crate::grammar::statement(old(self).input(), old(self).at()).1,
            ),
            stmt_outcome(result) == crate::grammar::statement(old(self).input(), old(self).at()).0,
        decreases remaining(old(self).input(), old(self).at()), 30nat,
    {
        if self.check(&TokenKind::For) {
            self.advance();
            self.for_statement()
        } else if self.check(&TokenKind::If) {
            self.advance();
            self.if_statement()
        } else if self.check(&TokenKind::Print) {
            self.advance();
            self.print_statement()
        } else if self.check(&TokenKind::While) {
            self.advance();
            self.while_statement()
        } else if self.check(&TokenKind::LeftBrace) {
            self.advance();
            match self.block() {
                Ok(statements) => {
                    proof {
                        lemma_block_view(&statements);
                    }
                    Ok(Stmt::Block { statements })
                },
                Err(error) => Err(error),
            }
        } else {
            self.expression_statement()
        }
    }

    fn declaration(&mut self) -> (result: Result<Stmt, ParseErr>)
        requires
            old(self).ready(),
        ensures
            final(self).moved(
                old(self),
                crate::grammar::declaration(old(self).input(), old(self).at()).1,
            ),
            stmt_outcome(result) == crate::grammar::declaration(old(self).input(), old(self).at()).0,
        decreases remaining(old(self).input(), old(self).at()), 31nat,
    {
        if self.check(&TokenKind::Var) {
            self.advance();
            self.var_declaration()
        } else {
            self.statement()
        }
    }

    /// Whether the token at the cursor begins a statement.
    fn at_statement(&self) -> (starts: bool)
        ensures
            starts == starts_statement(kind_at(self.input(), self.at())),
    {
        if self.current < self.tokens.len() {
            match self.tokens[self.current].kind {
                TokenKind::Class
                | TokenKind::Fun
                | TokenKind::Var
                | TokenKind::For
                | TokenKind::If
                | TokenKind::While
                | TokenKind::Print
                | TokenKind::Return => true,
                _ => false,
            }
        } else {
            false
        }
    }

    /// Drops tokens behind a statement that failed, up to the next likely
    /// start of a statement.
    fn synchronize(&mut self)
        requires
            old(self).ready(),
        ensures
            final(self).moved(
                old(self),
                crate::grammar::synchronize(old(self).input(), old(self).at()),
            ),
    {
        let ghost input = self.input();
        let ghost start = self.at();
        if self.is_at_end() {
            return ;
        }
        self.advance();
        while !self.is_at_end()
            invariant
                self.ready(),
                self.tokens == old(self).tokens,
                input == old(self).input(),
                start == old(self).at(),
                start < self.at(),
                crate::grammar::synchronize(input, start) == (self.at() - start)
                    + crate::grammar::skipped(input, self.at()),
            decreases remaining(input, self.at()),
        {
            if self.previous_is(&TokenKind::Semicolon) {
                return ;
            }
            if self.at_statement() {
                return ;
            }
            self.advance();
        }
    }

    /// Reads statements to the end of the input, and recovers behind each one that fails.
    fn parse(&mut self) -> (result: (Vec<Stmt>, Vec<ParseErr>))
        requires
            old(self).ready(),
            old(self).current == 0,
        ensures
            (statements_view(result.0@), errors_view(result.1@)) == crate::grammar::parse(
                old(self).input(),
            ),
    {
        let ghost input = self.input();
        let mut statements: Vec<Stmt> = Vec::new();
        let mut errors: Vec<ParseErr> = Vec::new();
        assert(statements_view(statements@) =~= Seq::empty());
        assert(errors_view(errors@) =~= Seq::empty());
        while !self.is_at_end()
            invariant
                self.ready(),
                input == self.input(),
                crate::grammar::parse(input) == crate::grammar::program(
                    input,
                    self.at(),
                    statements_view(statements@),
                    errors_view(errors@),
                ),
            decreases remaining(input, self.at()),
        {
            proof {
                lemma_statement_consumes(input, self.at());
            }
            let ghost read = statements_view(statements@);
            let ghost found = errors_view(errors@);
            match self.declaration() {
                Ok(statement) => {
                    statements.push(statement);
                    assert(statements_view(statements@) =~= read.push(statement@));
                },
                Err(error) => {
                    self.synchronize();
                    errors.push(error);
                    assert(errors_view(errors@) =~= found.push(error@));
                },
            }
        }
        (statements, errors)
    }
}

/// The statements of a block are the statements that its view lists.
pub proof fn lemma_block_view(statements: &Vec<Stmt>)
    ensures
        (Stmt::Block { statements: *statements })@ == (StmtView::Block {
            statements: statements_view(statements@),
        }),
{
    let block = Stmt::Block { statements: *statements };
    assert(block.model()->Block_statements =~= statements_view(statements@));
}

/// The block that holds two statements.
fn pair(first: Stmt, second: Stmt) -> (block: Stmt)
    ensures
        block@ == (StmtView::Block { statements: seq![first@, second@] }),
{
    let mut statements: Vec<Stmt> = Vec::new();
    statements.push(first);
    statements.push(second);
    proof {
        lemma_block_view(&statements);
        assert(statements_view(statements@) =~= seq![first@, second@]);
    }
    Stmt::Block { statements }
}

/// Writes a `for` loop with `while`: `{ initializer while (condition) { body increment; } }`,
/// without the inner block where there is no increment and without the outer
/// one where there is no initializer.
pub fn desugar_for(
    initializer: Option<Stmt>,
    condition: Expr,
    increment: Option<Expr>,
    body: Stmt,
) -> (statement: Stmt)
    ensures
        statement@ == crate::grammar::desugar_for(
            match initializer {
                Some(first) => Some(first@),
                None => None,
            },
            condition@,
            match increment {
                Some(expr) => Some(expr@),
                None => None,
            },
            body@,
        ),
{
    let repeated = match increment {
        Some(expr) => pair(body, Stmt::Expression { expr }),
        None => body,
    };
    let looped = Stmt::While { condition, body: Box::new(repeated) };
    match initializer {
        Some(first) => pair(first, looped),
        None => looped,
    }
}

/// Parses a token sequence into the statements of the program and the
/// diagnostics for the statements that could not be read.
pub fn parse(tokens: Vec<Token>) -> (result: (Vec<Stmt>, Vec<ParseErr>))
    ensures
        (statements_view(result.0@), errors_view(result.1@)) == crate::grammar::parse(
            tokens_view(tokens@),
        ),
        tokens_placed(tokens_view(tokens@)) ==> all_placed(statements_view(result.0@)),
{
    proof {
        if tokens_placed(tokens_view(tokens@)) {
            lemma_parse_keeps_tokens_placed(tokens_view(tokens@));
        }
    }
    if tokens.len() == 0 {
        let statements: Vec<Stmt> = Vec::new();
        let errors: Vec<ParseErr> = Vec::new();
        assert(statements_view(statements@) =~= Seq::empty());
        assert(errors_view(errors@) =~= Seq::empty());
        (statements, errors)
    } else {
        let mut parser = Parser { tokens, current: 0 };
        parser.parse()
    }
}

} // verus!
