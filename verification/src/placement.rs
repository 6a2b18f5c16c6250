//! The parser puts no token into a tree that it did not find in its input, so
//! a program parsed from tokens that lie inside their sources runs safely.

use crate::balance::{lemma_play, lemma_start_is_well_formed, well_formed};
use crate::environment::EnvironmentView;
use crate::grammar::{
    assignment, at_end, binary, binary_rest, block, condition, declaration, desugar_for,
    expression, for_condition, for_increment, for_initializer, for_statement, if_statement,
    kind_at, operand, parse, primary, program, remaining, statement, synchronize, terminated,
    tighter, unary, var_declaration, while_statement, ParseErrView, LEVELS,
};
use crate::interpret::{InterpreterView, ReplyView, RequestView, RuntimeErrorView};
use crate::stmt::{all_placed, ExprView, StmtView};
use crate::token::{tokens_placed, TokenKindView, TokenView};
use vstd::prelude::*;

verus! {

proof fn lemma_primary(tokens: Seq<TokenView>, pos: nat)
    requires
        tokens_placed(tokens),
    ensures
        primary(tokens, pos).0 matches Ok(expr) ==> expr.is_placed(),
    decreases remaining(tokens, pos), 0nat,
{
    if kind_at(tokens, pos) == TokenKindView::LeftParen {
        lemma_expression(tokens, pos + 1);
    }
}

proof fn lemma_unary(tokens: Seq<TokenView>, pos: nat)
    requires
        tokens_placed(tokens),
    ensures
        unary(tokens, pos).0 matches Ok(expr) ==> expr.is_placed(),
    decreases remaining(tokens, pos), 1nat,
{
    match kind_at(tokens, pos) {
        TokenKindView::Bang | TokenKindView::Minus => {
            lemma_unary(tokens, pos + 1);
        },
        _ => {
            lemma_primary(tokens, pos);
        },
    }
}

proof fn lemma_operand(tokens: Seq<TokenView>, pos: nat, level: nat)
    requires
        tokens_placed(tokens),
    ensures
        operand(tokens, pos, level).0 matches Ok(expr) ==> expr.is_placed(),
    decreases remaining(tokens, pos), tighter(level) + 3,
{
    if level + 1 < LEVELS {
        lemma_binary(tokens, pos, level + 1);
    } else {
        lemma_unary(tokens, pos);
    }
}

proof fn lemma_binary(tokens: Seq<TokenView>, pos: nat, level: nat)
    requires
        tokens_placed(tokens),
    ensures
        binary(tokens, pos, level).0 matches Ok(expr) ==> expr.is_placed(),
    decreases remaining(tokens, pos), tighter(level) + 4,
{
    if level >= LEVELS {
        lemma_unary(tokens, pos);
    } else {
        lemma_operand(tokens, pos, level);
        match operand(tokens, pos, level) {
            (Ok(left), used) => {
                lemma_binary_rest(tokens, pos + used, level, left);
            },
            _ => {},
        }
    }
}

proof fn lemma_binary_rest(tokens: Seq<TokenView>, pos: nat, level: nat, left: ExprView)
    requires
        tokens_placed(tokens),
        left.is_placed(),
    ensures
        binary_rest(tokens, pos, level, left).0 matches Ok(expr) ==> expr.is_placed(),
    decreases remaining(tokens, pos), 2nat,
{
    if crate::grammar::binds_at(level, kind_at(tokens, pos)) {
        lemma_operand(tokens, pos + 1, level);
        match operand(tokens, pos + 1, level) {
            (Ok(right), used) => {
                lemma_binary_rest(
                    tokens,
                    pos + 1 + used,
                    level,
                    crate::grammar::infix(level, left, crate::grammar::token_at(tokens, pos), right),
                );
            },
            _ => {},
        }
    }
}

proof fn lemma_assignment(tokens: Seq<TokenView>, pos: nat)
    requires
        tokens_placed(tokens),
    ensures
        assignment(tokens, pos).0 matches Ok(expr) ==> expr.is_placed(),
    decreases remaining(tokens, pos), 20nat,
{
    lemma_binary(tokens, pos, 0);
    match binary(tokens, pos, 0) {
        (Ok(target), used) => {
            if kind_at(tokens, pos + used) == TokenKindView::Equal {
                lemma_assignment(tokens, pos + used + 1);
            }
        },
        _ => {},
    }
}

proof fn lemma_expression(tokens: Seq<TokenView>, pos: nat)
    requires
        tokens_placed(tokens),
    ensures
        expression(tokens, pos).0 matches Ok(expr) ==> expr.is_placed(),
        terminated(tokens, pos).0 matches Ok(expr) ==> expr.is_placed(),
    decreases remaining(tokens, pos), 21nat,
{
    lemma_assignment(tokens, pos);
}

proof fn lemma_var_declaration(tokens: Seq<TokenView>, pos: nat)
    requires
        tokens_placed(tokens),
    ensures
        var_declaration(tokens, pos).0 matches Ok(statement) ==> statement.is_placed(),
    decreases remaining(tokens, pos), 23nat,
{
    if kind_at(tokens, pos) == TokenKindView::Identifier && kind_at(tokens, pos + 1)
        == TokenKindView::Equal {
        lemma_expression(tokens, pos + 2);
    }
}

proof fn lemma_condition(
    tokens: Seq<TokenView>,
    pos: nat,
    opening: Seq<char>,
    closing: Seq<char>,
)
    requires
        tokens_placed(tokens),
    ensures
        condition(tokens, pos, opening, closing).0 matches Ok(expr) ==> expr.is_placed(),
    decreases remaining(tokens, pos), 23nat,
{
    if kind_at(tokens, pos) == TokenKindView::LeftParen {
        lemma_expression(tokens, pos + 1);
    }
}

proof fn lemma_if_statement(tokens: Seq<TokenView>, pos: nat)
    requires
        tokens_placed(tokens),
    ensures
        if_statement(tokens, pos).0 matches Ok(statement) ==> statement.is_placed(),
    decreases remaining(tokens, pos), 24nat,
{
    let opening = "Expect '(' after 'if'."@;
    let closing = "Expect ')' after if condition."@;
    lemma_condition(tokens, pos, opening, closing);
    match condition(tokens, pos, opening, closing) {
        (Ok(_), used) => {
            lemma_statement(tokens, pos + used);
            match statement(tokens, pos + used) {
                (Ok(_), more) => {
                    if kind_at(tokens, pos + used + more) == TokenKindView::Else {
                        lemma_statement(tokens, pos + used + more + 1);
                    }
                },
                _ => {},
            }
        },
        _ => {},
    }
}

proof fn lemma_while_statement(tokens: Seq<TokenView>, pos: nat)
    requires
        tokens_placed(tokens),
    ensures
        while_statement(tokens, pos).0 matches Ok(statement) ==> statement.is_placed(),
    decreases remaining(tokens, pos), 24nat,
{
    let opening = "Expect '(' after 'while'."@;
    let closing = "Expect ')' after while condition."@;
    lemma_condition(tokens, pos, opening, closing);
    match condition(tokens, pos, opening, closing) {
        (Ok(_), used) => {
            lemma_statement(tokens, pos + used);
        },
        _ => {},
    }
}

/// A `for` loop written with `while` names no variable that its parts do not name.
pub proof fn lemma_desugar_for_placed(
    initializer: Option<StmtView>,
    condition: ExprView,
    increment: Option<ExprView>,
    body: StmtView,
)
    requires
        initializer matches Some(first) ==> first.is_placed(),
        condition.is_placed(),
        increment matches Some(expr) ==> expr.is_placed(),
        body.is_placed(),
    ensures
        desugar_for(initializer, condition, increment, body).is_placed(),
{
    let repeated = match increment {
        Some(expr) => {
            let last = StmtView::Expression { expr };
            assert(last.is_placed());
            lemma_pair_placed(body, last);
            StmtView::Block { statements: seq![body, last] }
        },
        None => body,
    };
    let looped = StmtView::While { condition, body: Box::new(repeated) };
    assert(looped.is_placed());
    match initializer {
        Some(first) => {
            lemma_pair_placed(first, looped);
        },
        None => {},
    }
}

/// A block of two statements names the variables that the two name.
proof fn lemma_pair_placed(first: StmtView, second: StmtView)
    requires
        first.is_placed(),
        second.is_placed(),
    ensures
        (StmtView::Block { statements: seq![first, second] }).is_placed(),
{
    let statements = seq![first, second];
    assert forall|i: int| 0 <= i < statements.len() implies (#[trigger] statements[i]).is_placed() by {
        if i == 0 {
            assert(statements[i] == first);
        } else {
            assert(statements[i] == second);
        }
    }
}

proof fn lemma_for_statement(tokens: Seq<TokenView>, pos: nat)
    requires
        tokens_placed(tokens),
    ensures
        for_statement(tokens, pos).0 matches Ok(statement) ==> statement.is_placed(),
    decreases remaining(tokens, pos), 25nat,
{
    if kind_at(tokens, pos) == TokenKindView::LeftParen {
        let first = pos + 1;
        match kind_at(tokens, first) {
            TokenKindView::Semicolon => {},
            TokenKindView::Var => {
                lemma_var_declaration(tokens, first + 1);
            },
            _ => {
                lemma_expression(tokens, first);
            },
        }
        match for_initializer(tokens, first) {
            (Ok(initializer), a) => {
                let second = first + a;
                if kind_at(tokens, second) != TokenKindView::Semicolon {
                    lemma_expression(tokens, second);
                }
                match for_condition(tokens, second) {
                    (Ok(condition), b) => {
                        let third = second + b;
                        if kind_at(tokens, third) != TokenKindView::RightParen {
                            lemma_expression(tokens, third);
                        }
                        match for_increment(tokens, third) {
                            (Ok(increment), c) => {
                                lemma_statement(tokens, third + c);
                                match statement(tokens, third + c) {
                                    (Ok(body), _) => {
                                        lemma_desugar_for_placed(
                                            initializer,
                                            condition,
                                            increment,
                                            body,
                                        );
                                    },
                                    _ => {},
                                }
                            },
                            _ => {},
                        }
                    },
                    _ => {},
                }
            },
            _ => {},
        }
    }
}

proof fn lemma_block(tokens: Seq<TokenView>, pos: nat, done: Seq<StmtView>)
    requires
        tokens_placed(tokens),
        all_placed(done),
    ensures
        block(tokens, pos, done).0 matches Ok(statements) ==> all_placed(statements),
    decreases remaining(tokens, pos), 40nat,
{
    if kind_at(tokens, pos) != TokenKindView::RightBrace && !at_end(tokens, pos) {
        lemma_declaration(tokens, pos);
        match declaration(tokens, pos) {
            (Ok(statement), used) => {
                if used > 0 {
                    lemma_block(tokens, pos + used, done.push(statement));
                }
            },
            _ => {},
        }
    }
}

proof fn lemma_statement(tokens: Seq<TokenView>, pos: nat)
    requires
        tokens_placed(tokens),
    ensures
        statement(tokens, pos).0 matches Ok(statement) ==> statement.is_placed(),
    decreases remaining(tokens, pos), 30nat,
{
    match kind_at(tokens, pos) {
        TokenKindView::For => {
            lemma_for_statement(tokens, pos + 1);
        },
        TokenKindView::If => {
            lemma_if_statement(tokens, pos + 1);
        },
        TokenKindView::Print => {
            lemma_expression(tokens, pos + 1);
        },
        TokenKindView::While => {
            lemma_while_statement(tokens, pos + 1);
        },
        TokenKindView::LeftBrace => {
            lemma_block(tokens, pos + 1, Seq::empty());
        },
        _ => {
            lemma_expression(tokens, pos);
        },
    }
}

proof fn lemma_declaration(tokens: Seq<TokenView>, pos: nat)
    requires
        tokens_placed(tokens),
    ensures
        declaration(tokens, pos).0 matches Ok(statement) ==> statement.is_placed(),
    decreases remaining(tokens, pos), 31nat,
{
    if kind_at(tokens, pos) == TokenKindView::Var {
        lemma_var_declaration(tokens, pos + 1);
    } else {
        lemma_statement(tokens, pos);
    }
}

proof fn lemma_program(
    tokens: Seq<TokenView>,
    pos: nat,
    statements: Seq<StmtView>,
    errors: Seq<ParseErrView>,
)
    requires
        tokens_placed(tokens),
        all_placed(statements),
    ensures
        all_placed(program(tokens, pos, statements, errors).0),
    decreases remaining(tokens, pos), 50nat,
{
    if !at_end(tokens, pos) {
        lemma_declaration(tokens, pos);
        match declaration(tokens, pos) {
            (Ok(statement), used) => {
                if used > 0 {
                    lemma_program(tokens, pos + used, statements.push(statement), errors);
                }
            },
            (Err(error), used) => {
                lemma_program(
                    tokens,
                    pos + used + synchronize(tokens, pos + used),
                    statements,
                    errors.push(error),
                );
            },
        }
    }
}

/// The parser takes the tokens of its trees from its input: where every token
/// of the input lies inside its source, so does every token that names a
/// variable in the statements.
pub proof fn lemma_parse_keeps_tokens_placed(tokens: Seq<TokenView>)
    requires
        tokens_placed(tokens),
    ensures
        all_placed(parse(tokens).0),
{
    lemma_program(tokens, 0, Seq::empty(), Seq::empty());
}

/// A program parsed from tokens that lie inside their sources runs without
/// the machine ever finding its own state broken: whatever the host replies,
/// no step misses a value or a token that it needs.
pub proof fn lemma_parsed_program_is_safe(
    tokens: Seq<TokenView>,
    environment: EnvironmentView,
    replies: Seq<ReplyView>,
)
    requires
        tokens_placed(tokens),
        environment.depth() >= 1,
    ensures
        ({
            let machine = InterpreterView::start(parse(tokens).0, environment);
            &&& well_formed(machine)
            &&& well_formed(machine.play(replies).0)
            &&& forall|i: int|
                0 <= i < replies.len() ==> #[trigger] machine.play(replies).1[i] != (
                RequestView::Failed { error: RuntimeErrorView::Malformed })
        }),
{
    lemma_parse_keeps_tokens_placed(tokens);
    let machine = InterpreterView::start(parse(tokens).0, environment);
    lemma_start_is_well_formed(parse(tokens).0, environment);
    lemma_play(machine, replies);
}

} // verus!
