//! The parser reads expressions as they are written: the tree of an
//! expression spells the tokens that were consumed for it.

use crate::grammar::{
    assignment, binary, binary_rest, binds_at, expression, infix, kind_at, operand, primary,
    remaining, terminated, tighter, token_at, unary, LEVELS,
};
use crate::stmt::ExprView;
use crate::token::{LiteralView, TokenKindView, TokenView};
use vstd::prelude::*;

verus! {

impl LiteralView {
    /// The kind of the token that denotes the value.
    pub open spec fn token_kind(self) -> TokenKindView {
        match self {
            LiteralView::Bool(true) => TokenKindView::True,
            LiteralView::Bool(false) => TokenKindView::False,
            LiteralView::Nil => TokenKindView::Nil,
            LiteralView::Number(bits) => TokenKindView::Number(bits),
            LiteralView::Str(text) => TokenKindView::Str(text),
        }
    }
}

impl ExprView {
    /// The kinds of the tokens that spell the expression, in order: operands
    /// around their operators, and parentheses around what they group.
    pub open spec fn spelling(self) -> Seq<TokenKindView>
        decreases self,
    {
        match self {
            ExprView::Literal { val } => seq![val.token_kind()],
            ExprView::Grouping { expr } => seq![TokenKindView::LeftParen] + expr.spelling()
                + seq![TokenKindView::RightParen],
            ExprView::Variable { name } => seq![name.kind],
            ExprView::Unary { operator, right } => seq![operator.kind] + right.spelling(),
            ExprView::Binary { left, operator, right } => left.spelling() + seq![operator.kind]
                + right.spelling(),
            ExprView::Logical { left, operator, right } => left.spelling() + seq![operator.kind]
                + right.spelling(),
            ExprView::Assign { name, value } => seq![name.kind, TokenKindView::Equal]
                + value.spelling(),
        }
    }
}

/// The kinds of the tokens from `from` up to `to`.
pub open spec fn spelled(tokens: Seq<TokenView>, from: nat, to: nat) -> Seq<TokenKindView> {
    Seq::new((to - from) as nat, |i: int| tokens[from + i].kind)
}

/// What a rule has read is spelled by the tokens that it consumed: it has
/// stayed inside the input, and the tree that it returns, written out again,
/// gives the kinds of exactly those tokens.
pub open spec fn reads_what_is_written(
    tokens: Seq<TokenView>,
    pos: nat,
    parsed: (Result<ExprView, crate::grammar::ParseErrView>, nat),
) -> bool {
    parsed.0 matches Ok(expr) ==> pos + parsed.1 <= tokens.len() && expr.spelling() == spelled(
        tokens,
        pos,
        pos + parsed.1,
    )
}

proof fn lemma_join(tokens: Seq<TokenView>, from: nat, mid: nat, to: nat)
    requires
        from <= mid <= to <= tokens.len(),
    ensures
        spelled(tokens, from, to) == spelled(tokens, from, mid) + spelled(tokens, mid, to),
{
    assert(spelled(tokens, from, to) =~= spelled(tokens, from, mid) + spelled(tokens, mid, to));
}

proof fn lemma_one(tokens: Seq<TokenView>, pos: nat)
    requires
        pos < tokens.len(),
    ensures
        spelled(tokens, pos, pos + 1) == seq![tokens[pos as int].kind],
{
    assert(spelled(tokens, pos, pos + 1) =~= seq![tokens[pos as int].kind]);
}

proof fn lemma_primary(tokens: Seq<TokenView>, pos: nat)
    ensures
        reads_what_is_written(tokens, pos, primary(tokens, pos)),
    decreases remaining(tokens, pos), 0nat,
{
    if pos < tokens.len() {
        lemma_one(tokens, pos);
        if kind_at(tokens, pos) == TokenKindView::LeftParen {
            lemma_expression(tokens, pos + 1);
            match expression(tokens, pos + 1) {
                (Ok(inner), used) => {
                    let close = pos + 1 + used;
                    if kind_at(tokens, close) == TokenKindView::RightParen {
                        lemma_one(tokens, close);
                        lemma_join(tokens, pos, pos + 1, close);
                        lemma_join(tokens, pos, close, close + 1);
                    }
                },
                _ => {},
            }
        }
    }
}

proof fn lemma_unary(tokens: Seq<TokenView>, pos: nat)
    ensures
        reads_what_is_written(tokens, pos, unary(tokens, pos)),
    decreases remaining(tokens, pos), 1nat,
{
    match kind_at(tokens, pos) {
        TokenKindView::Bang | TokenKindView::Minus => {
            lemma_unary(tokens, pos + 1);
            match unary(tokens, pos + 1) {
                (Ok(_), used) => {
                    lemma_one(tokens, pos);
                    lemma_join(tokens, pos, pos + 1, pos + 1 + used);
                },
                _ => {},
            }
        },
        _ => {
            lemma_primary(tokens, pos);
        },
    }
}

proof fn lemma_operand(tokens: Seq<TokenView>, pos: nat, level: nat)
    ensures
        reads_what_is_written(tokens, pos, operand(tokens, pos, level)),
    decreases remaining(tokens, pos), tighter(level) + 3,
{
    if level + 1 < LEVELS {
        lemma_binary(tokens, pos, level + 1);
    } else {
        lemma_unary(tokens, pos);
    }
}

proof fn lemma_binary(tokens: Seq<TokenView>, pos: nat, level: nat)
    ensures
        reads_what_is_written(tokens, pos, binary(tokens, pos, level)),
    decreases remaining(tokens, pos), tighter(level) + 4,
{
    if level >= LEVELS {
        lemma_unary(tokens, pos);
    } else {
        lemma_operand(tokens, pos, level);
        match operand(tokens, pos, level) {
            (Ok(left), used) => {
                lemma_binary_rest(tokens, pos, pos + used, level, left);
            },
            _ => {},
        }
    }
}

proof fn lemma_binary_rest(tokens: Seq<TokenView>, start: nat, pos: nat, level: nat, left: ExprView)
    requires
        start <= pos <= tokens.len(),
        left.spelling() == spelled(tokens, start, pos),
    ensures
        binary_rest(tokens, pos, level, left).0 matches Ok(expr) ==> pos + binary_rest(
            tokens,
            pos,
            level,
            left,
        ).1 <= tokens.len() && expr.spelling() == spelled(
            tokens,
            start,
            pos + binary_rest(tokens, pos, level, left).1,
        ),
    decreases remaining(tokens, pos), 2nat,
{
    if binds_at(level, kind_at(tokens, pos)) {
        lemma_operand(tokens, pos + 1, level);
        match operand(tokens, pos + 1, level) {
            (Ok(right), used) => {
                let joined = infix(level, left, token_at(tokens, pos), right);
                lemma_one(tokens, pos);
                lemma_join(tokens, start, pos, pos + 1);
                lemma_join(tokens, start, pos + 1, pos + 1 + used);
                lemma_binary_rest(tokens, start, pos + 1 + used, level, joined);
            },
            _ => {},
        }
    }
}

proof fn lemma_assignment(tokens: Seq<TokenView>, pos: nat)
    ensures
        reads_what_is_written(tokens, pos, assignment(tokens, pos)),
    decreases remaining(tokens, pos), 20nat,
{
    lemma_binary(tokens, pos, 0);
    match binary(tokens, pos, 0) {
        (Ok(target), used) => {
            let equal = pos + used;
            if kind_at(tokens, equal) == TokenKindView::Equal {
                lemma_assignment(tokens, equal + 1);
                match assignment(tokens, equal + 1) {
                    (Ok(value), more) => {
                        match target {
                            ExprView::Variable { name } => {
                                assert(target.spelling().len() == 1);
                                assert(used == 1);
                                assert(target.spelling()[0] == name.kind);
                                lemma_one(tokens, pos);
                                lemma_one(tokens, equal);
                                lemma_join(tokens, pos, equal, equal + 1);
                                lemma_join(tokens, pos, equal + 1, equal + 1 + more);
                                assert(seq![name.kind, TokenKindView::Equal] =~= seq![name.kind]
                                    + seq![TokenKindView::Equal]);
                            },
                            _ => {},
                        }
                    },
                    _ => {},
                }
            }
        },
        _ => {},
    }
}

/// The parser reads an expression as it is written: an expression that was
/// read lies inside the input, and written out again, operands around their
/// operators and parentheses around what they group, it gives the kinds of
/// exactly the tokens that were consumed, in their order.
pub proof fn lemma_expression(tokens: Seq<TokenView>, pos: nat)
    ensures
        reads_what_is_written(tokens, pos, expression(tokens, pos)),
    decreases remaining(tokens, pos), 21nat,
{
    lemma_assignment(tokens, pos);
}

/// The same of an expression with the `;` behind it: the tokens consumed are
/// those of the expression and the `;`.
pub proof fn lemma_terminated(tokens: Seq<TokenView>, pos: nat)
    ensures
        terminated(tokens, pos).0 matches Ok(expr) ==> pos + terminated(tokens, pos).1
            <= tokens.len() && expr.spelling() + seq![TokenKindView::Semicolon] == spelled(
            tokens,
            pos,
            pos + terminated(tokens, pos).1,
        ),
{
    lemma_expression(tokens, pos);
    match expression(tokens, pos) {
        (Ok(_), used) => {
            if kind_at(tokens, pos + used) == TokenKindView::Semicolon {
                lemma_one(tokens, pos + used);
                lemma_join(tokens, pos, pos + used, pos + used + 1);
            }
        },
        _ => {},
    }
}

} // verus!
