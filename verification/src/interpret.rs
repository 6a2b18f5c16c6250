//! The interpreter: a machine that runs a program step by step and asks its
//! host for arithmetic, for the text of numbers and for output.

use crate::environment::{Environment, EnvironmentView};
use crate::balance::{lemma_start_is_well_formed, lemma_step, well_formed};
use crate::parse::lemma_block_view;
use crate::number::{less, less_equal, negate, negated, number_less, number_less_equal};
use crate::stmt::{all_placed, statements_view, Expr, ExprView, Stmt, StmtView};
use crate::token::{
    tokens_view, Literal, LiteralView, Token, TokenKind, TokenKindView, TokenView, ValueKind,
};
use vstd::prelude::*;
use vstd::string::StringExecFns;

verus! {

/// Arithmetic on numbers that the host carries out.
#[derive(Clone, Copy, Debug, PartialEq, Eq, Structural)]
pub enum Operation {
    Add,
    Subtract,
    Multiply,
}

/// Why a program stopped before its end.
#[derive(Debug, PartialEq)]
pub enum RuntimeError {
    /// A name was read or assigned that no visible scope declares, or it was
    /// read before it held a value.
    UndefinedVariable { name: Token },
    /// An operator met operands of kinds that it has no meaning for. A prefix
    /// operator has no left operand.
    TypeMismatch { operator: Token, left: Option<ValueKind>, right: ValueKind },
    /// The program holds a token whose span leaves its source, or the machine
    /// was asked to go on without the operands that its next step needs.
    Malformed,
    /// The host answered a request with a reply of the wrong kind.
    UnexpectedReply,
}

/// The mathematical content of a [`RuntimeError`].
pub enum RuntimeErrorView {
    UndefinedVariable { name: TokenView },
    TypeMismatch { operator: TokenView, left: Option<ValueKind>, right: ValueKind },
    Malformed,
    UnexpectedReply,
}

impl View for RuntimeError {
    type V = RuntimeErrorView;

    open spec fn view(&self) -> RuntimeErrorView {
        match self {
            RuntimeError::UndefinedVariable { name } => RuntimeErrorView::UndefinedVariable {
                name: name@,
            },
            RuntimeError::TypeMismatch { operator, left, right } => RuntimeErrorView::TypeMismatch {
                operator: operator@,
                left: *left,
                right: *right,
            },
            RuntimeError::Malformed => RuntimeErrorView::Malformed,
            RuntimeError::UnexpectedReply => RuntimeErrorView::UnexpectedReply,
        }
    }
}

/// What the machine asks of its host after a step.
#[derive(Debug, PartialEq)]
pub enum Request {
    /// Nothing; the machine has more steps to take.
    Continue,
    /// Write the text and a line end to the output.
    Print { text: String },
    /// Compute `left operation right` on binary64 values given by their bit
    /// patterns, and reply with the bit pattern of the result.
    Arithmetic { operation: Operation, left: u64, right: u64 },
    /// Reply with the decimal text of the binary64 value with this bit pattern.
    Format { number: u64 },
    /// The program has run to its end.
    Finished,
    /// The program stopped on an error; no statement after it was run.
    Failed { error: RuntimeError },
}

/// The mathematical content of a [`Request`].
pub enum RequestView {
    Continue,
    Print { text: Seq<char> },
    Arithmetic { operation: Operation, left: u64, right: u64 },
    Format { number: u64 },
    Finished,
    Failed { error: RuntimeErrorView },
}

impl View for Request {
    type V = RequestView;

    open spec fn view(&self) -> RequestView {
        match self {
            Request::Continue => RequestView::Continue,
            Request::Print { text } => RequestView::Print { text: text@ },
            Request::Arithmetic { operation, left, right } => RequestView::Arithmetic {
                operation: *operation,
                left: *left,
                right: *right,
            },
            Request::Format { number } => RequestView::Format { number: *number },
            Request::Finished => RequestView::Finished,
            Request::Failed { error } => RequestView::Failed { error: error@ },
        }
    }
}

/// What the host hands to the machine with a step.
#[derive(Debug, PartialEq)]
pub enum Reply {
    /// The last request asked for no answer.
    Nothing,
    /// The result of an [`Request::Arithmetic`], as a bit pattern.
    Number(u64),
    /// The text that a [`Request::Format`] asked for.
    Text(String),
}

/// The mathematical content of a [`Reply`].
pub enum ReplyView {
    Nothing,
    Number(u64),
    Text(Seq<char>),
}

impl View for Reply {
    type V = ReplyView;

    open spec fn view(&self) -> ReplyView {
        match self {
            Reply::Nothing => ReplyView::Nothing,
            Reply::Number(bits) => ReplyView::Number(*bits),
            Reply::Text(text) => ReplyView::Text(text@),
        }
    }
}

/// The answer that the machine waits for.
#[derive(Clone, Copy, Debug, PartialEq, Eq, Structural)]
pub enum Awaiting {
    Nothing,
    /// The result of an arithmetic request; it becomes the top value.
    Number,
    /// The text of the number on top of the values; it takes the number's place.
    Text,
    /// The text of the number below the top value; it takes the number's place.
    TextBelow,
}

impl LiteralView {
    /// The text that stands for the value in output and in concatenation. The
    /// text of a number is not defined here: the host supplies it.
    pub open spec fn text(self) -> Option<Seq<char>> {
        match self {
            LiteralView::Bool(true) => Some("true"@),
            LiteralView::Bool(false) => Some("false"@),
            LiteralView::Nil => Some("nil"@),
            LiteralView::Number(_) => None,
            LiteralView::Str(text) => Some(text),
        }
    }
}

impl Literal {
    /// The text that stands for the value, for every value but a number.
    pub fn text(&self) -> (text: Option<String>)
        ensures
            text.is_some() == self@.text().is_some(),
            text.is_some() ==> text.unwrap()@ == self@.text().unwrap(),
            text.is_none() <==> self@.kind() == ValueKind::Number,
    {
        match self {
            Literal::Bool(true) => Some(String::from_str("true")),
            Literal::Bool(false) => Some(String::from_str("false")),
            Literal::Nil => Some(String::from_str("nil")),
            Literal::Number(_) => None,
            Literal::Str(text) => Some(text.clone()),
        }
    }

    /// Whether two values are equal: of one kind, and the same truth value,
    /// bit pattern or text.
    pub fn equals(&self, other: &Literal) -> (equal: bool)
        ensures
            equal == (self@ == other@),
    {
        match (self, other) {
            (Literal::Bool(a), Literal::Bool(b)) => *a == *b,
            (Literal::Nil, Literal::Nil) => true,
            (Literal::Number(a), Literal::Number(b)) => *a == *b,
            (Literal::Str(a), Literal::Str(b)) => *a == *b,
            _ => false,
        }
    }
}

/// What a prefix operator makes of its operand: a value, or no value when the
/// operator has no meaning for an operand of that kind.
pub open spec fn unary_outcome(operator: TokenKindView, operand: LiteralView) -> Option<
    LiteralView,
> {
    match operator {
        TokenKindView::Bang => Some(LiteralView::Bool(!operand.is_truthy())),
        TokenKindView::Minus => match operand {
            LiteralView::Number(bits) => Some(LiteralView::Number(negated(bits))),
            _ => None,
        },
        _ => None,
    }
}

/// How an infix operator goes on once both operands are values.
pub enum BinaryOutcome {
    /// The result is known.
    Value(LiteralView),
    /// Both operands are numbers and the host computes the result.
    Arithmetic(Operation),
    /// The left operand is a number that meets a text: the host supplies the
    /// number's text, and the operator is applied again.
    TextOfLeft,
    /// The same for the right operand.
    TextOfRight,
    /// The operator has no meaning for operands of these kinds.
    Mismatch,
}

/// What an infix operator makes of two values. `-` and `*` take numbers and
/// `+` numbers or texts; the comparisons take numbers and are decided on the
/// bit patterns; `==` and `!=` take any two values. No other operator, `/`
/// among them, has a meaning for any operands.
pub open spec fn binary_outcome(
    operator: TokenKindView,
    left: LiteralView,
    right: LiteralView,
) -> BinaryOutcome {
    match operator {
        TokenKindView::Minus => match (left, right) {
            (LiteralView::Number(_), LiteralView::Number(_)) => BinaryOutcome::Arithmetic(
                Operation::Subtract,
            ),
            _ => BinaryOutcome::Mismatch,
        },
        TokenKindView::Star => match (left, right) {
            (LiteralView::Number(_), LiteralView::Number(_)) => BinaryOutcome::Arithmetic(
                Operation::Multiply,
            ),
            _ => BinaryOutcome::Mismatch,
        },
        TokenKindView::Plus => match (left, right) {
            (LiteralView::Number(_), LiteralView::Number(_)) => BinaryOutcome::Arithmetic(
                Operation::Add,
            ),
            (LiteralView::Number(_), LiteralView::Str(_)) => BinaryOutcome::TextOfLeft,
            (LiteralView::Str(_), LiteralView::Number(_)) => BinaryOutcome::TextOfRight,
            (LiteralView::Str(a), other) => BinaryOutcome::Value(
                LiteralView::Str(a + other.text().unwrap()),
            ),
            (other, LiteralView::Str(b)) => BinaryOutcome::Value(
                LiteralView::Str(other.text().unwrap() + b),
            ),
            _ => BinaryOutcome::Mismatch,
        },
        TokenKindView::Greater => match (left, right) {
            (LiteralView::Number(a), LiteralView::Number(b)) => BinaryOutcome::Value(
                LiteralView::Bool(less(b, a)),
            ),
            _ => BinaryOutcome::Mismatch,
        },
        TokenKindView::GreaterEqual => match (left, right) {
            (LiteralView::Number(a), LiteralView::Number(b)) => BinaryOutcome::Value(
                LiteralView::Bool(less_equal(b, a)),
            ),
            _ => BinaryOutcome::Mismatch,
        },
        TokenKindView::Less => match (left, right) {
            (LiteralView::Number(a), LiteralView::Number(b)) => BinaryOutcome::Value(
                LiteralView::Bool(less(a, b)),
            ),
            _ => BinaryOutcome::Mismatch,
        },
        TokenKindView::LessEqual => match (left, right) {
            (LiteralView::Number(a), LiteralView::Number(b)) => BinaryOutcome::Value(
                LiteralView::Bool(less_equal(a, b)),
            ),
            _ => BinaryOutcome::Mismatch,
        },
        TokenKindView::BangEqual => BinaryOutcome::Value(LiteralView::Bool(left != right)),
        TokenKindView::EqualEqual => BinaryOutcome::Value(LiteralView::Bool(left == right)),
        _ => BinaryOutcome::Mismatch,
    }
}

/// Whether `and` or `or` is decided by its left operand alone: `or` by a left
/// operand that counts as true, every other operator by one that counts as false.
pub open spec fn decided_by_left(operator: TokenKindView, left: LiteralView) -> bool {
    if operator == TokenKindView::Or {
        left.is_truthy()
    } else {
        !left.is_truthy()
    }
}

/// A piece of pending work. The machine keeps these on a stack and works on the
/// one on top.
#[derive(Clone, Copy)]
pub enum Frame<'a> {
    /// Run the statements from `next` on, in order.
    Run { statements: &'a Vec<Stmt>, next: usize },
    /// Evaluate the expression and put its value on top of the values.
    Eval { expr: &'a Expr },
    /// Drop the top value.
    Discard,
    /// Write the top value out.
    Emit,
    /// Bind the name to the top value in the innermost scope.
    Define { name: &'a Token },
    /// Leave the innermost scope.
    PopScope,
    /// Run one of the branches, as the top value decides.
    Branch { then_branch: &'a Stmt, else_branch: Option<&'a Stmt> },
    /// Run the body and come back to the condition while the top value counts as true.
    Loop { condition: &'a Expr, body: &'a Stmt },
    /// Apply the prefix operator to the top value.
    Unary { operator: &'a Token },
    /// Apply the infix operator to the two top values.
    Binary { operator: &'a Token },
    /// Keep the top value as the result, or evaluate `right` in its place.
    Logical { operator: &'a Token, right: &'a Expr },
    /// Assign the top value to the name; the value stays as the result.
    Store { name: &'a Token },
}

/// The mathematical content of a [`Frame`].
pub enum FrameView {
    Run { statements: Seq<StmtView>, next: nat },
    Eval { expr: ExprView },
    Discard,
    Emit,
    Define { name: TokenView },
    PopScope,
    Branch { then_branch: StmtView, else_branch: Option<StmtView> },
    Loop { condition: ExprView, body: StmtView },
    Unary { operator: TokenView },
    Binary { operator: TokenView },
    Logical { operator: TokenView, right: ExprView },
    Store { name: TokenView },
}

impl<'a> View for Frame<'a> {
    type V = FrameView;

    open spec fn view(&self) -> FrameView {
        match self {
            Frame::Run { statements, next } => FrameView::Run {
                statements: statements_view(statements@),
                next: *next as nat,
            },
            Frame::Eval { expr } => FrameView::Eval { expr: expr@ },
            Frame::Discard => FrameView::Discard,
            Frame::Emit => FrameView::Emit,
            Frame::Define { name } => FrameView::Define { name: name@ },
            Frame::PopScope => FrameView::PopScope,
            Frame::Branch { then_branch, else_branch } => FrameView::Branch {
                then_branch: then_branch@,
                else_branch: match else_branch {
                    Some(branch) => Some(branch@),
                    None => None,
                },
            },
            Frame::Loop { condition, body } => FrameView::Loop {
                condition: condition@,
                body: body@,
            },
            Frame::Unary { operator } => FrameView::Unary { operator: operator@ },
            Frame::Binary { operator } => FrameView::Binary { operator: operator@ },
            Frame::Logical { operator, right } => FrameView::Logical {
                operator: operator@,
                right: right@,
            },
            Frame::Store { name } => FrameView::Store { name: name@ },
        }
    }
}

/// The state of the machine: the scopes, the pending work with the next piece
/// last, the values computed and not yet used with the newest last, the answer
/// that is awaited, and the number of scopes above the top level that were
/// there when the program started.
pub struct InterpreterView {
    pub environment: EnvironmentView,
    pub control: Seq<FrameView>,
    pub values: Seq<LiteralView>,
    pub awaiting: Awaiting,
    pub nesting: nat,
}

impl InterpreterView {
    /// The machine before the first step of a program.
    pub open spec fn start(statements: Seq<StmtView>, environment: EnvironmentView) -> Self {
        InterpreterView {
            environment,
            control: seq![FrameView::Run { statements, next: 0 }],
            values: Seq::empty(),
            awaiting: Awaiting::Nothing,
            nesting: environment.nesting(),
        }
    }

    pub open spec fn with_frame(self, frame: FrameView) -> Self {
        InterpreterView { control: self.control.push(frame), ..self }
    }

    pub open spec fn without_frame(self) -> Self {
        InterpreterView { control: self.control.drop_last(), ..self }
    }

    pub open spec fn with_value(self, value: LiteralView) -> Self {
        InterpreterView { values: self.values.push(value), ..self }
    }

    pub open spec fn without_value(self) -> Self {
        InterpreterView { values: self.values.drop_last(), ..self }
    }

    pub open spec fn with_environment(self, environment: EnvironmentView) -> Self {
        InterpreterView { environment, ..self }
    }

    pub open spec fn with_awaiting(self, awaiting: Awaiting) -> Self {
        InterpreterView { awaiting, ..self }
    }

    /// The machine goes on without asking anything of the host.
    pub open spec fn proceed(self) -> (Self, RequestView) {
        (self, RequestView::Continue)
    }

    /// The program stops: the pending work and the values are dropped, and
    /// every scope entered since the start is left.
    pub open spec fn fail(self, error: RuntimeErrorView) -> (Self, RequestView) {
        (
            InterpreterView {
                environment: self.environment.unwind(self.nesting),
                control: Seq::empty(),
                values: Seq::empty(),
                awaiting: Awaiting::Nothing,
                nesting: self.nesting,
            },
            RequestView::Failed { error },
        )
    }

    /// Takes in the host's reply. A reply is read only when one is awaited;
    /// one of the wrong kind gives no machine.
    pub open spec fn receive(self, reply: ReplyView) -> Option<Self> {
        match self.awaiting {
            Awaiting::Nothing => Some(self),
            Awaiting::Number => match reply {
                ReplyView::Number(bits) => Some(
                    self.with_awaiting(Awaiting::Nothing).with_value(LiteralView::Number(bits)),
                ),
                _ => None,
            },
            Awaiting::Text => match reply {
                ReplyView::Text(text) => if self.values.len() >= 1 {
                    Some(
                        InterpreterView {
                            values: self.values.update(
                                self.values.len() - 1,
                                LiteralView::Str(text),
                            ),
                            awaiting: Awaiting::Nothing,
                            ..self
                        },
                    )
                } else {
                    None
                },
                _ => None,
            },
            Awaiting::TextBelow => match reply {
                ReplyView::Text(text) => if self.values.len() >= 2 {
                    Some(
                        InterpreterView {
                            values: self.values.update(
                                self.values.len() - 2,
                                LiteralView::Str(text),
                            ),
                            awaiting: Awaiting::Nothing,
                            ..self
                        },
                    )
                } else {
                    None
                },
                _ => None,
            },
        }
    }

    /// Starts a statement: its first piece of work goes on top of the pending work.
    pub open spec fn begin(self, statement: StmtView) -> (Self, RequestView) {
        match statement {
            StmtView::Expression { expr } => self.with_frame(FrameView::Discard).with_frame(
                FrameView::Eval { expr },
            ).proceed(),
            StmtView::Print { expr } => self.with_frame(FrameView::Emit).with_frame(
                FrameView::Eval { expr },
            ).proceed(),
            StmtView::Var { name, initializer } => match initializer {
                Some(expr) => self.with_frame(FrameView::Define { name }).with_frame(
                    FrameView::Eval { expr },
                ).proceed(),
                None => if name.is_placed() {
                    self.with_environment(self.environment.define(name.name(), None)).proceed()
                } else {
                    self.fail(RuntimeErrorView::Malformed)
                },
            },
            StmtView::Block { statements } => self.with_environment(
                self.environment.push(),
            ).with_frame(FrameView::PopScope).with_frame(
                FrameView::Run { statements, next: 0 },
            ).proceed(),
            StmtView::If { condition, then_branch, else_branch } => self.with_frame(
                FrameView::Branch {
                    then_branch: *then_branch,
                    else_branch: match else_branch {
                        Some(branch) => Some(*branch),
                        None => None,
                    },
                },
            ).with_frame(FrameView::Eval { expr: condition }).proceed(),
            StmtView::While { condition, body } => self.with_frame(
                FrameView::Loop { condition, body: *body },
            ).with_frame(FrameView::Eval { expr: condition }).proceed(),
        }
    }

    /// Takes an expression apart: a constant or a variable gives its value, an
    /// operator puts its own work under that of its operands.
    pub open spec fn evaluate(self, expr: ExprView) -> (Self, RequestView) {
        match expr {
            ExprView::Literal { val } => self.with_value(val).proceed(),
            ExprView::Grouping { expr } => self.with_frame(FrameView::Eval { expr: *expr }).proceed(),
            ExprView::Variable { name } => if !name.is_placed() {
                self.fail(RuntimeErrorView::Malformed)
            } else {
                match self.environment.get(name.name()) {
                    Some(value) => self.with_value(value).proceed(),
                    None => self.fail(RuntimeErrorView::UndefinedVariable { name }),
                }
            },
            ExprView::Unary { operator, right } => self.with_frame(
                FrameView::Unary { operator },
            ).with_frame(FrameView::Eval { expr: *right }).proceed(),
            ExprView::Binary { left, operator, right } => self.with_frame(
                FrameView::Binary { operator },
            ).with_frame(FrameView::Eval { expr: *right }).with_frame(
                FrameView::Eval { expr: *left },
            ).proceed(),
            ExprView::Logical { left, operator, right } => self.with_frame(
                FrameView::Logical { operator, right: *right },
            ).with_frame(FrameView::Eval { expr: *left }).proceed(),
            ExprView::Assign { name, value } => self.with_frame(FrameView::Store { name }).with_frame(
                FrameView::Eval { expr: *value },
            ).proceed(),
        }
    }

    /// Writes the top value out. The text of a number is asked of the host
    /// first; it comes back in the number's place, and the value is written then.
    pub open spec fn emit(self) -> (Self, RequestView) {
        if self.values.len() == 0 {
            self.fail(RuntimeErrorView::Malformed)
        } else {
            match self.values.last() {
                LiteralView::Number(bits) => (
                    self.with_awaiting(Awaiting::Text),
                    RequestView::Format { number: bits },
                ),
                value => (
                    self.without_frame().without_value(),
                    RequestView::Print { text: value.text().unwrap() },
                ),
            }
        }
    }

    /// Applies a prefix operator to the top value.
    pub open spec fn apply_unary(self, operator: TokenView) -> (Self, RequestView) {
        if self.values.len() == 0 {
            self.fail(RuntimeErrorView::Malformed)
        } else {
            let operand = self.values.last();
            match unary_outcome(operator.kind, operand) {
                Some(value) => self.without_frame().without_value().with_value(value).proceed(),
                None => self.fail(
                    RuntimeErrorView::TypeMismatch {
                        operator,
                        left: None,
                        right: operand.kind(),
                    },
                ),
            }
        }
    }

    /// Applies an infix operator to the two top values, the right operand on top.
    pub open spec fn apply_binary(self, operator: TokenView) -> (Self, RequestView) {
        if self.values.len() < 2 {
            self.fail(RuntimeErrorView::Malformed)
        } else {
            let right = self.values.last();
            let left = self.values[self.values.len() - 2];
            let rest = self.without_frame().without_value().without_value();
            match binary_outcome(operator.kind, left, right) {
                BinaryOutcome::Value(value) => rest.with_value(value).proceed(),
                BinaryOutcome::Arithmetic(operation) => (
                    rest.with_awaiting(Awaiting::Number),
                    RequestView::Arithmetic {
                        operation,
                        left: left->Number_0,
                        right: right->Number_0,
                    },
                ),
                BinaryOutcome::TextOfLeft => (
                    self.with_awaiting(Awaiting::TextBelow),
                    RequestView::Format { number: left->Number_0 },
                ),
                BinaryOutcome::TextOfRight => (
                    self.with_awaiting(Awaiting::Text),
                    RequestView::Format { number: right->Number_0 },
                ),
                BinaryOutcome::Mismatch => self.fail(
                    RuntimeErrorView::TypeMismatch {
                        operator,
                        left: Some(left.kind()),
                        right: right.kind(),
                    },
                ),
            }
        }
    }

    /// Decides `and` and `or` once the left operand is a value: that value is
    /// the result where it decides, and the right operand is evaluated in its
    /// place where it does not.
    pub open spec fn apply_logical(self, operator: TokenView, right: ExprView) -> (
        Self,
        RequestView,
    ) {
        if self.values.len() == 0 {
            self.fail(RuntimeErrorView::Malformed)
        } else if decided_by_left(operator.kind, self.values.last()) {
            self.without_frame().proceed()
        } else {
            self.without_frame().without_value().with_frame(
                FrameView::Eval { expr: right },
            ).proceed()
        }
    }

    /// Assigns the top value to the name. The value stays on top: it is the
    /// value of the assignment.
    pub open spec fn store(self, name: TokenView) -> (Self, RequestView) {
        if self.values.len() == 0 || !name.is_placed() {
            self.fail(RuntimeErrorView::Malformed)
        } else if self.environment.resolve(name.name()).is_none() {
            self.fail(RuntimeErrorView::UndefinedVariable { name })
        } else {
            self.without_frame().with_environment(
                self.environment.assign(name.name(), self.values.last()),
            ).proceed()
        }
    }

    /// Binds the name to the top value in the innermost scope.
    pub open spec fn define(self, name: TokenView) -> (Self, RequestView) {
        if self.values.len() == 0 || !name.is_placed() {
            self.fail(RuntimeErrorView::Malformed)
        } else {
            self.without_frame().without_value().with_environment(
                self.environment.define(name.name(), Some(self.values.last())),
            ).proceed()
        }
    }

    /// Runs the branch that the top value selects.
    pub open spec fn branch(self, then_branch: StmtView, else_branch: Option<StmtView>) -> (
        Self,
        RequestView,
    ) {
        if self.values.len() == 0 {
            self.fail(RuntimeErrorView::Malformed)
        } else {
            let rest = self.without_frame().without_value();
            if self.values.last().is_truthy() {
                rest.begin(then_branch)
            } else {
                match else_branch {
                    Some(statement) => rest.begin(statement),
                    None => rest.proceed(),
                }
            }
        }
    }

    /// Runs the body once more, with the condition behind it, while the top
    /// value counts as true.
    pub open spec fn repeat(self, condition: ExprView, body: StmtView) -> (Self, RequestView) {
        if self.values.len() == 0 {
            self.fail(RuntimeErrorView::Malformed)
        } else if self.values.last().is_truthy() {
            self.without_value().with_frame(FrameView::Eval { expr: condition }).begin(body)
        } else {
            self.without_frame().without_value().proceed()
        }
    }

    /// Works on the piece of work on top.
    pub open spec fn dispatch(self) -> (Self, RequestView) {
        if self.control.len() == 0 {
            (self, RequestView::Finished)
        } else {
            match self.control.last() {
                FrameView::Run { statements, next } => if next < statements.len() {
                    self.without_frame().with_frame(
                        FrameView::Run { statements, next: next + 1 },
                    ).begin(statements[next as int])
                } else {
                    self.without_frame().proceed()
                },
                FrameView::Eval { expr } => self.without_frame().evaluate(expr),
                FrameView::Discard => if self.values.len() == 0 {
                    self.fail(RuntimeErrorView::Malformed)
                } else {
                    self.without_frame().without_value().proceed()
                },
                FrameView::Emit => self.emit(),
                FrameView::Define { name } => self.define(name),
                FrameView::PopScope => self.without_frame().with_environment(
                    self.environment.pop(),
                ).proceed(),
                FrameView::Branch { then_branch, else_branch } => self.branch(
                    then_branch,
                    else_branch,
                ),
                FrameView::Loop { condition, body } => self.repeat(condition, body),
                FrameView::Unary { operator } => self.apply_unary(operator),
                FrameView::Binary { operator } => self.apply_binary(operator),
                FrameView::Logical { operator, right } => self.apply_logical(operator, right),
                FrameView::Store { name } => self.store(name),
            }
        }
    }

    /// One step of the machine: the reply to the last request is taken in, and
    /// the piece of work on top is worked on.
    pub open spec fn step(self, reply: ReplyView) -> (Self, RequestView) {
        match self.receive(reply) {
            Some(machine) => machine.dispatch(),
            None => self.fail(RuntimeErrorView::UnexpectedReply),
        }
    }

    /// Steps until the machine asks something of the host, for at most `limit`
    /// steps after the first.
    pub open spec fn run(self, reply: ReplyView, limit: nat) -> (Self, RequestView)
        decreases limit,
    {
        let (machine, request) = self.step(reply);
        if limit == 0 || request != RequestView::Continue {
            (machine, request)
        } else {
            machine.run(ReplyView::Nothing, (limit - 1) as nat)
        }
    }

    /// The machine after one step for each of the replies, and the requests
    /// that the steps returned, in order.
    pub open spec fn play(self, replies: Seq<ReplyView>) -> (Self, Seq<RequestView>)
        decreases replies.len(),
    {
        if replies.len() == 0 {
            (self, Seq::empty())
        } else {
            let (before, requests) = self.play(replies.drop_last());
            let (after, request) = before.step(replies.last());
            (after, requests.push(request))
        }
    }
}

/// `false` and `nil` are the only values that count as false. `!` gives the
/// opposite of the truth value of its operand, so `!` applied twice gives the
/// truth value itself, whatever the kind of the operand.
pub proof fn lemma_not_twice(value: LiteralView)
    ensures
        value.is_truthy() <==> value != LiteralView::Bool(false) && value != LiteralView::Nil,
        unary_outcome(TokenKindView::Bang, value) == Some(LiteralView::Bool(!value.is_truthy())),
        unary_outcome(TokenKindView::Bang, LiteralView::Bool(!value.is_truthy())) == Some(
            LiteralView::Bool(value.is_truthy()),
        ),
{
}

/// `+` adds two numbers and joins two texts. Next to a text, a truth value or
/// `nil` is written out and joined on its own side; a number next to a text has
/// its text asked of the host first, on its own side. Any other pair of kinds
/// is a mismatch.
pub proof fn lemma_plus(left: LiteralView, right: LiteralView)
    ensures
        left.kind() == ValueKind::Number && right.kind() == ValueKind::Number ==> binary_outcome(
            TokenKindView::Plus,
            left,
            right,
        ) == BinaryOutcome::Arithmetic(Operation::Add),
        left.kind() == ValueKind::Str && right.kind() != ValueKind::Number ==> binary_outcome(
            TokenKindView::Plus,
            left,
            right,
        ) == BinaryOutcome::Value(LiteralView::Str(left->Str_0 + right.text().unwrap())),
        right.kind() == ValueKind::Str && left.kind() != ValueKind::Number ==> binary_outcome(
            TokenKindView::Plus,
            left,
            right,
        ) == BinaryOutcome::Value(LiteralView::Str(left.text().unwrap() + right->Str_0)),
        left.kind() == ValueKind::Str && right.kind() == ValueKind::Number ==> binary_outcome(
            TokenKindView::Plus,
            left,
            right,
        ) == BinaryOutcome::TextOfRight,
        left.kind() == ValueKind::Number && right.kind() == ValueKind::Str ==> binary_outcome(
            TokenKindView::Plus,
            left,
            right,
        ) == BinaryOutcome::TextOfLeft,
        left.kind() != ValueKind::Str && right.kind() != ValueKind::Str && !(left.kind()
            == ValueKind::Number && right.kind() == ValueKind::Number) ==> binary_outcome(
            TokenKindView::Plus,
            left,
            right,
        ) == BinaryOutcome::Mismatch,
{
}

/// Values of different kinds are never equal, and a value is equal to itself:
/// `==` is true exactly of two values of one kind with the same truth value,
/// bit pattern or text, and `!=` is its opposite.
pub proof fn lemma_equality(left: LiteralView, right: LiteralView)
    ensures
        left.kind() != right.kind() ==> binary_outcome(TokenKindView::EqualEqual, left, right)
            == BinaryOutcome::Value(LiteralView::Bool(false)),
        binary_outcome(TokenKindView::EqualEqual, left, left) == BinaryOutcome::Value(
            LiteralView::Bool(true),
        ),
        binary_outcome(TokenKindView::EqualEqual, left, right) == BinaryOutcome::Value(
            LiteralView::Bool(left == right),
        ),
        binary_outcome(TokenKindView::BangEqual, left, right) == BinaryOutcome::Value(
            LiteralView::Bool(left != right),
        ),
{
}

/// `and` and `or` hand on an operand, not a truth value. Once the left operand
/// is a value, one step decides: where the left operand decides the result
/// (`or` with a left operand that counts as true, `and` with one that counts as
/// false) it stays on top of the values as it is and the right operand is
/// dropped without being evaluated; otherwise the left operand is dropped and
/// the right operand is evaluated in its place.
pub proof fn lemma_logical_keeps_operand(
    machine: InterpreterView,
    operator: TokenView,
    right: ExprView,
)
    requires
        machine.awaiting == Awaiting::Nothing,
        machine.control.len() > 0,
        machine.control.last() == (FrameView::Logical { operator, right }),
        machine.values.len() > 0,
    ensures
        ({
            let left = machine.values.last();
            let (after, request) = machine.step(ReplyView::Nothing);
            &&& request == RequestView::Continue
            &&& after.environment == machine.environment
            &&& decided_by_left(operator.kind, left) ==> after.values == machine.values
                && after.control == machine.control.drop_last()
            &&& !decided_by_left(operator.kind, left) ==> after.values
                == machine.values.drop_last() && after.control == machine.control.drop_last().push(
                FrameView::Eval { expr: right },
            )
            &&& operator.kind == TokenKindView::Or ==> decided_by_left(operator.kind, left)
                == left.is_truthy()
            &&& operator.kind == TokenKindView::And ==> decided_by_left(operator.kind, left)
                == !left.is_truthy()
        }),
{
}

/// Running a program is a function of what the tokens hold and of the host's
/// replies, and of nothing else: two token sequences with the same contents,
/// each parsed and run in a fresh environment, give the same statements and
/// diagnostics, the same requests for the same replies, and the same state at
/// the end.
pub proof fn lemma_runs_agree(first: Seq<Token>, second: Seq<Token>, replies: Seq<ReplyView>)
    requires
        tokens_view(first) == tokens_view(second),
    ensures
        crate::grammar::parse(tokens_view(first)) == crate::grammar::parse(tokens_view(second)),
        InterpreterView::start(
            crate::grammar::parse(tokens_view(first)).0,
            EnvironmentView::fresh(),
        ).play(replies) == InterpreterView::start(
            crate::grammar::parse(tokens_view(second)).0,
            EnvironmentView::fresh(),
        ).play(replies),
{
}

/// How an infix operator goes on, with the values and bit patterns at hand.
enum Outcome {
    Value(Literal),
    Arithmetic(Operation, u64, u64),
    TextOfLeft(u64),
    TextOfRight(u64),
    Mismatch,
}

impl View for Outcome {
    type V = BinaryOutcome;

    closed spec fn view(&self) -> BinaryOutcome {
        match self {
            Outcome::Value(value) => BinaryOutcome::Value(value@),
            Outcome::Arithmetic(operation, _, _) => BinaryOutcome::Arithmetic(*operation),
            Outcome::TextOfLeft(_) => BinaryOutcome::TextOfLeft,
            Outcome::TextOfRight(_) => BinaryOutcome::TextOfRight,
            Outcome::Mismatch => BinaryOutcome::Mismatch,
        }
    }
}

/// The two texts, one after the other.
fn concat(left: &String, right: &String) -> (joined: String)
    ensures
        joined@ == left@ + right@,
{
    let mut joined = left.clone();
    joined.append(right.as_str());
    joined
}

/// The host's arithmetic on two numbers, or a mismatch where an operand is no number.
fn arithmetic(operation: Operation, left: &Literal, right: &Literal) -> (outcome: Outcome)
    ensures
        outcome@ == match (left@, right@) {
            (LiteralView::Number(_), LiteralView::Number(_)) => BinaryOutcome::Arithmetic(
                operation,
            ),
            _ => BinaryOutcome::Mismatch,
        },
        outcome matches Outcome::Arithmetic(_, a, b) ==> left@ == LiteralView::Number(a) && right@
            == LiteralView::Number(b),
{
    match (left, right) {
        (Literal::Number(a), Literal::Number(b)) => Outcome::Arithmetic(operation, *a, *b),
        _ => Outcome::Mismatch,
    }
}

/// `+` on two values: a sum of numbers, or a text made of both operands where
/// one of them is a text.
fn plus(left: &Literal, right: &Literal) -> (outcome: Outcome)
    ensures
        outcome@ == binary_outcome(TokenKindView::Plus, left@, right@),
        outcome matches Outcome::Arithmetic(_, a, b) ==> left@ == LiteralView::Number(a) && right@
            == LiteralView::Number(b),
        outcome matches Outcome::TextOfLeft(a) ==> left@ == LiteralView::Number(a),
        outcome matches Outcome::TextOfRight(b) ==> right@ == LiteralView::Number(b),
{
    match (left, right) {
        (Literal::Number(a), Literal::Number(b)) => Outcome::Arithmetic(Operation::Add, *a, *b),
        (Literal::Number(a), Literal::Str(_)) => Outcome::TextOfLeft(*a),
        (Literal::Str(_), Literal::Number(b)) => Outcome::TextOfRight(*b),
        (Literal::Str(a), other) => match other.text() {
            Some(text) => Outcome::Value(Literal::Str(concat(a, &text))),
            None => Outcome::Mismatch,
        },
        (other, Literal::Str(b)) => match other.text() {
            Some(text) => Outcome::Value(Literal::Str(concat(&text, b))),
            None => Outcome::Mismatch,
        },
        _ => Outcome::Mismatch,
    }
}

/// A comparison of two numbers, `left < right` or `left <= right`, or a
/// mismatch where an operand is no number.
fn compare(left: &Literal, right: &Literal, or_equal: bool) -> (outcome: Outcome)
    ensures
        outcome@ == match (left@, right@) {
            (LiteralView::Number(a), LiteralView::Number(b)) => BinaryOutcome::Value(
                LiteralView::Bool(
                    if or_equal {
                        less_equal(a, b)
                    } else {
                        less(a, b)
                    },
                ),
            ),
            _ => BinaryOutcome::Mismatch,
        },
{
    match (left, right) {
        (Literal::Number(a), Literal::Number(b)) => Outcome::Value(
            Literal::Bool(
                if or_equal {
                    number_less_equal(*a, *b)
                } else {
                    number_less(*a, *b)
                },
            ),
        ),
        _ => Outcome::Mismatch,
    }
}

/// What the infix operator makes of two values.
fn binary(operator: &TokenKind, left: &Literal, right: &Literal) -> (outcome: Outcome)
    ensures
        outcome@ == binary_outcome(operator@, left@, right@),
        outcome matches Outcome::Arithmetic(_, a, b) ==> left@ == LiteralView::Number(a) && right@
            == LiteralView::Number(b),
        outcome matches Outcome::TextOfLeft(a) ==> left@ == LiteralView::Number(a),
        outcome matches Outcome::TextOfRight(b) ==> right@ == LiteralView::Number(b),
{
    match operator {
        TokenKind::Minus => arithmetic(Operation::Subtract, left, right),
        TokenKind::Star => arithmetic(Operation::Multiply, left, right),
        TokenKind::Plus => plus(left, right),
        TokenKind::Greater => compare(right, left, false),
        TokenKind::GreaterEqual => compare(right, left, true),
        TokenKind::Less => compare(left, right, false),
        TokenKind::LessEqual => compare(left, right, true),
        TokenKind::BangEqual => Outcome::Value(Literal::Bool(!left.equals(right))),
        TokenKind::EqualEqual => Outcome::Value(Literal::Bool(left.equals(right))),
        _ => Outcome::Mismatch,
    }
}

/// What the prefix operator makes of a value.
fn unary(operator: &TokenKind, operand: &Literal) -> (outcome: Option<Literal>)
    ensures
        outcome.is_some() == unary_outcome(operator@, operand@).is_some(),
        outcome.is_some() ==> outcome.unwrap()@ == unary_outcome(operator@, operand@).unwrap(),
{
    match operator {
        TokenKind::Bang => Some(Literal::Bool(!operand.is_truthy())),
        TokenKind::Minus => match operand {
            Literal::Number(bits) => Some(Literal::Number(negate(*bits))),
            _ => None,
        },
        _ => None,
    }
}

/// Whether `and` or `or` is decided by its left operand alone.
fn decides(operator: &TokenKind, left: &Literal) -> (decided: bool)
    ensures
        decided == decided_by_left(operator@, left@),
{
    match operator {
        TokenKind::Or => left.is_truthy(),
        _ => !left.is_truthy(),
    }
}

/// A program in execution. The machine decides every step of the program; what
/// it cannot do itself, arithmetic on binary64 values, their decimal text and
/// output, it asks of its host, one request at a time. The host calls
/// [`Interpreter::step`] or [`Interpreter::run`] with [`Reply::Nothing`], does
/// what the request asks, and calls again with its reply, until the request
/// is [`Request::Finished`] or [`Request::Failed`].
pub struct Interpreter<'a> {
    environment: Environment,
    control: Vec<Frame<'a>>,
    values: Vec<Literal>,
    awaiting: Awaiting,
    nesting: usize,
}

impl<'a> View for Interpreter<'a> {
    type V = InterpreterView;

    closed spec fn view(&self) -> InterpreterView {
        InterpreterView {
            environment: self.environment@,
            control: self.control@.map_values(|frame: Frame<'a>| frame@),
            values: self.values@.map_values(|value: Literal| value@),
            awaiting: self.awaiting,
            nesting: self.nesting as nat,
        }
    }
}

/// Sets up the machine for a program. Without an environment the program
/// starts in a fresh one.
pub fn interpret<'a>(statements: &'a Vec<Stmt>, environment: Option<Environment>) -> (machine:
    Interpreter<'a>)
    ensures
        machine@ == InterpreterView::start(
            statements_view(statements@),
            match environment {
                Some(given) => given@,
                None => EnvironmentView::fresh(),
            },
        ),
        all_placed(statements_view(statements@)) ==> well_formed(machine@),
{
    let environment = match environment {
        Some(given) => given,
        None => Environment::new(),
    };
    proof {
        environment.lemma_has_top_level();
        if all_placed(statements_view(statements@)) {
            lemma_start_is_well_formed(statements_view(statements@), environment@);
        }
    }
    let nesting = environment.nesting();
    let mut control: Vec<Frame<'a>> = Vec::new();
    control.push(Frame::Run { statements, next: 0 });
    let machine = Interpreter {
        environment,
        control,
        values: Vec::new(),
        awaiting: Awaiting::Nothing,
        nesting,
    };
    assert(machine@.control =~= seq![
        FrameView::Run { statements: statements_view(statements@), next: 0 },
    ]);
    assert(machine@.values =~= Seq::empty());
    machine
}

impl<'a> Interpreter<'a> {
    fn push_frame(&mut self, frame: Frame<'a>)
        ensures
            final(self)@ == old(self)@.with_frame(frame@),
    {
        self.control.push(frame);
        assert(self@.control =~= old(self)@.control.push(frame@));
    }

    fn pop_frame(&mut self)
        requires
            old(self)@.control.len() > 0,
        ensures
            final(self)@ == old(self)@.without_frame(),
    {
        self.control.pop();
        assert(self@.control =~= old(self)@.control.drop_last());
    }

    fn push_value(&mut self, value: Literal)
        ensures
            final(self)@ == old(self)@.with_value(value@),
    {
        self.values.push(value);
        assert(self@.values =~= old(self)@.values.push(value@));
    }

    fn pop_value(&mut self) -> (value: Literal)
        requires
            old(self)@.values.len() > 0,
        ensures
            final(self)@ == old(self)@.without_value(),
            value@ == old(self)@.values.last(),
    {
        let value = self.values.pop().unwrap();
        assert(self@.values =~= old(self)@.values.drop_last());
        value
    }

    /// The number of values computed and not yet used.
    fn height(&self) -> (height: usize)
        ensures
            height == self@.values.len(),
    {
        self.values.len()
    }

    /// The value `below` places under the top one.
    fn peek(&self, below: usize) -> (value: &Literal)
        requires
            below < self@.values.len(),
        ensures
            value@ == self@.values[self@.values.len() - 1 - below],
    {
        &self.values[self.values.len() - 1 - below]
    }

    fn fail(&mut self, error: RuntimeError) -> (request: Request)
        ensures
            (final(self)@, request@) == old(self)@.fail(error@),
    {
        self.environment.unwind(self.nesting);
        self.control.clear();
        self.values.clear();
        self.awaiting = Awaiting::Nothing;
        assert(self@.control =~= Seq::empty());
        assert(self@.values =~= Seq::empty());
        Request::Failed { error }
    }

    /// Puts `text` in the place of the value `below` places under the top one.
    fn replace(&mut self, below: usize, text: String)
        requires
            below < old(self)@.values.len(),
        ensures
            final(self)@ == (InterpreterView {
                values: old(self)@.values.update(
                    old(self)@.values.len() - 1 - below,
                    LiteralView::Str(text@),
                ),
                ..old(self)@
            }),
    {
        let index: usize = self.values.len() - 1 - below;
        self.values.set(index, Literal::Str(text));
        assert(self@.values =~= old(self)@.values.update(index as int, LiteralView::Str(text@)));
    }

    fn receive(&mut self, reply: Reply) -> (taken: bool)
        ensures
            taken == old(self)@.receive(reply@).is_some(),
            taken ==> final(self)@ == old(self)@.receive(reply@).unwrap(),
            !taken ==> final(self)@ == old(self)@,
    {
        match self.awaiting {
            Awaiting::Nothing => true,
            Awaiting::Number => match reply {
                Reply::Number(bits) => {
                    self.awaiting = Awaiting::Nothing;
                    self.push_value(Literal::Number(bits));
                    true
                },
                _ => false,
            },
            Awaiting::Text => match reply {
                Reply::Text(text) => {
                    if self.height() >= 1 {
                        self.replace(0, text);
                        self.awaiting = Awaiting::Nothing;
                        true
                    } else {
                        false
                    }
                },
                _ => false,
            },
            Awaiting::TextBelow => match reply {
                Reply::Text(text) => {
                    if self.height() >= 2 {
                        self.replace(1, text);
                        self.awaiting = Awaiting::Nothing;
                        true
                    } else {
                        false
                    }
                },
                _ => false,
            },
        }
    }

    fn begin(&mut self, statement: &'a Stmt) -> (request: Request)
        ensures
            (final(self)@, request@) == old(self)@.begin(statement@),
    {
        match statement {
            Stmt::Expression { expr } => {
                self.push_frame(Frame::Discard);
                self.push_frame(Frame::Eval { expr });
                Request::Continue
            },
            Stmt::Print { expr } => {
                self.push_frame(Frame::Emit);
                self.push_frame(Frame::Eval { expr });
                Request::Continue
            },
            Stmt::Var { name, initializer } => match initializer {
                Some(expr) => {
                    self.push_frame(Frame::Define { name });
                    self.push_frame(Frame::Eval { expr });
                    Request::Continue
                },
                None => match name.lexeme() {
                    Some(text) => {
                        self.environment.define(text, None);
                        Request::Continue
                    },
                    None => self.fail(RuntimeError::Malformed),
                },
            },
            Stmt::Block { statements } => {
                proof {
                    lemma_block_view(statements);
                }
                self.environment.push();
                self.push_frame(Frame::PopScope);
                self.push_frame(Frame::Run { statements, next: 0 });
                Request::Continue
            },
            Stmt::If { condition, then_branch, else_branch } => {
                let otherwise: Option<&'a Stmt> = match else_branch {
                    Some(branch) => Some(&**branch),
                    None => None,
                };
                self.push_frame(Frame::Branch { then_branch: &**then_branch, else_branch: otherwise });
                self.push_frame(Frame::Eval { expr: condition });
                Request::Continue
            },
            Stmt::While { condition, body } => {
                self.push_frame(Frame::Loop { condition, body: &**body });
                self.push_frame(Frame::Eval { expr: condition });
                Request::Continue
            },
        }
    }

    fn evaluate(&mut self, expr: &'a Expr) -> (request: Request)
        ensures
            (final(self)@, request@) == old(self)@.evaluate(expr@),
    {
        match expr {
            Expr::Literal { val } => {
                self.push_value(val.clone());
                Request::Continue
            },
            Expr::Grouping { expr } => {
                self.push_frame(Frame::Eval { expr: &**expr });
                Request::Continue
            },
            Expr::Variable { name } => match name.lexeme() {
                Some(text) => match self.environment.get(text.as_str()) {
                    Some(value) => {
                        self.push_value(value);
                        Request::Continue
                    },
                    None => self.fail(RuntimeError::UndefinedVariable { name: name.clone() }),
                },
                None => self.fail(RuntimeError::Malformed),
            },
            Expr::Unary { operator, right } => {
                self.push_frame(Frame::Unary { operator });
                self.push_frame(Frame::Eval { expr: &**right });
                Request::Continue
            },
            Expr::Binary { left, operator, right } => {
                self.push_frame(Frame::Binary { operator });
                self.push_frame(Frame::Eval { expr: &**right });
                self.push_frame(Frame::Eval { expr: &**left });
                Request::Continue
            },
            Expr::Logical { left, operator, right } => {
                self.push_frame(Frame::Logical { operator, right: &**right });
                self.push_frame(Frame::Eval { expr: &**left });
                Request::Continue
            },
            Expr::Assign { name, value } => {
                self.push_frame(Frame::Store { name });
                self.push_frame(Frame::Eval { expr: &**value });
                Request::Continue
            },
        }
    }

    fn emit(&mut self) -> (request: Request)
        requires
            old(self)@.control.len() > 0,
        ensures
            (final(self)@, request@) == old(self)@.emit(),
    {
        if self.height() == 0 {
            return self.fail(RuntimeError::Malformed);
        }
        match self.peek(0) {
            Literal::Number(bits) => {
                let number: u64 = *bits;
                self.awaiting = Awaiting::Text;
                Request::Format { number }
            },
            _ => {
                self.pop_frame();
                let value = self.pop_value();
                match value.text() {
                    Some(text) => Request::Print { text },
                    None => Request::Continue,
                }
            },
        }
    }

    fn apply_unary(&mut self, operator: &'a Token) -> (request: Request)
        requires
            old(self)@.control.len() > 0,
        ensures
            (final(self)@, request@) == old(self)@.apply_unary(operator@),
    {
        if self.height() == 0 {
            return self.fail(RuntimeError::Malformed);
        }
        match unary(&operator.kind, self.peek(0)) {
            Some(value) => {
                self.pop_frame();
                self.pop_value();
                self.push_value(value);
                Request::Continue
            },
            None => {
                let right = self.peek(0).kind();
                self.fail(RuntimeError::TypeMismatch { operator: operator.clone(), left: None, right })
            },
        }
    }

    fn apply_binary(&mut self, operator: &'a Token) -> (request: Request)
        requires
            old(self)@.control.len() > 0,
        ensures
            (final(self)@, request@) == old(self)@.apply_binary(operator@),
    {
        if self.height() < 2 {
            return self.fail(RuntimeError::Malformed);
        }
        match binary(&operator.kind, self.peek(1), self.peek(0)) {
            Outcome::Value(value) => {
                self.pop_frame();
                self.pop_value();
                self.pop_value();
                self.push_value(value);
                Request::Continue
            },
            Outcome::Arithmetic(operation, left, right) => {
                self.pop_frame();
                self.pop_value();
                self.pop_value();
                self.awaiting = Awaiting::Number;
                Request::Arithmetic { operation, left, right }
            },
            Outcome::TextOfLeft(number) => {
                self.awaiting = Awaiting::TextBelow;
                Request::Format { number }
            },
            Outcome::TextOfRight(number) => {
                self.awaiting = Awaiting::Text;
                Request::Format { number }
            },
            Outcome::Mismatch => {
                let left = self.peek(1).kind();
                let right = self.peek(0).kind();
                self.fail(
                    RuntimeError::TypeMismatch { operator: operator.clone(), left: Some(left), right },
                )
            },
        }
    }

    fn apply_logical(&mut self, operator: &'a Token, right: &'a Expr) -> (request: Request)
        requires
            old(self)@.control.len() > 0,
        ensures
            (final(self)@, request@) == old(self)@.apply_logical(operator@, right@),
    {
        if self.height() == 0 {
            return self.fail(RuntimeError::Malformed);
        }
        if decides(&operator.kind, self.peek(0)) {
            self.pop_frame();
        } else {
            self.pop_frame();
            self.pop_value();
            self.push_frame(Frame::Eval { expr: right });
        }
        Request::Continue
    }

    fn store(&mut self, name: &'a Token) -> (request: Request)
        requires
            old(self)@.control.len() > 0,
        ensures
            (final(self)@, request@) == old(self)@.store(name@),
    {
        if self.height() == 0 {
            return self.fail(RuntimeError::Malformed);
        }
        match name.lexeme() {
            Some(text) => {
                let value = self.peek(0).clone();
                match self.environment.assign(text, value) {
                    Ok(()) => {
                        self.pop_frame();
                        Request::Continue
                    },
                    Err(()) => self.fail(RuntimeError::UndefinedVariable { name: name.clone() }),
                }
            },
            None => self.fail(RuntimeError::Malformed),
        }
    }

    fn define(&mut self, name: &'a Token) -> (request: Request)
        requires
            old(self)@.control.len() > 0,
        ensures
            (final(self)@, request@) == old(self)@.define(name@),
    {
        if self.height() == 0 {
            return self.fail(RuntimeError::Malformed);
        }
        match name.lexeme() {
            Some(text) => {
                self.pop_frame();
                let value = self.pop_value();
                self.environment.define(text, Some(value));
                Request::Continue
            },
            None => self.fail(RuntimeError::Malformed),
        }
    }

    fn branch(&mut self, then_branch: &'a Stmt, else_branch: Option<&'a Stmt>) -> (request: Request)
        requires
            old(self)@.control.len() > 0,
        ensures
            (final(self)@, request@) == old(self)@.branch(
                then_branch@,
                match else_branch {
                    Some(statement) => Some(statement@),
                    None => None,
                },
            ),
    {
        if self.height() == 0 {
            return self.fail(RuntimeError::Malformed);
        }
        self.pop_frame();
        let chosen = self.pop_value().is_truthy();
        if chosen {
            self.begin(then_branch)
        } else {
            match else_branch {
                Some(statement) => self.begin(statement),
                None => Request::Continue,
            }
        }
    }

    fn repeat(&mut self, condition: &'a Expr, body: &'a Stmt) -> (request: Request)
        requires
            old(self)@.control.len() > 0,
        ensures
            (final(self)@, request@) == old(self)@.repeat(condition@, body@),
    {
        if self.height() == 0 {
            return self.fail(RuntimeError::Malformed);
        }
        let again = self.pop_value().is_truthy();
        if again {
            self.push_frame(Frame::Eval { expr: condition });
            self.begin(body)
        } else {
            self.pop_frame();
            Request::Continue
        }
    }

    fn dispatch(&mut self) -> (request: Request)
        ensures
            (final(self)@, request@) == old(self)@.dispatch(),
    {
        let pending: usize = self.control.len();
        if pending == 0 {
            return Request::Finished;
        }
        let frame: Frame<'a> = self.control[pending - 1];
        assert(frame@ == self@.control.last());
        match frame {
            Frame::Run { statements, next } => {
                self.pop_frame();
                if next < statements.len() {
                    self.push_frame(Frame::Run { statements, next: next + 1 });
                    self.begin(&statements[next])
                } else {
                    Request::Continue
                }
            },
            Frame::Eval { expr } => {
                self.pop_frame();
                self.evaluate(expr)
            },
            Frame::Discard => {
                if self.height() == 0 {
                    self.fail(RuntimeError::Malformed)
                } else {
                    self.pop_frame();
                    self.pop_value();
                    Request::Continue
                }
            },
            Frame::Emit => self.emit(),
            Frame::Define { name } => self.define(name),
            Frame::PopScope => {
                self.pop_frame();
                self.environment.pop();
                Request::Continue
            },
            Frame::Branch { then_branch, else_branch } => self.branch(then_branch, else_branch),
            Frame::Loop { condition, body } => self.repeat(condition, body),
            Frame::Unary { operator } => self.apply_unary(operator),
            Frame::Binary { operator } => self.apply_binary(operator),
            Frame::Logical { operator, right } => self.apply_logical(operator, right),
            Frame::Store { name } => self.store(name),
        }
    }

    /// One step of the program. `reply` answers the request that the last step
    /// returned; the first step of a program takes [`Reply::Nothing`].
    pub fn step(&mut self, reply: Reply) -> (request: Request)
        ensures
            (final(self)@, request@) == old(self)@.step(reply@),
            well_formed(old(self)@) ==> well_formed(final(self)@) && request@ != (
            RequestView::Failed { error: RuntimeErrorView::Malformed }),
    {
        proof {
            if well_formed(self@) {
                lemma_step(self@, reply@);
            }
        }
        if self.receive(reply) {
            self.dispatch()
        } else {
            self.fail(RuntimeError::UnexpectedReply)
        }
    }

    /// Steps until a request asks something of the host, for at most `limit`
    /// steps after the first.
    pub fn run(&mut self, reply: Reply, limit: usize) -> (request: Request)
        ensures
            (final(self)@, request@) == old(self)@.run(reply@, limit as nat),
            well_formed(old(self)@) ==> well_formed(final(self)@) && request@ != (
            RequestView::Failed { error: RuntimeErrorView::Malformed }),
    {
        let mut request = self.step(reply);
        let mut left: usize = limit;
        while left > 0 && matches!(request, Request::Continue)
            invariant
                well_formed(old(self)@) ==> well_formed(self@) && request@ != (
                RequestView::Failed { error: RuntimeErrorView::Malformed }),
                old(self)@.run(reply@, limit as nat) == if left == 0 || request@
                    != RequestView::Continue {
                    (self@, request@)
                } else {
                    self@.run(ReplyView::Nothing, (left - 1) as nat)
                },
            decreases left,
        {
            request = self.step(Reply::Nothing);
            left -= 1;
        }
        request
    }

    /// Whether no work is pending: the program has run to its end or has failed.
    pub fn is_done(&self) -> (done: bool)
        ensures
            done == (self@.control.len() == 0),
    {
        self.control.len() == 0
    }

    /// The scopes as the program has left them so far.
    pub fn environment(&self) -> (environment: &Environment)
        ensures
            environment@ == self@.environment,
    {
        &self.environment
    }

    /// Gives up the machine for its environment, which a later program may start in.
    pub fn into_environment(self) -> (environment: Environment)
        ensures
            environment@ == self@.environment,
    {
        self.environment
    }
}

} // verus!
