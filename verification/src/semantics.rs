//! What a program means, said by structural recursion over the tree: the value
//! of an expression, the effect of a statement, the run of a program. And the
//! proof that the interpreter, stepped by a host, computes just that.

use crate::environment::EnvironmentView;
use crate::interpret::{
    binary_outcome, decided_by_left, unary_outcome, Awaiting, BinaryOutcome, FrameView,
    InterpreterView, Operation, ReplyView, RequestView, RuntimeErrorView,
};
use crate::stmt::{ExprView, StmtView};
use crate::token::{LiteralView, TokenView};
use vstd::prelude::*;

verus! {

/// A host, as far as the values of a program depend on it: its arithmetic and
/// its way of writing numbers.
pub struct HostView {
    pub arithmetic: spec_fn(Operation, u64, u64) -> u64,
    pub text: spec_fn(u64) -> Seq<char>,
}

impl HostView {
    /// The host's reply to a request.
    pub open spec fn reply(self, request: RequestView) -> ReplyView {
        match request {
            RequestView::Arithmetic { operation, left, right } => ReplyView::Number(
                (self.arithmetic)(operation, left, right),
            ),
            RequestView::Format { number } => ReplyView::Text((self.text)(number)),
            _ => ReplyView::Nothing,
        }
    }

    /// What an infix operator makes of two values with this host: where the
    /// operator needs the sum, difference or product of two numbers, or the
    /// text of a number to join it to a text, the host supplies it.
    pub open spec fn binary(self, operator: TokenView, left: LiteralView, right: LiteralView) -> Result<
        LiteralView,
        RuntimeErrorView,
    > {
        match binary_outcome(operator.kind, left, right) {
            BinaryOutcome::Value(value) => Ok(value),
            BinaryOutcome::Arithmetic(operation) => Ok(
                LiteralView::Number((self.arithmetic)(operation, left->Number_0, right->Number_0)),
            ),
            BinaryOutcome::TextOfLeft => Ok(
                LiteralView::Str((self.text)(left->Number_0) + right->Str_0),
            ),
            BinaryOutcome::TextOfRight => Ok(
                LiteralView::Str(left->Str_0 + (self.text)(right->Number_0)),
            ),
            BinaryOutcome::Mismatch => Err(
                RuntimeErrorView::TypeMismatch {
                    operator,
                    left: Some(left.kind()),
                    right: right.kind(),
                },
            ),
        }
    }
}

/// What evaluating an expression comes to: its value or the error that stopped
/// it, the environment that it leaves, and the number of turns that the
/// interpreter takes for it.
pub struct Evaluated {
    pub result: Result<LiteralView, RuntimeErrorView>,
    pub environment: EnvironmentView,
    pub turns: nat,
}

impl Evaluated {
    /// The same outcome after `more` further turns.
    pub open spec fn after(self, more: nat) -> Self {
        Evaluated { turns: self.turns + more, ..self }
    }
}

/// The value of an expression in an environment, by recursion over the tree.
/// Operands are evaluated from left to right; an error in an operand is the
/// error of the whole expression; `and` and `or` evaluate their right operand
/// only where the left one does not decide; an assignment changes the nearest
/// enclosing declaration of its name and is worth the value assigned.
pub open spec fn evaluate(host: HostView, expr: ExprView, environment: EnvironmentView) -> Evaluated
    decreases expr,
{
    match expr {
        ExprView::Literal { val } => Evaluated { result: Ok(val), environment, turns: 1 },
        ExprView::Grouping { expr } => evaluate(host, *expr, environment).after(1),
        ExprView::Variable { name } => Evaluated {
            result: if !name.is_placed() {
                Err(RuntimeErrorView::Malformed)
            } else {
                match environment.get(name.name()) {
                    Some(value) => Ok(value),
                    None => Err(RuntimeErrorView::UndefinedVariable { name }),
                }
            },
            environment,
            turns: 1,
        },
        ExprView::Unary { operator, right } => {
            let operand = evaluate(host, *right, environment);
            match operand.result {
                Ok(value) => Evaluated {
                    result: match unary_outcome(operator.kind, value) {
                        Some(result) => Ok(result),
                        None => Err(
                            RuntimeErrorView::TypeMismatch {
                                operator,
                                left: None,
                                right: value.kind(),
                            },
                        ),
                    },
                    ..operand.after(2)
                },
                Err(_) => operand.after(1),
            }
        },
        ExprView::Binary { left, operator, right } => {
            let first = evaluate(host, *left, environment);
            match first.result {
                Ok(a) => {
                    let second = evaluate(host, *right, first.environment);
                    match second.result {
                        Ok(b) => Evaluated {
                            result: host.binary(operator, a, b),
                            environment: second.environment,
                            turns: 1 + first.turns + second.turns + match binary_outcome(
                                operator.kind,
                                a,
                                b,
                            ) {
                                BinaryOutcome::TextOfLeft | BinaryOutcome::TextOfRight => 2nat,
                                _ => 1nat,
                            },
                        },
                        Err(_) => second.after(1 + first.turns),
                    }
                },
                Err(_) => first.after(1),
            }
        },
        ExprView::Logical { left, operator, right } => {
            let first = evaluate(host, *left, environment);
            match first.result {
                Ok(a) => if decided_by_left(operator.kind, a) {
                    first.after(2)
                } else {
                    evaluate(host, *right, first.environment).after(2 + first.turns)
                },
                Err(_) => first.after(1),
            }
        },
        ExprView::Assign { name, value } => {
            let assigned = evaluate(host, *value, environment);
            match assigned.result {
                Ok(new) => if !name.is_placed() {
                    Evaluated { result: Err(RuntimeErrorView::Malformed), ..assigned.after(2) }
                } else if assigned.environment.resolve(name.name()).is_none() {
                    Evaluated {
                        result: Err(RuntimeErrorView::UndefinedVariable { name }),
                        ..assigned.after(2)
                    }
                } else {
                    Evaluated {
                        environment: assigned.environment.assign(name.name(), new),
                        ..assigned.after(2)
                    }
                },
                Err(_) => assigned.after(1),
            }
        },
    }
}

/// One turn: the machine works on the piece on top, and takes in the host's
/// reply to what it asks.
pub open spec fn turn(host: HostView, machine: InterpreterView) -> (InterpreterView, RequestView) {
    let (after, request) = machine.dispatch();
    match after.receive(host.reply(request)) {
        Some(settled) => (settled, request),
        None => (after, request),
    }
}

/// The machine after a number of turns, and the requests of those turns.
pub open spec fn turns(host: HostView, machine: InterpreterView, count: nat) -> (
    InterpreterView,
    Seq<RequestView>,
)
    decreases count,
{
    if count == 0 {
        (machine, Seq::empty())
    } else {
        let (next, request) = turn(host, machine);
        let (last, requests) = turns(host, next, (count - 1) as nat);
        (last, seq![request] + requests)
    }
}

/// Whether the requests ask for nothing but arithmetic and the text of
/// numbers: nothing is printed, and the program neither ends nor fails.
pub open spec fn quiet(requests: Seq<RequestView>) -> bool {
    forall|i: int|
        0 <= i < requests.len() ==> (#[trigger] requests[i]) == RequestView::Continue
            || requests[i] is Arithmetic || requests[i] is Format
}

/// Turns add up.
pub proof fn lemma_turns_add(host: HostView, machine: InterpreterView, first: nat, second: nat)
    ensures
        turns(host, machine, first + second).0 == turns(
            host,
            turns(host, machine, first).0,
            second,
        ).0,
        turns(host, machine, first + second).1 == turns(host, machine, first).1 + turns(
            host,
            turns(host, machine, first).0,
            second,
        ).1,
    decreases first,
{
    if first == 0 {
        assert(turns(host, machine, second).1 =~= Seq::<RequestView>::empty() + turns(
            host,
            machine,
            second,
        ).1);
    } else {
        let (next, request) = turn(host, machine);
        lemma_turns_add(host, next, (first - 1) as nat, second);
        assert((first + second - 1) as nat == (first - 1) as nat + second);
        let a = turns(host, next, (first - 1) as nat);
        let b = turns(host, a.0, second);
        assert(seq![request] + (a.1 + b.1) =~= (seq![request] + a.1) + b.1);
    }
}

/// One turn, as a run of turns.
proof fn lemma_one_turn(host: HostView, machine: InterpreterView)
    ensures
        turns(host, machine, 1) == (turn(host, machine).0, seq![turn(host, machine).1]),
{
    reveal_with_fuel(turns, 2);
    let request = turn(host, machine).1;
    assert(seq![request] + Seq::<RequestView>::empty() =~= seq![request]);
}

/// Machines with the same contents are the same machine.
proof fn lemma_same(first: InterpreterView, second: InterpreterView)
    requires
        first.environment == second.environment,
        first.control =~= second.control,
        first.values =~= second.values,
        first.awaiting == second.awaiting,
        first.nesting == second.nesting,
    ensures
        first == second,
{
}

/// The machine at the end of an evaluation that began with the expression on
/// top of the pending work: the expression is gone and its value is on top of
/// the values, or the program has failed.
pub open spec fn arrival(machine: InterpreterView, outcome: Evaluated) -> InterpreterView {
    match outcome.result {
        Ok(value) => machine.without_frame().with_environment(outcome.environment).with_value(
            value,
        ),
        Err(error) => machine.with_environment(outcome.environment).fail(error).0,
    }
}

/// Whether the requests are those of an evaluation with this result: nothing
/// but arithmetic and the text of numbers, and at the end the failure, if the
/// evaluation failed.
pub open spec fn requested(requests: Seq<RequestView>, outcome: Evaluated) -> bool {
    &&& requests.len() == outcome.turns
    &&& match outcome.result {
        Ok(_) => quiet(requests),
        Err(error) => requests.len() > 0 && quiet(requests.drop_last()) && requests.last() == (
        RequestView::Failed { error }),
    }
}

/// What the turns of a sub-expression come to inside the turns of the whole:
/// turns before them that were quiet, and turns after them if they ended well.
proof fn lemma_inside(
    host: HostView,
    machine: InterpreterView,
    before: nat,
    middle: InterpreterView,
    outcome: Evaluated,
)
    requires
        turns(host, machine, before).0 == middle,
        quiet(turns(host, machine, before).1),
        turns(host, machine, before).1.len() == before,
        requested(turns(host, middle, outcome.turns).1, outcome),
    ensures
        turns(host, machine, before + outcome.turns).0 == turns(host, middle, outcome.turns).0,
        requested(turns(host, machine, before + outcome.turns).1, outcome.after(before)),
{
    lemma_turns_add(host, machine, before, outcome.turns);
    let head = turns(host, machine, before).1;
    let tail = turns(host, middle, outcome.turns).1;
    let all = head + tail;
    match outcome.result {
        Ok(_) => {
            assert forall|i: int| 0 <= i < all.len() implies (#[trigger] all[i])
                == RequestView::Continue || all[i] is Arithmetic || all[i] is Format by {
                if i < head.len() {
                    assert(all[i] == head[i]);
                } else {
                    assert(all[i] == tail[i - head.len()]);
                }
            }
        },
        Err(_) => {
            let rest = all.drop_last();
            assert(rest =~= head + tail.drop_last());
            assert forall|i: int| 0 <= i < rest.len() implies (#[trigger] rest[i])
                == RequestView::Continue || rest[i] is Arithmetic || rest[i] is Format by {
                if i < head.len() {
                    assert(rest[i] == head[i]);
                } else {
                    assert(rest[i] == tail.drop_last()[i - head.len()]);
                }
            }
        },
    }
}

/// The outcome of `turns` turns that end with `result` and leave the
/// environment of the machine alone.
pub open spec fn applied(
    machine: InterpreterView,
    result: Result<LiteralView, RuntimeErrorView>,
    turns: nat,
) -> Evaluated {
    Evaluated { result, environment: machine.environment, turns }
}

/// The machine after an operator has been applied: the operator is gone and
/// its result has taken the place of `operands` values, or the program has failed.
pub open spec fn reduced(
    machine: InterpreterView,
    operands: nat,
    result: Result<LiteralView, RuntimeErrorView>,
) -> InterpreterView {
    match result {
        Ok(value) => InterpreterView {
            control: machine.control.drop_last(),
            values: machine.values.take(machine.values.len() - operands).push(value),
            ..machine
        },
        Err(error) => machine.fail(error).0,
    }
}

/// A prefix operator is applied in one turn.
proof fn lemma_apply_unary(host: HostView, machine: InterpreterView, operator: TokenView)
    requires
        machine.awaiting == Awaiting::Nothing,
        machine.control.len() > 0,
        machine.control.last() == (FrameView::Unary { operator }),
        machine.values.len() >= 1,
    ensures
        ({
            let value = machine.values.last();
            let result = match unary_outcome(operator.kind, value) {
                Some(result) => Ok(result),
                None => Err(
                    RuntimeErrorView::TypeMismatch { operator, left: None, right: value.kind() },
                ),
            };
            let (last, requests) = turns(host, machine, 1);
            last == reduced(machine, 1, result) && requested(requests, applied(machine, result, 1))
        }),
{
    lemma_one_turn(host, machine);
    let value = machine.values.last();
    let result: Result<LiteralView, RuntimeErrorView> = match unary_outcome(operator.kind, value) {
        Some(result) => Ok(result),
        None => Err(RuntimeErrorView::TypeMismatch { operator, left: None, right: value.kind() }),
    };
    let requests = turns(host, machine, 1).1;
    assert(requests.drop_last() =~= Seq::<RequestView>::empty());
    assert(requests[0] == turn(host, machine).1);
    lemma_same(turn(host, machine).0, reduced(machine, 1, result));
}

/// An assignment is made in one turn; the value stays where it is.
proof fn lemma_store(host: HostView, machine: InterpreterView, name: TokenView)
    requires
        machine.awaiting == Awaiting::Nothing,
        machine.control.len() > 0,
        machine.control.last() == (FrameView::Store { name }),
        machine.values.len() >= 1,
    ensures
        ({
            let value = machine.values.last();
            let result = if !name.is_placed() {
                Err(RuntimeErrorView::Malformed)
            } else if machine.environment.resolve(name.name()).is_none() {
                Err(RuntimeErrorView::UndefinedVariable { name })
            } else {
                Ok(value)
            };
            let (last, requests) = turns(host, machine, 1);
            &&& requested(requests, applied(machine, result, 1))
            &&& last == match result {
                Ok(_) => machine.without_frame().with_environment(
                    machine.environment.assign(name.name(), value),
                ),
                Err(error) => machine.fail(error).0,
            }
        }),
{
    lemma_one_turn(host, machine);
    let requests = turns(host, machine, 1).1;
    assert(requests.drop_last() =~= Seq::<RequestView>::empty());
    assert(requests[0] == turn(host, machine).1);
}

/// An infix operator is applied in one turn, or in two where the host has to
/// write a number out first.
#[verifier::rlimit(40)]
proof fn lemma_apply_binary(
    host: HostView,
    machine: InterpreterView,
    operator: TokenView,
    a: LiteralView,
    b: LiteralView,
)
    requires
        machine.awaiting == Awaiting::Nothing,
        machine.control.len() > 0,
        machine.control.last() == (FrameView::Binary { operator }),
        machine.values.len() >= 2,
        machine.values.last() == b,
        machine.values[machine.values.len() - 2] == a,
    ensures
        ({
            let count = match binary_outcome(operator.kind, a, b) {
                BinaryOutcome::TextOfLeft | BinaryOutcome::TextOfRight => 2nat,
                _ => 1nat,
            };
            let result = host.binary(operator, a, b);
            let (last, requests) = turns(host, machine, count);
            last == reduced(machine, 2, result) && requested(
                requests,
                applied(machine, result, count),
            )
        }),
{
    let result = host.binary(operator, a, b);
    lemma_one_turn(host, machine);
    let first = turn(host, machine).0;
    let opening = turn(host, machine).1;
    let once = turns(host, machine, 1).1;
    assert(once.drop_last() =~= Seq::<RequestView>::empty());
    assert(once[0] == opening);
    let below = machine.values.take(machine.values.len() - 2);
    match binary_outcome(operator.kind, a, b) {
        BinaryOutcome::TextOfLeft => {
            let text = (host.text)(a->Number_0);
            assert(first.values =~= below.push(LiteralView::Str(text)).push(b));
            lemma_turns_add(host, machine, 1, 1);
            lemma_one_turn(host, first);
            let twice = turns(host, machine, 2).1;
            assert(twice =~= seq![opening, turn(host, first).1]);
            assert(twice.drop_last() =~= seq![opening]);
            lemma_same(turn(host, first).0, reduced(machine, 2, result));
        },
        BinaryOutcome::TextOfRight => {
            let text = (host.text)(b->Number_0);
            assert(first.values =~= below.push(a).push(LiteralView::Str(text)));
            lemma_turns_add(host, machine, 1, 1);
            lemma_one_turn(host, first);
            let twice = turns(host, machine, 2).1;
            assert(twice =~= seq![opening, turn(host, first).1]);
            assert(twice.drop_last() =~= seq![opening]);
            lemma_same(turn(host, first).0, reduced(machine, 2, result));
        },
        _ => {
            lemma_same(first, reduced(machine, 2, result));
        },
    }
}

/// The first turn of an evaluation takes the expression from the pending work
/// and asks nothing of the host, unless it fails.
proof fn lemma_opening(host: HostView, machine: InterpreterView, expr: ExprView)
    requires
        machine.awaiting == Awaiting::Nothing,
        machine.control.len() > 0,
        machine.control.last() == (FrameView::Eval { expr }),
    ensures
        turns(host, machine, 1).0 == machine.without_frame().evaluate(expr).0,
        turns(host, machine, 1).1 == seq![machine.without_frame().evaluate(expr).1],
        turns(host, machine, 1).1.len() == 1,
        !(expr is Variable) ==> quiet(turns(host, machine, 1).1),
{
    lemma_one_turn(host, machine);
}

proof fn lemma_evaluate_leaf(host: HostView, machine: InterpreterView, expr: ExprView)
    requires
        machine.awaiting == Awaiting::Nothing,
        machine.control.len() > 0,
        machine.control.last() == (FrameView::Eval { expr }),
        expr is Literal || expr is Variable,
    ensures
        ({
            let outcome = evaluate(host, expr, machine.environment);
            let (last, requests) = turns(host, machine, outcome.turns);
            last == arrival(machine, outcome) && requested(requests, outcome)
        }),
{
    let outcome = evaluate(host, expr, machine.environment);
    lemma_one_turn(host, machine);
    let requests = turns(host, machine, 1).1;
    assert(requests.drop_last() =~= Seq::<RequestView>::empty());
    assert(requests[0] == turn(host, machine).1);
    lemma_same(turn(host, machine).0, arrival(machine, outcome));
}

proof fn lemma_evaluate_grouping(host: HostView, machine: InterpreterView, expr: ExprView)
    requires
        machine.awaiting == Awaiting::Nothing,
        machine.control.len() > 0,
        machine.control.last() == (FrameView::Eval { expr }),
        expr is Grouping,
    ensures
        ({
            let outcome = evaluate(host, expr, machine.environment);
            let (last, requests) = turns(host, machine, outcome.turns);
            last == arrival(machine, outcome) && requested(requests, outcome)
        }),
    decreases expr, 0nat,
{
    let inner = *expr->Grouping_expr;
    let outcome = evaluate(host, expr, machine.environment);
    lemma_opening(host, machine, expr);
    let first = turns(host, machine, 1).0;
    let sub = evaluate(host, inner, machine.environment);
    lemma_evaluate(host, first, inner);
    lemma_inside(host, machine, 1, first, sub);
    lemma_same(arrival(first, sub), arrival(machine, outcome));
}

#[verifier::rlimit(40)]
proof fn lemma_evaluate_unary(host: HostView, machine: InterpreterView, expr: ExprView)
    requires
        machine.awaiting == Awaiting::Nothing,
        machine.control.len() > 0,
        machine.control.last() == (FrameView::Eval { expr }),
        expr is Unary,
    ensures
        ({
            let outcome = evaluate(host, expr, machine.environment);
            let (last, requests) = turns(host, machine, outcome.turns);
            last == arrival(machine, outcome) && requested(requests, outcome)
        }),
    decreases expr, 0nat,
{
    let operator = expr->Unary_operator;
    let right = *expr->Unary_right;
    let rest = machine.without_frame();
    let outcome = evaluate(host, expr, machine.environment);
    lemma_opening(host, machine, expr);
    let first = turns(host, machine, 1).0;
    let sub = evaluate(host, right, machine.environment);
    lemma_evaluate(host, first, right);
    lemma_inside(host, machine, 1, first, sub);
    let second = arrival(first, sub);
    match sub.result {
        Ok(value) => {
            assert(second.control =~= rest.control.push(FrameView::Unary { operator }));
            assert(second.values =~= rest.values.push(value));
            lemma_apply_unary(host, second, operator);
            lemma_inside(host, machine, 1 + sub.turns, second, applied(second, outcome.result, 1));
            lemma_same(reduced(second, 1, outcome.result), arrival(machine, outcome));
        },
        Err(_) => {
            lemma_same(second, arrival(machine, outcome));
        },
    }
}

#[verifier::rlimit(40)]
proof fn lemma_evaluate_binary(host: HostView, machine: InterpreterView, expr: ExprView)
    requires
        machine.awaiting == Awaiting::Nothing,
        machine.control.len() > 0,
        machine.control.last() == (FrameView::Eval { expr }),
        expr is Binary,
    ensures
        ({
            let outcome = evaluate(host, expr, machine.environment);
            let (last, requests) = turns(host, machine, outcome.turns);
            last == arrival(machine, outcome) && requested(requests, outcome)
        }),
    decreases expr, 0nat,
{
    let operator = expr->Binary_operator;
    let left = *expr->Binary_left;
    let right = *expr->Binary_right;
    let rest = machine.without_frame();
    let frame = FrameView::Binary { operator };
    let outcome = evaluate(host, expr, machine.environment);
    lemma_opening(host, machine, expr);
    let first = turns(host, machine, 1).0;
    let one = evaluate(host, left, machine.environment);
    lemma_evaluate(host, first, left);
    lemma_inside(host, machine, 1, first, one);
    let second = arrival(first, one);
    match one.result {
        Ok(a) => {
            assert(second.control =~= rest.control.push(frame).push(
                FrameView::Eval { expr: right },
            ));
            let two = evaluate(host, right, one.environment);
            lemma_evaluate(host, second, right);
            lemma_inside(host, machine, 1 + one.turns, second, two);
            let third = arrival(second, two);
            match two.result {
                Ok(b) => {
                    assert(third.control =~= rest.control.push(frame));
                    assert(third.values =~= rest.values.push(a).push(b));
                    let count = match binary_outcome(operator.kind, a, b) {
                        BinaryOutcome::TextOfLeft | BinaryOutcome::TextOfRight => 2nat,
                        _ => 1nat,
                    };
                    lemma_apply_binary(host, third, operator, a, b);
                    lemma_inside(
                        host,
                        machine,
                        1 + one.turns + two.turns,
                        third,
                        applied(third, outcome.result, count),
                    );
                    assert(third.values.take(third.values.len() - 2) =~= rest.values);
                    lemma_same(reduced(third, 2, outcome.result), arrival(machine, outcome));
                },
                Err(_) => {
                    lemma_same(third, arrival(machine, outcome));
                },
            }
        },
        Err(_) => {
            lemma_same(second, arrival(machine, outcome));
        },
    }
}

#[verifier::rlimit(40)]
proof fn lemma_evaluate_logical(host: HostView, machine: InterpreterView, expr: ExprView)
    requires
        machine.awaiting == Awaiting::Nothing,
        machine.control.len() > 0,
        machine.control.last() == (FrameView::Eval { expr }),
        expr is Logical,
    ensures
        ({
            let outcome = evaluate(host, expr, machine.environment);
            let (last, requests) = turns(host, machine, outcome.turns);
            last == arrival(machine, outcome) && requested(requests, outcome)
        }),
    decreases expr, 0nat,
{
    let operator = expr->Logical_operator;
    let left = *expr->Logical_left;
    let right = *expr->Logical_right;
    let rest = machine.without_frame();
    let frame = FrameView::Logical { operator, right };
    let outcome = evaluate(host, expr, machine.environment);
    lemma_opening(host, machine, expr);
    let first = turns(host, machine, 1).0;
    let one = evaluate(host, left, machine.environment);
    lemma_evaluate(host, first, left);
    lemma_inside(host, machine, 1, first, one);
    let second = arrival(first, one);
    match one.result {
        Ok(a) => {
            assert(second.control =~= rest.control.push(frame));
            assert(second.values =~= rest.values.push(a));
            lemma_one_turn(host, second);
            let third = turn(host, second).0;
            let decision = applied(second, Ok(a), 1);
            assert(turns(host, second, 1).1[0] == RequestView::Continue);
            lemma_inside(host, machine, 1 + one.turns, second, decision);
            if decided_by_left(operator.kind, a) {
                lemma_same(third, arrival(machine, outcome));
            } else {
                assert(third.control =~= rest.control.push(FrameView::Eval { expr: right }));
                assert(third.values =~= rest.values);
                let two = evaluate(host, right, one.environment);
                lemma_evaluate(host, third, right);
                lemma_inside(host, machine, 2 + one.turns, third, two);
                lemma_same(arrival(third, two), arrival(machine, outcome));
            }
        },
        Err(_) => {
            lemma_same(second, arrival(machine, outcome));
        },
    }
}

#[verifier::rlimit(40)]
proof fn lemma_evaluate_assign(host: HostView, machine: InterpreterView, expr: ExprView)
    requires
        machine.awaiting == Awaiting::Nothing,
        machine.control.len() > 0,
        machine.control.last() == (FrameView::Eval { expr }),
        expr is Assign,
    ensures
        ({
            let outcome = evaluate(host, expr, machine.environment);
            let (last, requests) = turns(host, machine, outcome.turns);
            last == arrival(machine, outcome) && requested(requests, outcome)
        }),
    decreases expr, 0nat,
{
    let name = expr->Assign_name;
    let value = *expr->Assign_value;
    let rest = machine.without_frame();
    let outcome = evaluate(host, expr, machine.environment);
    lemma_opening(host, machine, expr);
    let first = turns(host, machine, 1).0;
    let sub = evaluate(host, value, machine.environment);
    lemma_evaluate(host, first, value);
    lemma_inside(host, machine, 1, first, sub);
    let second = arrival(first, sub);
    match sub.result {
        Ok(new) => {
            assert(second.control =~= rest.control.push(FrameView::Store { name }));
            assert(second.values =~= rest.values.push(new));
            lemma_store(host, second, name);
            lemma_inside(host, machine, 1 + sub.turns, second, applied(second, outcome.result, 1));
            lemma_same(turns(host, second, 1).0, arrival(machine, outcome));
        },
        Err(_) => {
            lemma_same(second, arrival(machine, outcome));
        },
    }
}

/// The interpreter computes the value of an expression. A machine that has
/// the expression on top of its pending work and awaits nothing takes the
/// turns that the evaluation takes. If the evaluation ends well, the machine
/// then has the rest of its work before it, the value of the expression on top
/// of its values and the environment that the evaluation leaves, and all it
/// has asked of the host is arithmetic and the text of numbers. If the
/// evaluation fails, the machine has failed with the same error in its last turn.
pub proof fn lemma_evaluate(host: HostView, machine: InterpreterView, expr: ExprView)
    requires
        machine.awaiting == Awaiting::Nothing,
        machine.control.len() > 0,
        machine.control.last() == (FrameView::Eval { expr }),
    ensures
        ({
            let outcome = evaluate(host, expr, machine.environment);
            let (last, requests) = turns(host, machine, outcome.turns);
            last == arrival(machine, outcome) && requested(requests, outcome)
        }),
    decreases expr, 1nat,
{
    match expr {
        ExprView::Literal { .. } | ExprView::Variable { .. } => {
            lemma_evaluate_leaf(host, machine, expr);
        },
        ExprView::Grouping { .. } => {
            lemma_evaluate_grouping(host, machine, expr);
        },
        ExprView::Unary { .. } => {
            lemma_evaluate_unary(host, machine, expr);
        },
        ExprView::Binary { .. } => {
            lemma_evaluate_binary(host, machine, expr);
        },
        ExprView::Logical { .. } => {
            lemma_evaluate_logical(host, machine, expr);
        },
        ExprView::Assign { .. } => {
            lemma_evaluate_assign(host, machine, expr);
        },
    }
}

/// How the execution of statements ends.
pub enum End {
    /// The statements have run to their end.
    Done,
    /// A runtime error has stopped the program.
    Failed(RuntimeErrorView),
    /// The loops were allowed too few rounds for the statements to end.
    Unfinished,
}

/// What executing statements comes to: how it ends, the environment that it
/// leaves, the lines that it prints, and the number of turns that the
/// interpreter takes for it.
pub struct Executed {
    pub end: End,
    pub environment: EnvironmentView,
    pub output: Seq<Seq<char>>,
    pub turns: nat,
}

impl Executed {
    /// The same outcome behind `turns` further turns that printed `output`.
    pub open spec fn behind(self, output: Seq<Seq<char>>, turns: nat) -> Self {
        Executed { output: output + self.output, turns: self.turns + turns, ..self }
    }

    /// The execution that ends at once.
    pub open spec fn done(environment: EnvironmentView, turns: nat) -> Self {
        Executed { end: End::Done, environment, output: Seq::empty(), turns }
    }

    /// The execution that an error stops.
    pub open spec fn failed(
        error: RuntimeErrorView,
        environment: EnvironmentView,
        turns: nat,
    ) -> Self {
        Executed { end: End::Failed(error), environment, output: Seq::empty(), turns }
    }

    /// The execution that the evaluation of an expression stops.
    pub open spec fn stopped(evaluated: Evaluated) -> Self {
        Executed {
            end: End::Failed(evaluated.result->Err_0),
            environment: evaluated.environment,
            output: Seq::empty(),
            turns: evaluated.turns,
        }
    }
}

impl HostView {
    /// The line that `print` writes for a value.
    pub open spec fn written(self, value: LiteralView) -> Seq<char> {
        match value {
            LiteralView::Number(bits) => (self.text)(bits),
            _ => value.text().unwrap(),
        }
    }
}

/// What a statement does in an environment, by recursion over the tree. Each
/// round of a loop uses up one of `fuel` rounds, so that the recursion ends;
/// where the rounds run out, the execution is unfinished.
pub open spec fn execute(
    host: HostView,
    statement: StmtView,
    environment: EnvironmentView,
    fuel: nat,
) -> Executed
    decreases fuel, statement, 0nat,
{
    match statement {
        StmtView::Expression { expr } => {
            let value = evaluate(host, expr, environment);
            if value.result is Ok {
                Executed::done(value.environment, value.turns + 1)
            } else {
                Executed::stopped(value)
            }
        },
        StmtView::Print { expr } => {
            let value = evaluate(host, expr, environment);
            match value.result {
                Ok(printed) => Executed {
                    end: End::Done,
                    environment: value.environment,
                    output: seq![host.written(printed)],
                    turns: value.turns + if printed is Number {
                        2nat
                    } else {
                        1nat
                    },
                },
                Err(_) => Executed::stopped(value),
            }
        },
        StmtView::Var { name, initializer } => match initializer {
            Some(expr) => {
                let value = evaluate(host, expr, environment);
                match value.result {
                    Ok(initial) => if name.is_placed() {
                        Executed::done(
                            value.environment.define(name.name(), Some(initial)),
                            value.turns + 1,
                        )
                    } else {
                        Executed::failed(
                            RuntimeErrorView::Malformed,
                            value.environment,
                            value.turns + 1,
                        )
                    },
                    Err(_) => Executed::stopped(value),
                }
            },
            None => if name.is_placed() {
                Executed::done(environment.define(name.name(), None), 0)
            } else {
                Executed::failed(RuntimeErrorView::Malformed, environment, 0)
            },
        },
        StmtView::Block { statements } => {
            let inside = execute_all(host, statements, 0, environment.push(), fuel);
            match inside.end {
                End::Done => Executed {
                    environment: inside.environment.pop(),
                    turns: inside.turns + 1,
                    ..inside
                },
                _ => inside,
            }
        },
        StmtView::If { condition, then_branch, else_branch } => {
            let value = evaluate(host, condition, environment);
            match value.result {
                Ok(chosen) => if chosen.is_truthy() {
                    execute(host, *then_branch, value.environment, fuel).behind(
                        Seq::empty(),
                        value.turns + 1,
                    )
                } else {
                    match else_branch {
                        Some(branch) => execute(host, *branch, value.environment, fuel).behind(
                            Seq::empty(),
                            value.turns + 1,
                        ),
                        None => Executed::done(value.environment, value.turns + 1),
                    }
                },
                Err(_) => Executed::stopped(value),
            }
        },
        StmtView::While { condition, body } => repeat(host, condition, *body, environment, fuel),
    }
}

/// What a loop does from its condition on: the body runs while the condition
/// counts as true, for at most `fuel` rounds.
pub open spec fn repeat(
    host: HostView,
    condition: ExprView,
    body: StmtView,
    environment: EnvironmentView,
    fuel: nat,
) -> Executed
    decreases fuel, body, 1nat,
{
    let value = evaluate(host, condition, environment);
    match value.result {
        Ok(again) => if !again.is_truthy() {
            Executed::done(value.environment, value.turns + 1)
        } else if fuel == 0 {
            Executed { end: End::Unfinished, ..Executed::done(value.environment, 0) }
        } else {
            let round = execute(host, body, value.environment, fuel);
            match round.end {
                End::Done => repeat(
                    host,
                    condition,
                    body,
                    round.environment,
                    (fuel - 1) as nat,
                ).behind(round.output, value.turns + 1 + round.turns),
                _ => round.behind(Seq::empty(), value.turns + 1),
            }
        },
        Err(_) => Executed::stopped(value),
    }
}

/// What the statements from `from` on do, one after the other. The first
/// statement that does not end well ends them all.
pub open spec fn execute_all(
    host: HostView,
    statements: Seq<StmtView>,
    from: nat,
    environment: EnvironmentView,
    fuel: nat,
) -> Executed
    decreases fuel, statements, statements.len() - from,
{
    if from >= statements.len() {
        Executed::done(environment, 1)
    } else {
        let first = execute(host, statements[from as int], environment, fuel);
        match first.end {
            End::Done => execute_all(host, statements, from + 1, first.environment, fuel).behind(
                first.output,
                first.turns + 1,
            ),
            _ => first.behind(Seq::empty(), 1),
        }
    }
}

/// The lines that the requests print, in order.
pub open spec fn printed(requests: Seq<RequestView>) -> Seq<Seq<char>>
    decreases requests.len(),
{
    if requests.len() == 0 {
        Seq::empty()
    } else {
        printed(requests.drop_last()) + match requests.last() {
            RequestView::Print { text } => seq![text],
            _ => Seq::empty(),
        }
    }
}

/// Whether none of the requests reports the end of the program or a failure.
pub open spec fn calm(requests: Seq<RequestView>) -> bool {
    forall|i: int|
        0 <= i < requests.len() ==> (#[trigger] requests[i]) != RequestView::Finished
            && !(requests[i] is Failed)
}

/// Whether the requests are those of an execution that ends like this and
/// prints this: the lines are printed in order, and the failure, if there is
/// one, is reported last.
pub open spec fn ran(requests: Seq<RequestView>, end: End, output: Seq<Seq<char>>) -> bool {
    &&& printed(requests) == output
    &&& match end {
        End::Done => calm(requests),
        End::Failed(error) => requests.len() > 0 && calm(requests.drop_last()) && requests.last()
            == (RequestView::Failed { error }),
        End::Unfinished => true,
    }
}

/// The lines of two runs of requests are those of the first and then those of the second.
pub proof fn lemma_printed_add(first: Seq<RequestView>, second: Seq<RequestView>)
    ensures
        printed(first + second) == printed(first) + printed(second),
    decreases second.len(),
{
    if second.len() == 0 {
        assert(first + second =~= first);
        assert(printed(first) + printed(second) =~= printed(first));
    } else {
        lemma_printed_add(first, second.drop_last());
        assert((first + second).drop_last() =~= first + second.drop_last());
        let line: Seq<Seq<char>> = match second.last() {
            RequestView::Print { text } => seq![text],
            _ => Seq::empty(),
        };
        assert((printed(first) + printed(second.drop_last())) + line =~= printed(first) + (printed(
            second.drop_last(),
        ) + line));
    }
}

/// A single request prints its line, if it is a request to print.
proof fn lemma_printed_one(request: RequestView)
    ensures
        printed(seq![request]) == match request {
            RequestView::Print { text } => seq![text],
            _ => Seq::<Seq<char>>::empty(),
        },
{
    reveal_with_fuel(printed, 2);
    assert(seq![request].drop_last() =~= Seq::<RequestView>::empty());
    let line: Seq<Seq<char>> = match request {
        RequestView::Print { text } => seq![text],
        _ => Seq::empty(),
    };
    assert(Seq::<Seq<char>>::empty() + line =~= line);
}

/// Requests that are quiet print nothing and are calm.
proof fn lemma_quiet(requests: Seq<RequestView>)
    requires
        quiet(requests),
    ensures
        calm(requests),
        printed(requests) == Seq::<Seq<char>>::empty(),
    decreases requests.len(),
{
    if requests.len() > 0 {
        assert(requests[requests.len() - 1] == requests.last());
        assert forall|i: int| 0 <= i < requests.drop_last().len() implies (
        #[trigger] requests.drop_last()[i]) == RequestView::Continue || requests.drop_last()[i]
            is Arithmetic || requests.drop_last()[i] is Format by {
            assert(requests.drop_last()[i] == requests[i]);
        }
        lemma_quiet(requests.drop_last());
        assert(Seq::<Seq<char>>::empty() + Seq::<Seq<char>>::empty() =~= Seq::<Seq<char>>::empty());
    }
}

/// Calm requests that print `before`, followed by requests of an execution,
/// are the requests of that execution behind the lines of `before`.
proof fn lemma_ran_add(
    first: Seq<RequestView>,
    second: Seq<RequestView>,
    before: Seq<Seq<char>>,
    end: End,
    output: Seq<Seq<char>>,
)
    requires
        calm(first),
        printed(first) == before,
        ran(second, end, output),
    ensures
        ran(first + second, end, before + output),
{
    lemma_printed_add(first, second);
    let all = first + second;
    match end {
        End::Done => {
            assert forall|i: int| 0 <= i < all.len() implies (#[trigger] all[i])
                != RequestView::Finished && !(all[i] is Failed) by {
                if i < first.len() {
                    assert(all[i] == first[i]);
                } else {
                    assert(all[i] == second[i - first.len()]);
                }
            }
        },
        End::Failed(_) => {
            let rest = all.drop_last();
            assert(rest =~= first + second.drop_last());
            assert forall|i: int| 0 <= i < rest.len() implies (#[trigger] rest[i])
                != RequestView::Finished && !(rest[i] is Failed) by {
                if i < first.len() {
                    assert(rest[i] == first[i]);
                } else {
                    assert(rest[i] == second.drop_last()[i - first.len()]);
                }
            }
        },
        End::Unfinished => {},
    }
}

/// The requests of an evaluation are those of an execution that prints nothing.
proof fn lemma_requested(requests: Seq<RequestView>, outcome: Evaluated)
    requires
        requested(requests, outcome),
    ensures
        outcome.result is Ok ==> calm(requests) && printed(requests) == Seq::<Seq<char>>::empty(),
        outcome.result matches Err(error) ==> ran(requests, End::Failed(error), Seq::empty()),
{
    match outcome.result {
        Ok(_) => {
            lemma_quiet(requests);
        },
        Err(error) => {
            lemma_quiet(requests.drop_last());
            assert(requests =~= requests.drop_last() + seq![requests.last()]);
            lemma_printed_add(requests.drop_last(), seq![requests.last()]);
            lemma_printed_one(requests.last());
            assert(Seq::<Seq<char>>::empty() + Seq::<Seq<char>>::empty() =~= Seq::<Seq<char>>::empty());
        },
    }
}

/// The machine at the end of an execution that began at `machine`: the
/// machine as it was, in the environment that the execution leaves, or failed.
pub open spec fn finish(machine: InterpreterView, outcome: Executed) -> InterpreterView {
    match outcome.end {
        End::Done => machine.with_environment(outcome.environment),
        End::Failed(error) => machine.with_environment(outcome.environment).fail(error).0,
        End::Unfinished => machine,
    }
}

/// Whether the turns of the machine from `begun` on, behind the request
/// `first`, are an execution with this outcome that began at `machine`.
pub open spec fn follows(
    host: HostView,
    machine: InterpreterView,
    begun: InterpreterView,
    first: Seq<RequestView>,
    outcome: Executed,
) -> bool {
    outcome.end != End::Unfinished ==> {
        let (last, requests) = turns(host, begun, outcome.turns);
        &&& last == finish(machine, outcome)
        &&& requests.len() == outcome.turns
        &&& ran(first + requests, outcome.end, outcome.output)
    }
}

/// A turn in which the machine asks for nothing that needs a reply.
proof fn lemma_plain_turn(host: HostView, machine: InterpreterView)
    requires
        machine.dispatch().0.awaiting == Awaiting::Nothing,
    ensures
        turn(host, machine) == machine.dispatch(),
        turns(host, machine, 1) == (machine.dispatch().0, seq![machine.dispatch().1]),
{
    lemma_one_turn(host, machine);
}

/// Turns of an execution behind turns that were calm.
proof fn lemma_sequel(
    host: HostView,
    machine: InterpreterView,
    before: nat,
    lines: Seq<Seq<char>>,
    count: nat,
    end: End,
    output: Seq<Seq<char>>,
)
    requires
        calm(turns(host, machine, before).1),
        printed(turns(host, machine, before).1) == lines,
        turns(host, machine, before).1.len() == before,
        ran(turns(host, turns(host, machine, before).0, count).1, end, output),
        turns(host, turns(host, machine, before).0, count).1.len() == count,
    ensures
        turns(host, machine, before + count).0 == turns(
            host,
            turns(host, machine, before).0,
            count,
        ).0,
        turns(host, machine, before + count).1.len() == before + count,
        ran(turns(host, machine, before + count).1, end, lines + output),
{
    lemma_turns_add(host, machine, before, count);
    lemma_ran_add(
        turns(host, machine, before).1,
        turns(host, turns(host, machine, before).0, count).1,
        lines,
        end,
        output,
    );
}

/// The requests of an execution behind the request of the turn that began it.
proof fn lemma_begun(first: RequestView, requests: Seq<RequestView>, end: End, output: Seq<Seq<char>>)
    requires
        first == RequestView::Continue,
        ran(requests, end, output),
    ensures
        ran(seq![first] + requests, end, output),
{
    lemma_printed_one(first);
    lemma_ran_add(seq![first], requests, Seq::empty(), end, output);
    assert(Seq::<Seq<char>>::empty() + output =~= output);
}

/// One turn that asks for nothing but to go on.
proof fn lemma_silent_turn(host: HostView, machine: InterpreterView)
    requires
        machine.dispatch().1 == RequestView::Continue,
        machine.dispatch().0.awaiting == Awaiting::Nothing,
    ensures
        turns(host, machine, 1).0 == machine.dispatch().0,
        turns(host, machine, 1).1.len() == 1,
        ran(turns(host, machine, 1).1, End::Done, Seq::empty()),
{
    lemma_plain_turn(host, machine);
    lemma_printed_one(RequestView::Continue);
}

/// An expression statement evaluates its expression and drops the value.
proof fn lemma_execute_expression(
    host: HostView,
    machine: InterpreterView,
    statement: StmtView,
    fuel: nat,
)
    requires
        machine.awaiting == Awaiting::Nothing,
        statement is Expression,
    ensures
        follows(
            host,
            machine,
            machine.begin(statement).0,
            seq![machine.begin(statement).1],
            execute(host, statement, machine.environment, fuel),
        ),
{
    let expr = statement->Expression_expr;
    let outcome = execute(host, statement, machine.environment, fuel);
    let begun = machine.begin(statement).0;
    let value = evaluate(host, expr, machine.environment);
    lemma_evaluate(host, begun, expr);
    let second = arrival(begun, value);
    let requests = turns(host, begun, value.turns).1;
    lemma_requested(requests, value);
    match value.result {
        Ok(result) => {
            assert(second.control =~= machine.control.push(FrameView::Discard));
            assert(second.values =~= machine.values.push(result));
            lemma_silent_turn(host, second);
            lemma_sequel(host, begun, value.turns, Seq::empty(), 1, End::Done, Seq::empty());
            lemma_same(second.dispatch().0, finish(machine, outcome));
            assert(Seq::<Seq<char>>::empty() + Seq::<Seq<char>>::empty() =~= Seq::<Seq<char>>::empty());
            lemma_begun(
                machine.begin(statement).1,
                turns(host, begun, outcome.turns).1,
                outcome.end,
                outcome.output,
            );
        },
        Err(error) => {
            lemma_same(second, finish(machine, outcome));
            lemma_begun(machine.begin(statement).1, requests, outcome.end, outcome.output);
        },
    }
}

/// `print` evaluates its expression and writes the value out; the text of a
/// number comes from the host.
#[verifier::rlimit(40)]
proof fn lemma_execute_print(
    host: HostView,
    machine: InterpreterView,
    statement: StmtView,
    fuel: nat,
)
    requires
        machine.awaiting == Awaiting::Nothing,
        statement is Print,
    ensures
        follows(
            host,
            machine,
            machine.begin(statement).0,
            seq![machine.begin(statement).1],
            execute(host, statement, machine.environment, fuel),
        ),
{
    let expr = statement->Print_expr;
    let outcome = execute(host, statement, machine.environment, fuel);
    let begun = machine.begin(statement).0;
    let value = evaluate(host, expr, machine.environment);
    lemma_evaluate(host, begun, expr);
    let second = arrival(begun, value);
    let requests = turns(host, begun, value.turns).1;
    lemma_requested(requests, value);
    match value.result {
        Ok(result) => {
            assert(second.control =~= machine.control.push(FrameView::Emit));
            assert(second.values =~= machine.values.push(result));
            let line = host.written(result);
            lemma_one_turn(host, second);
            let third = turn(host, second).0;
            match result {
                LiteralView::Number(bits) => {
                    assert(third.control =~= machine.control.push(FrameView::Emit));
                    assert(third.values =~= machine.values.push(LiteralView::Str(line)));
                    lemma_one_turn(host, third);
                    lemma_turns_add(host, second, 1, 1);
                    let both = turns(host, second, 2).1;
                    assert(both =~= seq![
                        RequestView::Format { number: bits },
                        RequestView::Print { text: line },
                    ]);
                    assert(both =~= seq![RequestView::Format { number: bits }] + seq![
                        RequestView::Print { text: line },
                    ]);
                    lemma_printed_add(
                        seq![RequestView::Format { number: bits }],
                        seq![RequestView::Print { text: line }],
                    );
                    lemma_printed_one(RequestView::Format { number: bits });
                    lemma_printed_one(RequestView::Print { text: line });
                    assert(Seq::<Seq<char>>::empty() + seq![line] =~= seq![line]);
                    lemma_sequel(host, begun, value.turns, Seq::empty(), 2, End::Done, seq![line]);
                    lemma_same(turns(host, second, 2).0, finish(machine, outcome));
                },
                _ => {
                    let once = turns(host, second, 1).1;
                    assert(once =~= seq![RequestView::Print { text: line }]);
                    lemma_printed_one(RequestView::Print { text: line });
                    lemma_sequel(host, begun, value.turns, Seq::empty(), 1, End::Done, seq![line]);
                    lemma_same(third, finish(machine, outcome));
                },
            }
            assert(Seq::<Seq<char>>::empty() + seq![line] =~= seq![line]);
            lemma_begun(
                machine.begin(statement).1,
                turns(host, begun, outcome.turns).1,
                outcome.end,
                outcome.output,
            );
        },
        Err(error) => {
            lemma_same(second, finish(machine, outcome));
            lemma_begun(machine.begin(statement).1, requests, outcome.end, outcome.output);
        },
    }
}

/// `var` evaluates its initializer, if it has one, and binds the name in the
/// innermost scope.
#[verifier::rlimit(40)]
proof fn lemma_execute_var(host: HostView, machine: InterpreterView, statement: StmtView, fuel: nat)
    requires
        machine.awaiting == Awaiting::Nothing,
        statement is Var,
    ensures
        follows(
            host,
            machine,
            machine.begin(statement).0,
            seq![machine.begin(statement).1],
            execute(host, statement, machine.environment, fuel),
        ),
{
    let name = statement->Var_name;
    let outcome = execute(host, statement, machine.environment, fuel);
    let begun = machine.begin(statement).0;
    let first = machine.begin(statement).1;
    match statement->Var_initializer {
        Some(expr) => {
            let value = evaluate(host, expr, machine.environment);
            lemma_evaluate(host, begun, expr);
            let second = arrival(begun, value);
            let requests = turns(host, begun, value.turns).1;
            lemma_requested(requests, value);
            match value.result {
                Ok(result) => {
                    assert(second.control =~= machine.control.push(FrameView::Define { name }));
                    assert(second.values =~= machine.values.push(result));
                    lemma_one_turn(host, second);
                    let once = turns(host, second, 1).1;
                    assert(once =~= seq![turn(host, second).1]);
                    lemma_printed_one(turn(host, second).1);
                    assert(once.drop_last() =~= Seq::<RequestView>::empty());
                    lemma_sequel(
                        host,
                        begun,
                        value.turns,
                        Seq::empty(),
                        1,
                        outcome.end,
                        Seq::empty(),
                    );
                    lemma_same(turn(host, second).0, finish(machine, outcome));
                    assert(Seq::<Seq<char>>::empty() + Seq::<Seq<char>>::empty() =~= Seq::<
                        Seq<char>,
                    >::empty());
                    lemma_begun(
                        first,
                        turns(host, begun, outcome.turns).1,
                        outcome.end,
                        outcome.output,
                    );
                },
                Err(error) => {
                    lemma_same(second, finish(machine, outcome));
                    lemma_begun(first, requests, outcome.end, outcome.output);
                },
            }
        },
        None => {
            lemma_printed_one(first);
            assert(seq![first] + Seq::<RequestView>::empty() =~= seq![first]);
            assert(seq![first].drop_last() =~= Seq::<RequestView>::empty());
            lemma_same(begun, finish(machine, outcome));
        },
    }
}

/// A turn in which the machine starts a statement asks what the statement asks
/// at its start, which needs no reply.
proof fn lemma_begin_turn(
    host: HostView,
    machine: InterpreterView,
    base: InterpreterView,
    statement: StmtView,
)
    requires
        base.awaiting == Awaiting::Nothing,
        machine.dispatch() == base.begin(statement),
    ensures
        turns(host, machine, 1) == (base.begin(statement).0, seq![base.begin(statement).1]),
        base.begin(statement).0.awaiting == Awaiting::Nothing,
{
    lemma_plain_turn(host, machine);
}

/// A block runs its statements in a scope of its own and leaves the scope.
#[verifier::rlimit(40)]
proof fn lemma_execute_block(
    host: HostView,
    machine: InterpreterView,
    statement: StmtView,
    fuel: nat,
)
    requires
        machine.awaiting == Awaiting::Nothing,
        statement is Block,
    ensures
        follows(
            host,
            machine,
            machine.begin(statement).0,
            seq![machine.begin(statement).1],
            execute(host, statement, machine.environment, fuel),
        ),
    decreases fuel, statement, 0nat,
{
    let statements = statement->Block_statements;
    let outcome = execute(host, statement, machine.environment, fuel);
    let begun = machine.begin(statement).0;
    let first = machine.begin(statement).1;
    let inside = execute_all(host, statements, 0, machine.environment.push(), fuel);
    lemma_execute_all(host, begun, statements, 0, fuel);
    if inside.end != End::Unfinished {
        let base = begun.without_frame();
        let second = finish(base, inside);
        let requests = turns(host, begun, inside.turns).1;
        assert(Seq::<RequestView>::empty() + requests =~= requests);
        match inside.end {
            End::Done => {
                assert(second.control =~= machine.control.push(FrameView::PopScope));
                lemma_silent_turn(host, second);
                lemma_sequel(host, begun, inside.turns, inside.output, 1, End::Done, Seq::empty());
                assert(inside.output + Seq::<Seq<char>>::empty() =~= inside.output);
                lemma_same(second.dispatch().0, finish(machine, outcome));
                lemma_begun(
                    first,
                    turns(host, begun, outcome.turns).1,
                    outcome.end,
                    outcome.output,
                );
            },
            _ => {
                lemma_same(second, finish(machine, outcome));
                lemma_begun(first, requests, outcome.end, outcome.output);
            },
        }
    }
}

/// `if` evaluates its condition and runs the branch that the value selects.
#[verifier::rlimit(40)]
proof fn lemma_execute_if(host: HostView, machine: InterpreterView, statement: StmtView, fuel: nat)
    requires
        machine.awaiting == Awaiting::Nothing,
        statement is If,
    ensures
        follows(
            host,
            machine,
            machine.begin(statement).0,
            seq![machine.begin(statement).1],
            execute(host, statement, machine.environment, fuel),
        ),
    decreases fuel, statement, 0nat,
{
    let condition = statement->If_condition;
    let then_branch = *statement->If_then_branch;
    let otherwise: Option<StmtView> = match statement->If_else_branch {
        Some(branch) => Some(*branch),
        None => None,
    };
    let outcome = execute(host, statement, machine.environment, fuel);
    let begun = machine.begin(statement).0;
    let first = machine.begin(statement).1;
    let value = evaluate(host, condition, machine.environment);
    lemma_evaluate(host, begun, condition);
    let second = arrival(begun, value);
    let requests = turns(host, begun, value.turns).1;
    lemma_requested(requests, value);
    match value.result {
        Ok(chosen) => {
            let frame = FrameView::Branch { then_branch, else_branch: otherwise };
            assert(second.control =~= machine.control.push(frame));
            assert(second.values =~= machine.values.push(chosen));
            let base = machine.with_environment(value.environment);
            lemma_same(second.without_frame().without_value(), base);
            let taken: Option<StmtView> = if chosen.is_truthy() {
                Some(then_branch)
            } else {
                otherwise
            };
            match taken {
                Some(branch) => {
                    let body = execute(host, branch, value.environment, fuel);
                    lemma_execute(host, base, branch, fuel);
                    lemma_begin_turn(host, second, base, branch);
                    if body.end != End::Unfinished {
                        let third = base.begin(branch).0;
                        let opening = base.begin(branch).1;
                        let rest = turns(host, third, body.turns).1;
                        lemma_turns_add(host, second, 1, body.turns);
                        assert(turns(host, second, 1 + body.turns).1 == seq![opening] + rest);
                        lemma_sequel(
                            host,
                            begun,
                            value.turns,
                            Seq::empty(),
                            1 + body.turns,
                            body.end,
                            body.output,
                        );
                        assert(Seq::<Seq<char>>::empty() + body.output =~= body.output);
                        lemma_same(finish(base, body), finish(machine, outcome));
                        lemma_begun(
                            first,
                            turns(host, begun, outcome.turns).1,
                            outcome.end,
                            outcome.output,
                        );
                    }
                },
                None => {
                    lemma_silent_turn(host, second);
                    lemma_sequel(host, begun, value.turns, Seq::empty(), 1, End::Done, Seq::empty());
                    assert(Seq::<Seq<char>>::empty() + Seq::<Seq<char>>::empty() =~= Seq::<
                        Seq<char>,
                    >::empty());
                    lemma_same(second.dispatch().0, finish(machine, outcome));
                    lemma_begun(
                        first,
                        turns(host, begun, outcome.turns).1,
                        outcome.end,
                        outcome.output,
                    );
                },
            }
        },
        Err(error) => {
            lemma_same(second, finish(machine, outcome));
            lemma_begun(first, requests, outcome.end, outcome.output);
        },
    }
}

/// A loop evaluates its condition, runs its body while the value counts as
/// true, and comes back to the condition.
#[verifier::rlimit(40)]
proof fn lemma_repeat(
    host: HostView,
    machine: InterpreterView,
    condition: ExprView,
    body: StmtView,
    fuel: nat,
)
    requires
        machine.awaiting == Awaiting::Nothing,
        machine.control.len() >= 2,
        machine.control.last() == (FrameView::Eval { expr: condition }),
        machine.control[machine.control.len() - 2] == (FrameView::Loop { condition, body }),
    ensures
        follows(
            host,
            machine.without_frame().without_frame(),
            machine,
            Seq::empty(),
            repeat(host, condition, body, machine.environment, fuel),
        ),
    decreases fuel, body, 2nat,
{
    let base = machine.without_frame().without_frame();
    let outcome = repeat(host, condition, body, machine.environment, fuel);
    let value = evaluate(host, condition, machine.environment);
    lemma_evaluate(host, machine, condition);
    let second = arrival(machine, value);
    let requests = turns(host, machine, value.turns).1;
    lemma_requested(requests, value);
    let frame = FrameView::Loop { condition, body };
    match value.result {
        Ok(again) => {
            assert(second.control =~= base.control.push(frame));
            assert(second.values =~= base.values.push(again));
            if !again.is_truthy() {
                lemma_silent_turn(host, second);
                lemma_sequel(host, machine, value.turns, Seq::empty(), 1, End::Done, Seq::empty());
                assert(Seq::<Seq<char>>::empty() + Seq::<Seq<char>>::empty() =~= Seq::<
                    Seq<char>,
                >::empty());
                lemma_same(second.dispatch().0, finish(base, outcome));
                assert(Seq::<RequestView>::empty() + turns(host, machine, outcome.turns).1 =~= turns(
                    host,
                    machine,
                    outcome.turns,
                ).1);
            } else if fuel > 0 {
                let entry = second.without_value().with_frame(FrameView::Eval { expr: condition });
                let round = execute(host, body, value.environment, fuel);
                lemma_execute(host, entry, body, fuel);
                lemma_begin_turn(host, second, entry, body);
                if round.end != End::Unfinished {
                    let third = entry.begin(body).0;
                    let opening = entry.begin(body).1;
                    lemma_turns_add(host, second, 1, round.turns);
                    assert(turns(host, second, 1 + round.turns).1 == seq![opening] + turns(
                        host,
                        third,
                        round.turns,
                    ).1);
                    lemma_sequel(
                        host,
                        machine,
                        value.turns,
                        Seq::empty(),
                        1 + round.turns,
                        round.end,
                        round.output,
                    );
                    assert(Seq::<Seq<char>>::empty() + round.output =~= round.output);
                    let fourth = finish(entry, round);
                    let so_far = value.turns + 1 + round.turns;
                    assert(turns(host, machine, so_far).0 == fourth);
                    match round.end {
                        End::Done => {
                            let later = repeat(
                                host,
                                condition,
                                body,
                                round.environment,
                                (fuel - 1) as nat,
                            );
                            assert(fourth.control =~= base.control.push(frame).push(
                                FrameView::Eval { expr: condition },
                            ));
                            lemma_repeat(host, fourth, condition, body, (fuel - 1) as nat);
                            if later.end != End::Unfinished {
                                let tail = turns(host, fourth, later.turns).1;
                                assert(Seq::<RequestView>::empty() + tail =~= tail);
                                lemma_sequel(
                                    host,
                                    machine,
                                    so_far,
                                    round.output,
                                    later.turns,
                                    later.end,
                                    later.output,
                                );
                                lemma_same(
                                    finish(fourth.without_frame().without_frame(), later),
                                    finish(base, outcome),
                                );
                                assert(Seq::<RequestView>::empty() + turns(
                                    host,
                                    machine,
                                    outcome.turns,
                                ).1 =~= turns(host, machine, outcome.turns).1);
                            }
                        },
                        _ => {
                            lemma_same(fourth, finish(base, outcome));
                            assert(Seq::<RequestView>::empty() + turns(
                                host,
                                machine,
                                outcome.turns,
                            ).1 =~= turns(host, machine, outcome.turns).1);
                        },
                    }
                }
            }
        },
        Err(error) => {
            lemma_same(second, finish(base, outcome));
            assert(Seq::<RequestView>::empty() + requests =~= requests);
        },
    }
}

/// `while` is its loop.
proof fn lemma_execute_while(
    host: HostView,
    machine: InterpreterView,
    statement: StmtView,
    fuel: nat,
)
    requires
        machine.awaiting == Awaiting::Nothing,
        statement is While,
    ensures
        follows(
            host,
            machine,
            machine.begin(statement).0,
            seq![machine.begin(statement).1],
            execute(host, statement, machine.environment, fuel),
        ),
    decreases fuel, statement, 0nat,
{
    let condition = statement->While_condition;
    let body = *statement->While_body;
    let outcome = execute(host, statement, machine.environment, fuel);
    let begun = machine.begin(statement).0;
    let first = machine.begin(statement).1;
    lemma_repeat(host, begun, condition, body, fuel);
    if outcome.end != End::Unfinished {
        let requests = turns(host, begun, outcome.turns).1;
        assert(Seq::<RequestView>::empty() + requests =~= requests);
        lemma_same(begun.without_frame().without_frame(), machine);
        lemma_begun(first, requests, outcome.end, outcome.output);
    }
}

/// The statements of a list run one after the other, up to the first that
/// does not end well.
#[verifier::rlimit(40)]
pub proof fn lemma_execute_all(
    host: HostView,
    machine: InterpreterView,
    statements: Seq<StmtView>,
    from: nat,
    fuel: nat,
)
    requires
        machine.awaiting == Awaiting::Nothing,
        machine.control.len() > 0,
        machine.control.last() == (FrameView::Run { statements, next: from }),
    ensures
        follows(
            host,
            machine.without_frame(),
            machine,
            Seq::empty(),
            execute_all(host, statements, from, machine.environment, fuel),
        ),
    decreases fuel, statements, statements.len() - from,
{
    let base = machine.without_frame();
    let outcome = execute_all(host, statements, from, machine.environment, fuel);
    if from >= statements.len() {
        lemma_silent_turn(host, machine);
        lemma_same(machine.dispatch().0, finish(base, outcome));
        assert(Seq::<RequestView>::empty() + turns(host, machine, 1).1 =~= turns(host, machine, 1).1);
    } else {
        let statement = statements[from as int];
        let entry = base.with_frame(FrameView::Run { statements, next: from + 1 });
        let first = execute(host, statement, machine.environment, fuel);
        lemma_execute(host, entry, statement, fuel);
        lemma_begin_turn(host, machine, entry, statement);
        if first.end != End::Unfinished {
            let second = entry.begin(statement).0;
            let opening = entry.begin(statement).1;
            lemma_turns_add(host, machine, 1, first.turns);
            let so_far = 1 + first.turns;
            assert(turns(host, machine, so_far).1 == seq![opening] + turns(
                host,
                second,
                first.turns,
            ).1);
            let third = finish(entry, first);
            assert(turns(host, machine, so_far).0 == third);
            match first.end {
                End::Done => {
                    let later = execute_all(host, statements, from + 1, first.environment, fuel);
                    lemma_execute_all(host, third, statements, from + 1, fuel);
                    if later.end != End::Unfinished {
                        let tail = turns(host, third, later.turns).1;
                        assert(Seq::<RequestView>::empty() + tail =~= tail);
                        lemma_sequel(
                            host,
                            machine,
                            so_far,
                            first.output,
                            later.turns,
                            later.end,
                            later.output,
                        );
                        lemma_same(finish(third.without_frame(), later), finish(base, outcome));
                        assert(Seq::<RequestView>::empty() + turns(host, machine, outcome.turns).1
                            =~= turns(host, machine, outcome.turns).1);
                    }
                },
                _ => {
                    lemma_same(third, finish(base, outcome));
                    assert(first.output + Seq::<Seq<char>>::empty() =~= first.output);
                    assert(Seq::<Seq<char>>::empty() + first.output =~= first.output);
                    assert(Seq::<RequestView>::empty() + turns(host, machine, outcome.turns).1
                        =~= turns(host, machine, outcome.turns).1);
                },
            }
        }
    }
}

/// The interpreter does what a statement does. A machine that awaits nothing
/// and starts the statement takes the turns that the execution takes, unless
/// its loops run for more rounds than `fuel` allows. If the execution ends
/// well, the machine is then where it was before the statement, in the
/// environment that the execution leaves; if the execution fails, the machine
/// has failed with the same error in its last turn. In both cases the machine
/// has asked the host to print the lines that the execution prints, in order.
pub proof fn lemma_execute(host: HostView, machine: InterpreterView, statement: StmtView, fuel: nat)
    requires
        machine.awaiting == Awaiting::Nothing,
    ensures
        follows(
            host,
            machine,
            machine.begin(statement).0,
            seq![machine.begin(statement).1],
            execute(host, statement, machine.environment, fuel),
        ),
    decreases fuel, statement, 1nat,
{
    match statement {
        StmtView::Expression { .. } => {
            lemma_execute_expression(host, machine, statement, fuel);
        },
        StmtView::Print { .. } => {
            lemma_execute_print(host, machine, statement, fuel);
        },
        StmtView::Var { .. } => {
            lemma_execute_var(host, machine, statement, fuel);
        },
        StmtView::Block { .. } => {
            lemma_execute_block(host, machine, statement, fuel);
        },
        StmtView::If { .. } => {
            lemma_execute_if(host, machine, statement, fuel);
        },
        StmtView::While { .. } => {
            lemma_execute_while(host, machine, statement, fuel);
        },
    }
}

/// What running a program comes to: the statements are executed in order in
/// the environment given, and after a failure every scope that was entered is left.
pub open spec fn run(
    host: HostView,
    statements: Seq<StmtView>,
    environment: EnvironmentView,
    fuel: nat,
) -> Executed {
    let outcome = execute_all(host, statements, 0, environment, fuel);
    match outcome.end {
        End::Failed(_) => Executed {
            environment: outcome.environment.unwind(environment.nesting()),
            ..outcome
        },
        _ => outcome,
    }
}

/// The interpreter runs a program as its statements say. Started on the
/// program and answered by the host, the machine takes the turns that the
/// execution takes, unless its loops run for more rounds than `fuel` allows.
/// It asks the host to print the lines that the execution prints, in order,
/// and then has no work and no values left and holds the environment that the
/// execution leaves. After an execution that ends well its next request
/// reports the end of the program; the last request of one that fails reports
/// the failure.
pub proof fn lemma_run(
    host: HostView,
    statements: Seq<StmtView>,
    environment: EnvironmentView,
    fuel: nat,
)
    ensures
        ({
            let machine = InterpreterView::start(statements, environment);
            let outcome = run(host, statements, environment, fuel);
            outcome.end != End::Unfinished ==> {
                let (last, requests) = turns(host, machine, outcome.turns);
                &&& ran(requests, outcome.end, outcome.output)
                &&& last.environment == outcome.environment
                &&& last.control.len() == 0
                &&& last.values.len() == 0
                &&& last.awaiting == Awaiting::Nothing
                &&& outcome.end == End::Done ==> turn(host, last) == (last, RequestView::Finished)
            }
        }),
{
    let machine = InterpreterView::start(statements, environment);
    lemma_execute_all(host, machine, statements, 0, fuel);
    let outcome = execute_all(host, statements, 0, environment, fuel);
    if outcome.end != End::Unfinished {
        let requests = turns(host, machine, outcome.turns).1;
        assert(Seq::<RequestView>::empty() + requests =~= requests);
    }
}

/// The machine driven by a host for a number of steps: each step takes the
/// host's reply to the request of the step before. The result is the machine,
/// the reply that the next step would take, and the requests of the steps.
pub open spec fn driven(host: HostView, machine: InterpreterView, reply: ReplyView, count: nat) -> (
    InterpreterView,
    ReplyView,
    Seq<RequestView>,
)
    decreases count,
{
    if count == 0 {
        (machine, reply, Seq::empty())
    } else {
        let (after, request) = machine.step(reply);
        let (last, answer, requests) = driven(host, after, host.reply(request), (count - 1) as nat);
        (last, answer, seq![request] + requests)
    }
}

/// Whether the machine, having made the request, waits for the reply that the
/// request asks for, with the values in place that the reply goes to.
pub open spec fn expects(after: InterpreterView, request: RequestView) -> bool {
    match after.awaiting {
        Awaiting::Nothing => true,
        Awaiting::Number => request is Arithmetic,
        Awaiting::Text => request is Format && after.values.len() >= 1,
        Awaiting::TextBelow => request is Format && after.values.len() >= 2,
    }
}

/// Starting a statement leaves nothing awaited.
proof fn lemma_begin_expects(machine: InterpreterView, statement: StmtView)
    requires
        machine.awaiting == Awaiting::Nothing,
    ensures
        machine.begin(statement).0.awaiting == Awaiting::Nothing,
{
}

/// Taking an expression apart leaves nothing awaited.
proof fn lemma_evaluate_expects(machine: InterpreterView, expr: ExprView)
    requires
        machine.awaiting == Awaiting::Nothing,
    ensures
        machine.evaluate(expr).0.awaiting == Awaiting::Nothing,
{
}

/// Whatever a machine asks, it waits for the reply to just that.
#[verifier::rlimit(40)]
proof fn lemma_dispatch_expects(machine: InterpreterView)
    requires
        machine.awaiting == Awaiting::Nothing,
    ensures
        expects(machine.dispatch().0, machine.dispatch().1),
{
    if machine.control.len() > 0 {
        let rest = machine.without_frame();
        match machine.control.last() {
            FrameView::Run { statements, next } => {
                if next < statements.len() {
                    lemma_begin_expects(
                        rest.with_frame(FrameView::Run { statements, next: next + 1 }),
                        statements[next as int],
                    );
                }
            },
            FrameView::Eval { expr } => {
                lemma_evaluate_expects(rest, expr);
            },
            FrameView::Branch { then_branch, else_branch } => {
                lemma_begin_expects(rest.without_value(), then_branch);
                match else_branch {
                    Some(branch) => {
                        lemma_begin_expects(rest.without_value(), branch);
                    },
                    None => {},
                }
            },
            FrameView::Loop { condition, body } => {
                lemma_begin_expects(
                    machine.without_value().with_frame(FrameView::Eval { expr: condition }),
                    body,
                );
            },
            FrameView::Emit => {
                assert(expects(machine.emit().0, machine.emit().1));
            },
            FrameView::Unary { operator } => {
                assert(machine.apply_unary(operator).0.awaiting == Awaiting::Nothing);
            },
            FrameView::Binary { operator } => {
                assert(expects(machine.apply_binary(operator).0, machine.apply_binary(operator).1));
            },
            FrameView::Logical { operator, right } => {
                assert(machine.apply_logical(operator, right).0.awaiting == Awaiting::Nothing);
            },
            FrameView::Store { name } => {
                assert(machine.store(name).0.awaiting == Awaiting::Nothing);
            },
            FrameView::Define { name } => {
                assert(machine.define(name).0.awaiting == Awaiting::Nothing);
            },
            FrameView::Discard => {},
            FrameView::PopScope => {},
        }
    }
}

/// The host's reply to what a machine asks is one that the machine takes.
pub proof fn lemma_replied(host: HostView, machine: InterpreterView)
    requires
        machine.awaiting == Awaiting::Nothing,
    ensures
        machine.dispatch().0.receive(host.reply(machine.dispatch().1)).is_some(),
        turn(host, machine).0.awaiting == Awaiting::Nothing,
{
    lemma_dispatch_expects(machine);
}

/// Steps and turns are the same run, seen from the host and from the machine:
/// a machine that is stepped by a host, each step taking the reply to the
/// request before, makes the requests of the turns, and once it has taken the
/// reply to its last request it is the machine that the turns lead to.
pub proof fn lemma_driven(
    host: HostView,
    machine: InterpreterView,
    reply: ReplyView,
    settled: InterpreterView,
    count: nat,
)
    requires
        machine.receive(reply) == Some(settled),
        settled.awaiting == Awaiting::Nothing,
    ensures
        driven(host, machine, reply, count).2 == turns(host, settled, count).1,
        driven(host, machine, reply, count).0.receive(driven(host, machine, reply, count).1)
            == Some(turns(host, settled, count).0),
    decreases count,
{
    if count > 0 {
        lemma_replied(host, settled);
        let (after, request) = machine.step(reply);
        let (next, _) = turn(host, settled);
        lemma_driven(host, after, host.reply(request), next, (count - 1) as nat);
    }
}

/// Evaluating an expression enters and leaves no scope.
pub proof fn lemma_evaluate_keeps_scopes(
    host: HostView,
    expr: ExprView,
    environment: EnvironmentView,
)
    ensures
        evaluate(host, expr, environment).environment.depth() == environment.depth(),
    decreases expr,
{
    match expr {
        ExprView::Literal { .. } | ExprView::Variable { .. } => {},
        ExprView::Grouping { expr } => {
            lemma_evaluate_keeps_scopes(host, *expr, environment);
        },
        ExprView::Unary { right, .. } => {
            lemma_evaluate_keeps_scopes(host, *right, environment);
        },
        ExprView::Binary { left, right, .. } => {
            lemma_evaluate_keeps_scopes(host, *left, environment);
            lemma_evaluate_keeps_scopes(
                host,
                *right,
                evaluate(host, *left, environment).environment,
            );
        },
        ExprView::Logical { left, right, .. } => {
            lemma_evaluate_keeps_scopes(host, *left, environment);
            lemma_evaluate_keeps_scopes(
                host,
                *right,
                evaluate(host, *left, environment).environment,
            );
        },
        ExprView::Assign { name, value } => {
            lemma_evaluate_keeps_scopes(host, *value, environment);
            let assigned = evaluate(host, *value, environment).environment;
            crate::environment::lemma_resolve_below_innermost(
                assigned,
                name.name(),
                assigned.scopes.len() as int,
            );
        },
    }
}

/// A statement that ends well leaves as many scopes as it found: every block
/// that it entered, it has left. One that fails has left none that it found.
pub proof fn lemma_execute_keeps_scopes(
    host: HostView,
    statement: StmtView,
    environment: EnvironmentView,
    fuel: nat,
)
    requires
        environment.depth() >= 1,
    ensures
        ({
            let outcome = execute(host, statement, environment, fuel);
            &&& outcome.end == End::Done ==> outcome.environment.depth() == environment.depth()
            &&& outcome.end is Failed ==> outcome.environment.depth() >= environment.depth()
        }),
    decreases fuel, statement, 0nat,
{
    match statement {
        StmtView::Expression { expr } => {
            lemma_evaluate_keeps_scopes(host, expr, environment);
        },
        StmtView::Print { expr } => {
            lemma_evaluate_keeps_scopes(host, expr, environment);
        },
        StmtView::Var { initializer, .. } => match initializer {
            Some(expr) => {
                lemma_evaluate_keeps_scopes(host, expr, environment);
            },
            None => {},
        },
        StmtView::Block { statements } => {
            lemma_execute_all_keeps_scopes(host, statements, 0, environment.push(), fuel);
        },
        StmtView::If { condition, then_branch, else_branch } => {
            lemma_evaluate_keeps_scopes(host, condition, environment);
            let chosen = evaluate(host, condition, environment);
            lemma_execute_keeps_scopes(host, *then_branch, chosen.environment, fuel);
            match else_branch {
                Some(branch) => {
                    lemma_execute_keeps_scopes(host, *branch, chosen.environment, fuel);
                },
                None => {},
            }
        },
        StmtView::While { condition, body } => {
            lemma_repeat_keeps_scopes(host, condition, *body, environment, fuel);
        },
    }
}

proof fn lemma_repeat_keeps_scopes(
    host: HostView,
    condition: ExprView,
    body: StmtView,
    environment: EnvironmentView,
    fuel: nat,
)
    requires
        environment.depth() >= 1,
    ensures
        ({
            let outcome = repeat(host, condition, body, environment, fuel);
            &&& outcome.end == End::Done ==> outcome.environment.depth() == environment.depth()
            &&& outcome.end is Failed ==> outcome.environment.depth() >= environment.depth()
        }),
    decreases fuel, body, 1nat,
{
    lemma_evaluate_keeps_scopes(host, condition, environment);
    let value = evaluate(host, condition, environment);
    match value.result {
        Ok(again) => {
            if again.is_truthy() && fuel > 0 {
                lemma_execute_keeps_scopes(host, body, value.environment, fuel);
                let round = execute(host, body, value.environment, fuel);
                if round.end == End::Done {
                    lemma_repeat_keeps_scopes(
                        host,
                        condition,
                        body,
                        round.environment,
                        (fuel - 1) as nat,
                    );
                }
            }
        },
        Err(_) => {},
    }
}

proof fn lemma_execute_all_keeps_scopes(
    host: HostView,
    statements: Seq<StmtView>,
    from: nat,
    environment: EnvironmentView,
    fuel: nat,
)
    requires
        environment.depth() >= 1,
    ensures
        ({
            let outcome = execute_all(host, statements, from, environment, fuel);
            &&& outcome.end == End::Done ==> outcome.environment.depth() == environment.depth()
            &&& outcome.end is Failed ==> outcome.environment.depth() >= environment.depth()
        }),
    decreases fuel, statements, statements.len() - from,
{
    if from < statements.len() {
        lemma_execute_keeps_scopes(host, statements[from as int], environment, fuel);
        let first = execute(host, statements[from as int], environment, fuel);
        if first.end == End::Done {
            lemma_execute_all_keeps_scopes(host, statements, from + 1, first.environment, fuel);
        }
    }
}

/// A program leaves the scopes as it found them, however it ends: what a
/// block declares is gone when the block is left, also where an error inside
/// it stops the program.
pub proof fn lemma_run_keeps_scopes(
    host: HostView,
    statements: Seq<StmtView>,
    environment: EnvironmentView,
    fuel: nat,
)
    requires
        environment.depth() >= 1,
    ensures
        run(host, statements, environment, fuel).end != End::Unfinished ==> run(
            host,
            statements,
            environment,
            fuel,
        ).environment.depth() == environment.depth(),
{
    lemma_execute_all_keeps_scopes(host, statements, 0, environment, fuel);
}

} // verus!
