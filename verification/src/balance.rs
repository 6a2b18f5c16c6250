//! What every step of the interpreter keeps: the values that the pending work
//! needs are there, and the scopes match the blocks that the work is inside of.

use crate::environment::{lemma_resolve_below_innermost, EnvironmentView};
use crate::interpret::{
    Awaiting, FrameView, InterpreterView, ReplyView, RequestView, RuntimeErrorView,
};
use crate::stmt::{all_placed, ExprView, StmtView};
use vstd::prelude::*;

verus! {

/// The number of values that a piece of work finds on top of the values and uses up.
pub open spec fn takes(frame: FrameView) -> nat {
    match frame {
        FrameView::Run { .. } | FrameView::Eval { .. } | FrameView::PopScope => 0,
        FrameView::Binary { .. } => 2,
        _ => 1,
    }
}

/// The number of values that a piece of work leaves on top of the values.
pub open spec fn gives(frame: FrameView) -> nat {
    match frame {
        FrameView::Eval { .. }
        | FrameView::Unary { .. }
        | FrameView::Binary { .. }
        | FrameView::Logical { .. }
        | FrameView::Store { .. } => 1,
        _ => 0,
    }
}

/// Whether the pending work, done from the top down on `height` values, finds
/// the values that each piece uses and leaves none at the end.
pub open spec fn balanced(control: Seq<FrameView>, height: nat) -> bool
    decreases control.len(),
{
    if control.len() == 0 {
        height == 0
    } else {
        height >= takes(control.last()) && balanced(
            control.drop_last(),
            (height - takes(control.last()) + gives(control.last())) as nat,
        )
    }
}

/// The number of blocks that the pending work is inside of.
pub open spec fn blocks(control: Seq<FrameView>) -> nat
    decreases control.len(),
{
    if control.len() == 0 {
        0
    } else {
        blocks(control.drop_last()) + if control.last() == FrameView::PopScope {
            1nat
        } else {
            0nat
        }
    }
}

/// Whether every token that names a variable in a piece of work lies inside its source.
pub open spec fn frame_placed(frame: FrameView) -> bool {
    match frame {
        FrameView::Run { statements, .. } => all_placed(statements),
        FrameView::Eval { expr } => expr.is_placed(),
        FrameView::Define { name } => name.is_placed(),
        FrameView::Branch { then_branch, else_branch } => then_branch.is_placed()
            && match else_branch {
            Some(branch) => branch.is_placed(),
            None => true,
        },
        FrameView::Loop { condition, body } => condition.is_placed() && body.is_placed(),
        FrameView::Logical { right, .. } => right.is_placed(),
        FrameView::Store { name } => name.is_placed(),
        _ => true,
    }
}

/// The number of values that the awaited reply adds.
pub open spec fn awaited(awaiting: Awaiting) -> nat {
    if awaiting == Awaiting::Number {
        1
    } else {
        0
    }
}

/// What holds of every machine that was started on a program with its tokens
/// in place: the scopes above those of the start are the blocks that the
/// pending work is inside of; the values are those that the pending work uses;
/// a text is awaited only for a number that the piece of work on top has in
/// front of it; and the tokens of the pending work are in place.
pub open spec fn well_formed(machine: InterpreterView) -> bool {
    &&& machine.environment.depth() == machine.nesting + 1 + blocks(machine.control)
    &&& balanced(machine.control, machine.values.len() + awaited(machine.awaiting))
    &&& forall|i: int|
        0 <= i < machine.control.len() ==> frame_placed(#[trigger] machine.control[i])
    &&& machine.awaiting == Awaiting::Text ==> machine.control.len() > 0 && (
    machine.control.last() == FrameView::Emit || machine.control.last() is Binary)
    &&& machine.awaiting == Awaiting::TextBelow ==> machine.control.len() > 0
        && machine.control.last() is Binary
}

/// The balance of pending work with one more piece on top.
pub proof fn lemma_balanced_push(control: Seq<FrameView>, frame: FrameView, height: nat)
    ensures
        balanced(control.push(frame), height) == (height >= takes(frame) && balanced(
            control,
            (height - takes(frame) + gives(frame)) as nat,
        )),
        blocks(control.push(frame)) == blocks(control) + if frame == FrameView::PopScope {
            1nat
        } else {
            0nat
        },
{
    assert(control.push(frame).drop_last() =~= control);
}

/// Pending work that is not empty is the work below its top with the top on it.
proof fn lemma_top(control: Seq<FrameView>)
    requires
        control.len() > 0,
    ensures
        control == control.drop_last().push(control.last()),
{
    assert(control =~= control.drop_last().push(control.last()));
}

/// What a stopped machine looks like: no work, no values, nothing awaited, and
/// the scopes of the start.
pub open spec fn at_rest(machine: InterpreterView) -> bool {
    &&& machine.control.len() == 0
    &&& machine.values.len() == 0
    &&& machine.awaiting == Awaiting::Nothing
    &&& machine.environment.nesting() == machine.nesting
}

/// A failure leaves every block that was entered: the machine is at rest.
proof fn lemma_fail(machine: InterpreterView, error: RuntimeErrorView)
    requires
        machine.environment.depth() == machine.nesting + 1 + blocks(machine.control),
    ensures
        well_formed(machine.fail(error).0),
        at_rest(machine.fail(error).0),
        machine.fail(error).0.nesting == machine.nesting,
{
}

/// The machine with a piece of work put on top.
proof fn lemma_with_frame(machine: InterpreterView, frame: FrameView)
    requires
        forall|i: int|
            0 <= i < machine.control.len() ==> frame_placed(#[trigger] machine.control[i]),
        frame_placed(frame),
    ensures
        forall|i: int|
            0 <= i < machine.with_frame(frame).control.len() ==> frame_placed(
                #[trigger] machine.with_frame(frame).control[i],
            ),
        forall|height: nat|
            balanced(machine.with_frame(frame).control, height) == (height >= takes(frame)
                && balanced(machine.control, (height - takes(frame) + gives(frame)) as nat)),
        blocks(machine.with_frame(frame).control) == blocks(machine.control) + if frame
            == FrameView::PopScope {
            1nat
        } else {
            0nat
        },
{
    assert forall|height: nat|
        balanced(machine.with_frame(frame).control, height) == (height >= takes(frame) && balanced(
            machine.control,
            (height - takes(frame) + gives(frame)) as nat,
        )) by {
        lemma_balanced_push(machine.control, frame, height);
    }
    lemma_balanced_push(machine.control, frame, 0);
}

/// Starting a statement keeps the machine well formed and asks nothing of the host.
#[verifier::rlimit(40)]
proof fn lemma_begin(machine: InterpreterView, statement: StmtView)
    requires
        well_formed(machine),
        machine.awaiting == Awaiting::Nothing,
        statement.is_placed(),
    ensures
        well_formed(machine.begin(statement).0),
        machine.begin(statement).0.nesting == machine.nesting,
        machine.begin(statement).1 == RequestView::Continue,
{
    match statement {
        StmtView::Expression { expr } => {
            let first = machine.with_frame(FrameView::Discard);
            lemma_with_frame(machine, FrameView::Discard);
            lemma_with_frame(first, FrameView::Eval { expr });
        },
        StmtView::Print { expr } => {
            let first = machine.with_frame(FrameView::Emit);
            lemma_with_frame(machine, FrameView::Emit);
            lemma_with_frame(first, FrameView::Eval { expr });
        },
        StmtView::Var { name, initializer } => match initializer {
            Some(expr) => {
                let first = machine.with_frame(FrameView::Define { name });
                lemma_with_frame(machine, FrameView::Define { name });
                lemma_with_frame(first, FrameView::Eval { expr });
            },
            None => {},
        },
        StmtView::Block { statements } => {
            let entered = machine.with_environment(machine.environment.push());
            let first = entered.with_frame(FrameView::PopScope);
            lemma_with_frame(entered, FrameView::PopScope);
            lemma_with_frame(first, FrameView::Run { statements, next: 0 });
        },
        StmtView::If { condition, then_branch, else_branch } => {
            let frame = FrameView::Branch {
                then_branch: *then_branch,
                else_branch: match else_branch {
                    Some(branch) => Some(*branch),
                    None => None,
                },
            };
            let first = machine.with_frame(frame);
            lemma_with_frame(machine, frame);
            lemma_with_frame(first, FrameView::Eval { expr: condition });
        },
        StmtView::While { condition, body } => {
            let frame = FrameView::Loop { condition, body: *body };
            let first = machine.with_frame(frame);
            lemma_with_frame(machine, frame);
            lemma_with_frame(first, FrameView::Eval { expr: condition });
        },
    }
}

/// The machine below its top piece of work.
proof fn lemma_without_frame(machine: InterpreterView)
    requires
        well_formed(machine),
        machine.control.len() > 0,
    ensures
        forall|i: int|
            0 <= i < machine.without_frame().control.len() ==> frame_placed(
                #[trigger] machine.without_frame().control[i],
            ),
        frame_placed(machine.control.last()),
        machine.values.len() + awaited(machine.awaiting) >= takes(machine.control.last()),
        balanced(
            machine.without_frame().control,
            (machine.values.len() + awaited(machine.awaiting) - takes(machine.control.last())
                + gives(machine.control.last())) as nat,
        ),
        blocks(machine.control) == blocks(machine.without_frame().control) + if machine.control.last()
            == FrameView::PopScope {
            1nat
        } else {
            0nat
        },
{
    assert forall|i: int| 0 <= i < machine.without_frame().control.len() implies frame_placed(
        #[trigger] machine.without_frame().control[i],
    ) by {
        assert(machine.without_frame().control[i] == machine.control[i]);
    }
}

/// Taking an expression apart keeps the machine well formed, and fails only
/// on a variable that is not defined.
#[verifier::rlimit(40)]
proof fn lemma_evaluate(machine: InterpreterView, expr: ExprView)
    requires
        machine.environment.depth() == machine.nesting + 1 + blocks(machine.control),
        balanced(machine.control, machine.values.len() + 1),
        forall|i: int|
            0 <= i < machine.control.len() ==> frame_placed(#[trigger] machine.control[i]),
        machine.awaiting == Awaiting::Nothing,
        expr.is_placed(),
    ensures
        well_formed(machine.evaluate(expr).0),
        machine.evaluate(expr).0.nesting == machine.nesting,
        machine.evaluate(expr).1 == RequestView::Continue || (machine.evaluate(
            expr,
        ).1 matches RequestView::Failed { error: RuntimeErrorView::UndefinedVariable { .. } }
            && at_rest(machine.evaluate(expr).0)),
{
    match expr {
        ExprView::Literal { val } => {},
        ExprView::Grouping { expr } => {
            lemma_with_frame(machine, FrameView::Eval { expr: *expr });
        },
        ExprView::Variable { name } => {
            lemma_fail(machine, RuntimeErrorView::UndefinedVariable { name });
        },
        ExprView::Unary { operator, right } => {
            let first = machine.with_frame(FrameView::Unary { operator });
            lemma_with_frame(machine, FrameView::Unary { operator });
            lemma_with_frame(first, FrameView::Eval { expr: *right });
        },
        ExprView::Binary { left, operator, right } => {
            let first = machine.with_frame(FrameView::Binary { operator });
            let second = first.with_frame(FrameView::Eval { expr: *right });
            lemma_with_frame(machine, FrameView::Binary { operator });
            lemma_with_frame(first, FrameView::Eval { expr: *right });
            lemma_with_frame(second, FrameView::Eval { expr: *left });
        },
        ExprView::Logical { left, operator, right } => {
            let first = machine.with_frame(FrameView::Logical { operator, right: *right });
            lemma_with_frame(machine, FrameView::Logical { operator, right: *right });
            lemma_with_frame(first, FrameView::Eval { expr: *left });
        },
        ExprView::Assign { name, value } => {
            let first = machine.with_frame(FrameView::Store { name });
            lemma_with_frame(machine, FrameView::Store { name });
            lemma_with_frame(first, FrameView::Eval { expr: *value });
        },
    }
}

/// Whether the reply is of the kind that the machine waits for.
pub open spec fn answers(awaiting: Awaiting, reply: ReplyView) -> bool {
    match awaiting {
        Awaiting::Nothing => true,
        Awaiting::Number => reply is Number,
        Awaiting::Text | Awaiting::TextBelow => reply is Text,
    }
}

/// Taking in a reply of the awaited kind keeps the machine well formed and
/// leaves nothing awaited.
proof fn lemma_receive(machine: InterpreterView, reply: ReplyView)
    requires
        well_formed(machine),
    ensures
        machine.receive(reply).is_some() == answers(machine.awaiting, reply),
        machine.receive(reply).is_some() ==> {
            let ready = machine.receive(reply).unwrap();
            &&& well_formed(ready)
            &&& ready.awaiting == Awaiting::Nothing
            &&& ready.nesting == machine.nesting
            &&& ready.control == machine.control
            &&& ready.environment == machine.environment
        },
{
    if machine.awaiting == Awaiting::Text || machine.awaiting == Awaiting::TextBelow {
        lemma_without_frame(machine);
    }
}

/// Whether a request reports that the machine found its own state broken.
pub open spec fn is_internal(request: RequestView) -> bool {
    request == (RequestView::Failed { error: RuntimeErrorView::Malformed }) || request == (
    RequestView::Failed { error: RuntimeErrorView::UnexpectedReply })
}

/// Working on the piece on top keeps the machine well formed, and never finds
/// the values or the tokens that the piece needs missing.
#[verifier::rlimit(40)]
proof fn lemma_dispatch(machine: InterpreterView)
    requires
        well_formed(machine),
        machine.awaiting == Awaiting::Nothing,
    ensures
        well_formed(machine.dispatch().0),
        machine.dispatch().0.nesting == machine.nesting,
        !is_internal(machine.dispatch().1),
        machine.dispatch().1 == RequestView::Finished ==> at_rest(machine) && machine.dispatch().0
            == machine,
        machine.dispatch().1 is Failed ==> at_rest(machine.dispatch().0),
{
    if machine.control.len() > 0 {
        lemma_without_frame(machine);
        let rest = machine.without_frame();
        match machine.control.last() {
            FrameView::Run { statements, next } => {
                if next < statements.len() {
                    let frame = FrameView::Run { statements, next: next + 1 };
                    lemma_with_frame(rest, frame);
                    lemma_begin(rest.with_frame(frame), statements[next as int]);
                }
            },
            FrameView::Eval { expr } => {
                lemma_evaluate(rest, expr);
            },
            FrameView::Discard => {},
            FrameView::Emit => {},
            FrameView::Define { name } => {},
            FrameView::PopScope => {},
            FrameView::Branch { then_branch, else_branch } => {
                let below = rest.without_value();
                lemma_begin(below, then_branch);
                match else_branch {
                    Some(statement) => {
                        lemma_begin(below, statement);
                    },
                    None => {},
                }
            },
            FrameView::Loop { condition, body } => {
                let below = machine.without_value();
                let frame = FrameView::Eval { expr: condition };
                lemma_top(machine.control);
                lemma_with_frame(rest, machine.control.last());
                lemma_with_frame(below, frame);
                lemma_begin(below.with_frame(frame), body);
            },
            FrameView::Unary { operator } => {
                lemma_fail(
                    machine,
                    RuntimeErrorView::TypeMismatch {
                        operator,
                        left: None,
                        right: machine.values.last().kind(),
                    },
                );
            },
            FrameView::Binary { operator } => {
                lemma_fail(
                    machine,
                    RuntimeErrorView::TypeMismatch {
                        operator,
                        left: Some(machine.values[machine.values.len() - 2].kind()),
                        right: machine.values.last().kind(),
                    },
                );
            },
            FrameView::Logical { operator, right } => {
                lemma_with_frame(rest.without_value(), FrameView::Eval { expr: right });
            },
            FrameView::Store { name } => {
                lemma_fail(machine, RuntimeErrorView::UndefinedVariable { name });
                lemma_resolve_below_innermost(
                    machine.environment,
                    name.name(),
                    machine.environment.scopes.len() as int,
                );
            },
        }
    }
}

/// A machine that starts a program whose tokens are in place is well formed.
pub proof fn lemma_start_is_well_formed(statements: Seq<StmtView>, environment: EnvironmentView)
    requires
        environment.depth() >= 1,
        all_placed(statements),
    ensures
        well_formed(InterpreterView::start(statements, environment)),
{
    let machine = InterpreterView::start(statements, environment);
    let frame = FrameView::Run { statements, next: 0 };
    assert(machine.control =~= Seq::<FrameView>::empty().push(frame));
    lemma_balanced_push(Seq::empty(), frame, 0);
}

/// A step keeps a well-formed machine well formed, and such a machine never
/// finds its own state broken: no step of it misses a value or a token that
/// it needs, and the only reply that stops it is one of the wrong kind. When
/// it reports the end of the program or a failure it is at rest: every block
/// that was entered has been left, and no work and no value are left over.
pub proof fn lemma_step(machine: InterpreterView, reply: ReplyView)
    requires
        well_formed(machine),
    ensures
        ({
            let (after, request) = machine.step(reply);
            &&& well_formed(after)
            &&& after.nesting == machine.nesting
            &&& request != (RequestView::Failed { error: RuntimeErrorView::Malformed })
            &&& request == (RequestView::Failed { error: RuntimeErrorView::UnexpectedReply })
                <==> !answers(machine.awaiting, reply)
            &&& request == RequestView::Finished || request is Failed ==> at_rest(after)
        }),
{
    lemma_receive(machine, reply);
    match machine.receive(reply) {
        Some(ready) => {
            lemma_dispatch(ready);
        },
        None => {
            lemma_fail(machine, RuntimeErrorView::UnexpectedReply);
        },
    }
}

/// The same holds of every number of steps: whatever the host replies, a
/// machine that was well formed stays so.
pub proof fn lemma_play(machine: InterpreterView, replies: Seq<ReplyView>)
    requires
        well_formed(machine),
    ensures
        well_formed(machine.play(replies).0),
        machine.play(replies).0.nesting == machine.nesting,
        forall|i: int|
            0 <= i < machine.play(replies).1.len() ==> #[trigger] machine.play(replies).1[i] != (
            RequestView::Failed { error: RuntimeErrorView::Malformed }),
        machine.play(replies).1.len() == replies.len(),
    decreases replies.len(),
{
    if replies.len() > 0 {
        lemma_play(machine, replies.drop_last());
        lemma_step(machine.play(replies.drop_last()).0, replies.last());
    }
}

} // verus!
