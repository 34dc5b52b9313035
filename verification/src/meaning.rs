//! What a program means, and that the machine computes it.
//!
//! The meaning is given in one piece: the value of an expression in given
//! scopes and the scopes after it; for a statement the lines it prints and
//! the scopes after it. The machine gets there step by step. The host is
//! taken to answer every request; what it answers is part of the meaning.

use crate::ast::{ExprView, StmtView};
use crate::environment::{assigned, defined, lookup, undefined, ScopeView};
use crate::errors::RuntimeErrorView;
use crate::interpreter::{
    binary_spec, complete_spec, decides, scheduled, step_spec, truthy, unary_spec, ActionView,
    MachineView, OutcomeView, ReplyView, RequestView, TaskView,
};
use crate::tokens::LiteralView;
use crate::value::{constant, plain_text, trimmed, ValueView};
use vstd::prelude::*;

verus! {

/// What the host answers: a number to a numeral or an arithmetic
/// operation, a text to a number to be written.
pub struct Host {
    pub number: spec_fn(RequestView) -> u64,
    pub text: spec_fn(u64) -> Seq<char>,
}

/// The reply of `host` to a machine that waits for `pending`.
pub open spec fn answer(host: Host, pending: Option<RequestView>) -> ReplyView {
    match pending {
        Some(RequestView::Format(n)) => ReplyView::Text((host.text)(n)),
        Some(request) => ReplyView::Number((host.number)(request)),
        None => ReplyView::Nothing,
    }
}

/// Where some steps have led: the state reached, the lines printed on
/// the way, and the error that stopped the program, if one did.
pub struct Progress {
    pub state: MachineView,
    pub printed: Seq<Seq<char>>,
    pub failure: Option<RuntimeErrorView>,
}

/// The lines that an action prints.
pub open spec fn printed_by(action: ActionView) -> Seq<Seq<char>> {
    match action {
        ActionView::Print(line) => seq![line],
        _ => Seq::<Seq<char>>::empty(),
    }
}

/// The error that an action stops the program with.
pub open spec fn failure_of(action: ActionView) -> Option<RuntimeErrorView> {
    match action {
        ActionView::Failed(e) => Some(e),
        _ => None,
    }
}

/// `first`, then `second`.
pub open spec fn then(first: Progress, second: Progress) -> Progress {
    Progress {
        state: second.state,
        printed: first.printed + second.printed,
        failure: if first.failure.is_some() {
            first.failure
        } else {
            second.failure
        },
    }
}

/// No step.
pub open spec fn nowhere(m: MachineView) -> Progress {
    Progress { state: m, printed: Seq::<Seq<char>>::empty(), failure: None }
}

/// One step of the machine with the host's answer.
pub open spec fn one_step(m: MachineView, host: Host) -> Progress {
    let (next, action) = step_spec(m, answer(host, m.pending));
    Progress { state: next, printed: printed_by(action), failure: failure_of(action) }
}

/// `steps` steps of the machine with the host's answers.
pub open spec fn advance(m: MachineView, host: Host, steps: nat) -> Progress
    decreases steps,
{
    if steps == 0 {
        nowhere(m)
    } else {
        let first = one_step(m, host);
        then(first, advance(first.state, host, (steps - 1) as nat))
    }
}

/// The value of an expression, or the error that evaluating it ends with;
/// the scopes after that; and how many steps the machine takes for it.
pub struct Evaluated {
    pub value: Result<ValueView, RuntimeErrorView>,
    pub scopes: Seq<ScopeView>,
    pub steps: nat,
}

/// What applying an operator comes to: the value it gives, the number
/// that the host answers with, which takes one more step, or the error.
/// (What an operator asks for is always arithmetic.)
pub open spec fn applied(outcome: OutcomeView, scopes: Seq<ScopeView>, steps: nat, host: Host)
    -> Evaluated {
    match outcome {
        OutcomeView::Value(v) => Evaluated { value: Ok(v), scopes, steps },
        OutcomeView::Ask(request) => Evaluated {
            value: Ok(ValueView::Number((host.number)(request))),
            scopes,
            steps: steps + 1,
        },
        OutcomeView::Error(e) => Evaluated { value: Err(e), scopes, steps },
    }
}

/// The same, after `steps` more steps.
pub open spec fn later(r: Evaluated, steps: nat) -> Evaluated {
    Evaluated { steps: r.steps + steps, ..r }
}

/// What an expression means in `scopes`.
///
/// A literal is its value, a numeral the number that the host reads it
/// as. A variable is what the innermost scope that defines it binds it to.
/// An assignment evaluates its value and assigns it, and is that value.
/// Operands are evaluated from left to right, and the first error ends
/// the evaluation. `or` is its left operand if that is true, `and` if that
/// is false, and the right operand otherwise, which is evaluated only
/// then.
pub open spec fn eval(e: ExprView, scopes: Seq<ScopeView>, host: Host) -> Evaluated
    decreases e,
{
    match e {
        ExprView::Literal(literal) => match literal {
            LiteralView::Number(numeral) => Evaluated {
                value: Ok(ValueView::Number((host.number)(RequestView::Parse(numeral)))),
                scopes,
                steps: 2,
            },
            _ => Evaluated { value: Ok(constant(literal).unwrap()), scopes, steps: 1 },
        },
        ExprView::Variable(name) => match lookup(scopes, name.lexeme) {
            Some(v) => Evaluated { value: Ok(v), scopes, steps: 1 },
            None => Evaluated { value: Err(undefined(name.lexeme, name.line)), scopes, steps: 1 },
        },
        ExprView::Grouping(inner) => later(eval(*inner, scopes, host), 1),
        ExprView::Assign(name, value) => {
            let r = eval(*value, scopes, host);
            match r.value {
                Err(_) => later(r, 1),
                Ok(v) => match assigned(r.scopes, name.lexeme, v) {
                    Some(changed) => Evaluated { value: Ok(v), scopes: changed, steps: r.steps + 2 },
                    None => Evaluated {
                        value: Err(undefined(name.lexeme, name.line)),
                        scopes: r.scopes,
                        steps: r.steps + 2,
                    },
                },
            }
        },
        ExprView::Unary(operator, operand) => {
            let r = eval(*operand, scopes, host);
            match r.value {
                Err(_) => later(r, 1),
                Ok(v) => applied(unary_spec(operator, v), r.scopes, r.steps + 2, host),
            }
        },
        ExprView::Binary(left, operator, right) => {
            let a = eval(*left, scopes, host);
            match a.value {
                Err(_) => later(a, 1),
                Ok(x) => {
                    let b = eval(*right, a.scopes, host);
                    match b.value {
                        Err(_) => later(b, a.steps + 1),
                        Ok(y) => applied(
                            binary_spec(operator, x, y),
                            b.scopes,
                            a.steps + b.steps + 2,
                            host,
                        ),
                    }
                },
            }
        },
        ExprView::Logical(left, operator, right) => {
            let a = eval(*left, scopes, host);
            match a.value {
                Err(_) => later(a, 1),
                Ok(x) => if decides(operator, x) {
                    later(a, 2)
                } else {
                    later(eval(*right, a.scopes, host), a.steps + 2)
                },
            }
        },
    }
}

/// The state of a machine that an error has stopped in `scopes`.
pub open spec fn halted(scopes: Seq<ScopeView>) -> MachineView {
    MachineView {
        scopes: scopes.take(1),
        tasks: Seq::<TaskView>::empty(),
        values: Seq::<ValueView>::empty(),
        pending: None,
    }
}

/// Where the machine is when it has evaluated an expression from the
/// state `m`: the value is on top of the values and the scopes are those
/// after the expression; or the machine is stopped. Nothing was printed.
pub open spec fn landed(m: MachineView, r: Evaluated) -> Progress {
    match r.value {
        Ok(v) => nowhere(m.with_scopes(r.scopes).with_value(v)),
        Err(e) => Progress {
            state: halted(r.scopes),
            printed: Seq::<Seq<char>>::empty(),
            failure: Some(e),
        },
    }
}

/// How running a statement ends.
pub enum End {
    /// It ran to its end.
    Done,
    /// An error stopped it.
    Failed(RuntimeErrorView),
    /// A loop went round more often than was allowed for.
    Unfinished,
}

/// How running a statement ends, the scopes after that, the lines printed,
/// and how many steps the machine takes for it.
pub struct Executed {
    pub end: End,
    pub scopes: Seq<ScopeView>,
    pub printed: Seq<Seq<char>>,
    pub steps: nat,
}

/// The text that a value is printed as; the host writes the numbers.
pub open spec fn shown(value: ValueView, host: Host) -> Seq<char> {
    match value {
        ValueView::Number(n) => trimmed((host.text)(n)),
        _ => plain_text(value),
    }
}

/// Ended well, with nothing printed.
pub open spec fn done(scopes: Seq<ScopeView>, steps: nat) -> Executed {
    Executed { end: End::Done, scopes, printed: Seq::<Seq<char>>::empty(), steps }
}

/// Stopped by the error that evaluating an expression ended with.
pub open spec fn failed(error: RuntimeErrorView, r: Evaluated) -> Executed {
    Executed {
        end: End::Failed(error),
        scopes: r.scopes,
        printed: Seq::<Seq<char>>::empty(),
        steps: r.steps + 1,
    }
}

/// The same, after `steps` more steps.
pub open spec fn delayed(x: Executed, steps: nat) -> Executed {
    Executed { steps: x.steps + steps, ..x }
}

/// `first`, and after it `second`, if `first` ended well.
pub open spec fn followed_by(first: Executed, second: Executed) -> Executed {
    Executed {
        end: second.end,
        scopes: second.scopes,
        printed: first.printed + second.printed,
        steps: first.steps + second.steps,
    }
}

/// What a statement means in `scopes`, where no loop goes round more than
/// `rounds` times.
///
/// An expression statement evaluates its expression. `print` evaluates
/// and prints. `var` defines the name in the innermost scope, as `nil`
/// where it has no initializer. `if` runs one of its branches, by the
/// truth of the condition. A block runs its statements in a new innermost
/// scope, which is left afterwards. The first error ends everything.
pub open spec fn exec(s: StmtView, scopes: Seq<ScopeView>, host: Host, rounds: nat) -> Executed
    decreases rounds, s, 1nat,
{
    match s {
        StmtView::Expression(e) => {
            let r = eval(e, scopes, host);
            match r.value {
                Err(error) => failed(error, r),
                Ok(_) => done(r.scopes, r.steps + 2),
            }
        },
        StmtView::Print(e) => {
            let r = eval(e, scopes, host);
            match r.value {
                Err(error) => failed(error, r),
                Ok(v) => Executed {
                    end: End::Done,
                    scopes: r.scopes,
                    printed: seq![shown(v, host)],
                    steps: r.steps + 2 + if v is Number {
                        1nat
                    } else {
                        0nat
                    },
                },
            }
        },
        StmtView::Var(name, initializer) => match initializer {
            Some(e) => {
                let r = eval(e, scopes, host);
                match r.value {
                    Err(error) => failed(error, r),
                    Ok(v) => done(defined(r.scopes, name.lexeme, v), r.steps + 2),
                }
            },
            None => done(defined(scopes, name.lexeme, ValueView::Nil), 2),
        },
        StmtView::If(condition, then_branch, else_branch) => {
            let r = eval(condition, scopes, host);
            match r.value {
                Err(error) => failed(error, r),
                Ok(v) => if truthy(v) {
                    delayed(exec(*then_branch, r.scopes, host, rounds), r.steps + 2)
                } else {
                    match else_branch {
                        Some(other) => delayed(exec(*other, r.scopes, host, rounds), r.steps + 2),
                        None => done(r.scopes, r.steps + 2),
                    }
                },
            }
        },
        StmtView::While(_, _) => delayed(repeat(s, scopes, host, rounds), 1),
        StmtView::Block(statements) => {
            let inner = exec_all(statements, scopes.push(Map::empty()), host, rounds);
            match inner.end {
                End::Done => Executed {
                    scopes: inner.scopes.drop_last(),
                    steps: inner.steps + 2,
                    ..inner
                },
                _ => delayed(inner, 1),
            }
        },
    }
}

/// What the loop `s` means from the evaluation of its condition on: as
/// long as the condition is true, the body is run and the condition is
/// evaluated again.
pub open spec fn repeat(s: StmtView, scopes: Seq<ScopeView>, host: Host, rounds: nat) -> Executed
    decreases rounds, s, 0nat,
{
    match s {
        StmtView::While(condition, body) => {
            let r = eval(condition, scopes, host);
            match r.value {
                Err(error) => Executed { steps: r.steps, ..failed(error, r) },
                Ok(v) => if !truthy(v) {
                    done(r.scopes, r.steps + 1)
                } else if rounds == 0 {
                    Executed { end: End::Unfinished, ..done(r.scopes, 0) }
                } else {
                    let once = exec(*body, r.scopes, host, rounds);
                    match once.end {
                        End::Done => delayed(
                            followed_by(
                                once,
                                repeat(s, once.scopes, host, (rounds - 1) as nat),
                            ),
                            r.steps + 1,
                        ),
                        _ => delayed(once, r.steps + 1),
                    }
                },
            }
        },
        _ => Executed { end: End::Unfinished, ..done(scopes, 0) },
    }
}

/// What statements mean one after another.
pub open spec fn exec_all(
    statements: Seq<StmtView>,
    scopes: Seq<ScopeView>,
    host: Host,
    rounds: nat,
) -> Executed
    decreases rounds, statements, 0nat,
{
    if statements.len() == 0 {
        done(scopes, 0)
    } else {
        let first = exec(statements[0], scopes, host, rounds);
        match first.end {
            End::Done => followed_by(
                first,
                exec_all(statements.drop_first(), first.scopes, host, rounds),
            ),
            _ => first,
        }
    }
}

/// Where the machine is when it has run a statement from the state `m`:
/// the scopes are those after the statement and the lines are printed; or
/// the machine is stopped.
pub open spec fn arrived(m: MachineView, x: Executed) -> Progress {
    match x.end {
        End::Failed(e) => Progress { state: halted(x.scopes), printed: x.printed, failure: Some(e) },
        _ => Progress { state: m.with_scopes(x.scopes), printed: x.printed, failure: None },
    }
}

/// Steps add up.
pub proof fn lemma_advance_sum(m: MachineView, host: Host, a: nat, b: nat)
    ensures
        advance(m, host, a + b) == then(
            advance(m, host, a),
            advance(advance(m, host, a).state, host, b),
        ),
    decreases a,
{
    let rest = advance(advance(m, host, a).state, host, b);
    if a == 0 {
        assert(then(nowhere(m), rest).printed =~= rest.printed);
    } else {
        let first = one_step(m, host);
        lemma_advance_sum(first.state, host, (a - 1) as nat, b);
        let middle = advance(first.state, host, (a - 1) as nat);
        assert((a + b - 1) as nat == (a - 1) as nat + b);
        assert(then(first, then(middle, rest)).printed =~= then(then(first, middle), rest).printed);
    }
}

/// The task on top is what the next step does.
pub proof fn lemma_next_task(m: MachineView, task: TaskView, host: Host)
    requires
        m.pending.is_none(),
    ensures
        one_step(m.with_task(task), host) == (Progress {
            state: complete_spec(m, task).0,
            printed: printed_by(complete_spec(m, task).1),
            failure: failure_of(complete_spec(m, task).1),
        }),
{
    assert(m.with_task(task).without_task() =~= m) by {
        assert(m.tasks.push(task).drop_last() =~= m.tasks);
    }
}

/// One step and then `steps` more.
proof fn lemma_step_then(m: MachineView, host: Host, steps: nat)
    ensures
        advance(m, host, steps + 1) == then(
            one_step(m, host),
            advance(one_step(m, host).state, host, steps),
        ),
{
    assert((steps + 1 - 1) as nat == steps);
}

/// Evaluation that goes on after `before` steps without print or error.
proof fn lemma_quiet_then(m: MachineView, host: Host, before: nat, middle: MachineView, after: nat)
    requires
        advance(m, host, before) == nowhere(middle),
    ensures
        advance(m, host, before + after) == advance(middle, host, after),
{
    lemma_advance_sum(m, host, before, after);
    let rest = advance(middle, host, after);
    assert(then(nowhere(middle), rest).printed =~= rest.printed);
}

/// A waiting machine takes the host's number as the value on top.
proof fn lemma_number_answered(m: MachineView, request: RequestView, host: Host)
    requires
        m.pending.is_none(),
        !(request is Format),
    ensures
        one_step(MachineView { pending: Some(request), ..m }, host) == nowhere(
            m.with_value(ValueView::Number((host.number)(request))),
        ),
{
}

/// What the step of a unary operator comes to.
proof fn lemma_unary_applied(m: MachineView, operator: crate::tokens::TokenView, v: ValueView, host: Host)
    requires
        m.pending.is_none(),
    ensures
        advance(
            m.with_value(v).with_task(TaskView::Unary(operator)),
            host,
            applied(unary_spec(operator, v), m.scopes, 1, host).steps,
        ) == landed(m, applied(unary_spec(operator, v), m.scopes, 1, host)),
{
    let start = m.with_value(v);
    lemma_next_task(start, TaskView::Unary(operator), host);
    lemma_step_then(start.with_task(TaskView::Unary(operator)), host, 0);
    assert(start.values.last() == v);
    assert(start.without_value() =~= m) by {
        assert(m.values.push(v).drop_last() =~= m.values);
    }
    let first = one_step(start.with_task(TaskView::Unary(operator)), host);
    assert(then(first, nowhere(first.state)).printed =~= first.printed);
}

/// What the step of a binary operator comes to.
proof fn lemma_binary_applied(
    m: MachineView,
    operator: crate::tokens::TokenView,
    x: ValueView,
    y: ValueView,
    host: Host,
)
    requires
        m.pending.is_none(),
    ensures
        advance(
            m.with_value(x).with_value(y).with_task(TaskView::Binary(operator)),
            host,
            applied(binary_spec(operator, x, y), m.scopes, 1, host).steps,
        ) == landed(m, applied(binary_spec(operator, x, y), m.scopes, 1, host)),
{
    let start = m.with_value(x).with_value(y);
    let top = start.with_task(TaskView::Binary(operator));
    lemma_next_task(start, TaskView::Binary(operator), host);
    assert(start.values.last() == y);
    assert(start.values[start.values.len() - 2] == x);
    assert(start.without_value().without_value() =~= m) by {
        assert(m.values.push(x).push(y).drop_last().drop_last() =~= m.values);
    }
    let first = one_step(top, host);
    match binary_spec(operator, x, y) {
        OutcomeView::Ask(request) => {
            lemma_step_then(top, host, 1);
            lemma_step_then(first.state, host, 0);
            lemma_number_answered(m, request, host);
            let second = one_step(first.state, host);
            assert(then(first, then(second, nowhere(second.state))).printed =~= Seq::<
                Seq<char>,
            >::empty());
        },
        _ => {
            lemma_step_then(top, host, 0);
            assert(then(first, nowhere(first.state)).printed =~= first.printed);
        },
    }
}

/// The machine computes the meaning: from a state that waits for
/// nothing, with the task to evaluate `e` on top, the steps that
/// [`eval`] counts lead to the state with the value of `e` on top of the
/// values and the scopes as `e` leaves them, without a line printed; or,
/// where evaluating `e` ends with an error, to the stopped machine and
/// that error.
pub proof fn lemma_machine_evaluates(m: MachineView, e: ExprView, host: Host)
    requires
        m.pending.is_none(),
    ensures
        advance(m.with_task(TaskView::Evaluate(e)), host, eval(e, m.scopes, host).steps) == landed(
            m,
            eval(e, m.scopes, host),
        ),
    decreases e,
{
    let start = m.with_task(TaskView::Evaluate(e));
    let first = one_step(start, host);
    let quiet = Seq::<Seq<char>>::empty();
    lemma_next_task(m, TaskView::Evaluate(e), host);
    match e {
        ExprView::Literal(literal) => {
            match literal {
                LiteralView::Number(numeral) => {
                    lemma_step_then(start, host, 1);
                    lemma_step_then(first.state, host, 0);
                    lemma_number_answered(m, RequestView::Parse(numeral), host);
                    let second = one_step(first.state, host);
                    assert(then(first, then(second, nowhere(second.state))).printed =~= quiet);
                },
                _ => {
                    lemma_step_then(start, host, 0);
                    assert(then(first, nowhere(first.state)).printed =~= quiet);
                },
            }
        },
        ExprView::Variable(name) => {
            lemma_step_then(start, host, 0);
            assert(then(first, nowhere(first.state)).printed =~= quiet);
        },
        ExprView::Grouping(inner) => {
            let r = eval(*inner, m.scopes, host);
            lemma_machine_evaluates(m, *inner, host);
            lemma_step_then(start, host, r.steps);
            assert(then(first, landed(m, r)).printed =~= quiet);
        },
        ExprView::Assign(name, value) => {
            let below = m.with_task(TaskView::Store(name));
            let r = eval(*value, m.scopes, host);
            lemma_machine_evaluates(below, *value, host);
            lemma_step_then(start, host, r.steps);
            assert(then(first, landed(below, r)).printed =~= quiet);
            match r.value {
                Err(_) => {},
                Ok(v) => {
                    let middle = m.with_scopes(r.scopes).with_value(v);
                    assert(advance(start, host, r.steps + 1) == nowhere(
                        middle.with_task(TaskView::Store(name)),
                    ));
                    lemma_quiet_then(start, host, r.steps + 1, middle.with_task(TaskView::Store(name)), 1);
                    lemma_next_task(middle, TaskView::Store(name), host);
                    lemma_step_then(middle.with_task(TaskView::Store(name)), host, 0);
                    let last = one_step(middle.with_task(TaskView::Store(name)), host);
                    assert(then(last, nowhere(last.state)).printed =~= quiet);
                },
            }
        },
        ExprView::Unary(operator, operand) => {
            let below = m.with_task(TaskView::Unary(operator));
            let r = eval(*operand, m.scopes, host);
            lemma_machine_evaluates(below, *operand, host);
            lemma_step_then(start, host, r.steps);
            assert(then(first, landed(below, r)).printed =~= quiet);
            match r.value {
                Err(_) => {},
                Ok(v) => {
                    let middle = m.with_scopes(r.scopes);
                    let done = applied(unary_spec(operator, v), r.scopes, 1, host);
                    assert(advance(start, host, r.steps + 1) == nowhere(
                        middle.with_value(v).with_task(TaskView::Unary(operator)),
                    ));
                    lemma_quiet_then(
                        start,
                        host,
                        r.steps + 1,
                        middle.with_value(v).with_task(TaskView::Unary(operator)),
                        done.steps,
                    );
                    lemma_unary_applied(middle, operator, v, host);
                },
            }
        },
        ExprView::Binary(left, operator, right) => {
            let below = m.with_task(TaskView::Binary(operator)).with_task(
                TaskView::Evaluate(*right),
            );
            let a = eval(*left, m.scopes, host);
            lemma_machine_evaluates(below, *left, host);
            lemma_step_then(start, host, a.steps);
            assert(then(first, landed(below, a)).printed =~= quiet);
            match a.value {
                Err(_) => {},
                Ok(x) => {
                    let between = m.with_scopes(a.scopes).with_value(x).with_task(
                        TaskView::Binary(operator),
                    );
                    let b = eval(*right, a.scopes, host);
                    assert(advance(start, host, a.steps + 1) == nowhere(
                        between.with_task(TaskView::Evaluate(*right)),
                    ));
                    lemma_machine_evaluates(between, *right, host);
                    lemma_quiet_then(
                        start,
                        host,
                        a.steps + 1,
                        between.with_task(TaskView::Evaluate(*right)),
                        b.steps,
                    );
                    match b.value {
                        Err(_) => {},
                        Ok(y) => {
                            let middle = m.with_scopes(b.scopes);
                            let done = applied(binary_spec(operator, x, y), b.scopes, 1, host);
                            assert(advance(start, host, a.steps + 1 + b.steps) == nowhere(
                                middle.with_value(x).with_value(y).with_task(
                                    TaskView::Binary(operator),
                                ),
                            ));
                            lemma_quiet_then(
                                start,
                                host,
                                a.steps + 1 + b.steps,
                                middle.with_value(x).with_value(y).with_task(
                                    TaskView::Binary(operator),
                                ),
                                done.steps,
                            );
                            lemma_binary_applied(middle, operator, x, y, host);
                        },
                    }
                },
            }
        },
        ExprView::Logical(left, operator, right) => {
            let below = m.with_task(TaskView::Logical(operator, *right));
            let a = eval(*left, m.scopes, host);
            lemma_machine_evaluates(below, *left, host);
            lemma_step_then(start, host, a.steps);
            assert(then(first, landed(below, a)).printed =~= quiet);
            match a.value {
                Err(_) => {},
                Ok(x) => {
                    let middle = m.with_scopes(a.scopes).with_value(x);
                    let task = TaskView::Logical(operator, *right);
                    assert(advance(start, host, a.steps + 1) == nowhere(middle.with_task(task)));
                    lemma_next_task(middle, task, host);
                    let second = one_step(middle.with_task(task), host);
                    if decides(operator, x) {
                        lemma_quiet_then(start, host, a.steps + 1, middle.with_task(task), 1);
                        lemma_step_then(middle.with_task(task), host, 0);
                        assert(then(second, nowhere(second.state)).printed =~= quiet);
                    } else {
                        let b = eval(*right, a.scopes, host);
                        let bare = m.with_scopes(a.scopes);
                        assert(middle.without_value() =~= bare) by {
                            assert(m.values.push(x).drop_last() =~= m.values);
                        }
                        lemma_quiet_then(
                            start,
                            host,
                            a.steps + 1,
                            middle.with_task(task),
                            b.steps + 1,
                        );
                        lemma_step_then(middle.with_task(task), host, b.steps);
                        lemma_machine_evaluates(bare, *right, host);
                        assert(then(second, landed(bare, b)).printed =~= quiet);
                    }
                },
            }
        },
    }
}

/// The same expression in the same scopes has the same value, whatever
/// else the machine has to do and whatever values it holds: two machines
/// that agree on the scopes, and whose host answers alike, come to the
/// same value and the same scopes, or to the same error, in the same
/// number of steps.
pub proof fn lemma_same_tree_same_value(a: MachineView, b: MachineView, e: ExprView, host: Host)
    requires
        a.pending.is_none(),
        b.pending.is_none(),
        a.scopes == b.scopes,
    ensures
        ({
            let steps = eval(e, a.scopes, host).steps;
            let first = advance(a.with_task(TaskView::Evaluate(e)), host, steps);
            let second = advance(b.with_task(TaskView::Evaluate(e)), host, steps);
            &&& first.failure == second.failure
            &&& first.printed == second.printed
            &&& first.state.scopes == second.state.scopes
            &&& first.failure.is_none() ==> first.state.top() == second.state.top()
        }),
{
    lemma_machine_evaluates(a, e, host);
    lemma_machine_evaluates(b, e, host);
}

/// Steps after steps.
proof fn lemma_continue(m: MachineView, host: Host, a: nat, p: Progress, b: nat, q: Progress)
    requires
        advance(m, host, a) == p,
        advance(p.state, host, b) == q,
    ensures
        advance(m, host, a + b) == then(p, q),
{
    lemma_advance_sum(m, host, a, b);
}

/// One step alone.
proof fn lemma_single(m: MachineView, host: Host)
    ensures
        advance(m, host, 1) == one_step(m, host),
{
    lemma_step_then(m, host, 0);
    let first = one_step(m, host);
    assert(then(first, nowhere(first.state)).printed =~= first.printed);
}

/// After the first step of a statement has put the evaluation of `e` on
/// top of `below`, the machine evaluates `e`.
proof fn lemma_evaluated_first(start: MachineView, below: MachineView, e: ExprView, host: Host)
    requires
        below.pending.is_none(),
        one_step(start, host) == nowhere(below.with_task(TaskView::Evaluate(e))),
    ensures
        advance(start, host, eval(e, below.scopes, host).steps + 1) == landed(
            below,
            eval(e, below.scopes, host),
        ),
{
    let r = eval(e, below.scopes, host);
    lemma_machine_evaluates(below, e, host);
    lemma_single(start, host);
    lemma_continue(start, host, 1, one_step(start, host), r.steps, landed(below, r));
    assert(then(one_step(start, host), landed(below, r)).printed =~= landed(below, r).printed);
    assert(1 + r.steps == r.steps + 1);
}

/// The machine runs a statement as [`exec`] says: from a state that
/// waits for nothing, with the task to run `s` on top, the steps that
/// `exec` counts lead to the state with the scopes as `s` leaves them,
/// and the lines that `s` prints are printed, in order; or, where `s` ends
/// with an error, to the stopped machine and that error.
pub proof fn lemma_machine_executes(m: MachineView, s: StmtView, host: Host, rounds: nat)
    requires
        m.pending.is_none(),
        !(exec(s, m.scopes, host, rounds).end is Unfinished),
    ensures
        advance(
            m.with_task(TaskView::Execute(s)),
            host,
            exec(s, m.scopes, host, rounds).steps,
        ) == arrived(m, exec(s, m.scopes, host, rounds)),
    decreases rounds, s, 1nat,
{
    let start = m.with_task(TaskView::Execute(s));
    let quiet = Seq::<Seq<char>>::empty();
    lemma_next_task(m, TaskView::Execute(s), host);
    match s {
        StmtView::Expression(e) => {
            let below = m.with_task(TaskView::Discard);
            let r = eval(e, m.scopes, host);
            lemma_evaluated_first(start, below, e, host);
            match r.value {
                Err(_) => {},
                Ok(v) => {
                    let value = m.with_scopes(r.scopes).with_value(v);
                    lemma_next_task(value, TaskView::Discard, host);
                    lemma_single(value.with_task(TaskView::Discard), host);
                    assert(value.without_value() =~= m.with_scopes(r.scopes)) by {
                        assert(m.values.push(v).drop_last() =~= m.values);
                    }
                    lemma_continue(
                        start,
                        host,
                        r.steps + 1,
                        landed(below, r),
                        1,
                        nowhere(m.with_scopes(r.scopes)),
                    );
                    assert(then(landed(below, r), nowhere(m.with_scopes(r.scopes))).printed
                        =~= quiet);
                },
            }
        },
        StmtView::Print(e) => {
            let below = m.with_task(TaskView::Print);
            let r = eval(e, m.scopes, host);
            lemma_evaluated_first(start, below, e, host);
            match r.value {
                Err(_) => {},
                Ok(v) => {
                    let after = m.with_scopes(r.scopes);
                    let value = after.with_value(v);
                    let top = value.with_task(TaskView::Print);
                    lemma_next_task(value, TaskView::Print, host);
                    assert(value.without_value() =~= after) by {
                        assert(m.values.push(v).drop_last() =~= m.values);
                    }
                    let goal = Progress {
                        state: after,
                        printed: seq![shown(v, host)],
                        failure: None,
                    };
                    match v {
                        ValueView::Number(n) => {
                            let waiting = one_step(top, host);
                            lemma_single(top, host);
                            lemma_single(waiting.state, host);
                            lemma_continue(
                                top,
                                host,
                                1,
                                waiting,
                                1,
                                one_step(waiting.state, host),
                            );
                            assert(then(waiting, one_step(waiting.state, host)).printed
                                =~= goal.printed);
                            lemma_continue(start, host, r.steps + 1, landed(below, r), 2, goal);
                        },
                        _ => {
                            lemma_single(top, host);
                            lemma_continue(start, host, r.steps + 1, landed(below, r), 1, goal);
                        },
                    }
                    assert(then(landed(below, r), goal).printed =~= goal.printed);
                },
            }
        },
        StmtView::Var(name, initializer) => {
            match initializer {
                Some(e) => {
                    let below = m.with_task(TaskView::Define(name));
                    let r = eval(e, m.scopes, host);
                    lemma_evaluated_first(start, below, e, host);
                    match r.value {
                        Err(_) => {},
                        Ok(v) => {
                            let value = m.with_scopes(r.scopes).with_value(v);
                            let goal = nowhere(
                                m.with_scopes(defined(r.scopes, name.lexeme, v)),
                            );
                            lemma_next_task(value, TaskView::Define(name), host);
                            lemma_single(value.with_task(TaskView::Define(name)), host);
                            assert(value.without_value().with_scopes(
                                defined(r.scopes, name.lexeme, v),
                            ) =~= goal.state) by {
                                assert(m.values.push(v).drop_last() =~= m.values);
                            }
                            lemma_continue(start, host, r.steps + 1, landed(below, r), 1, goal);
                            assert(then(landed(below, r), goal).printed =~= quiet);
                        },
                    }
                },
                None => {
                    let value = m.with_value(ValueView::Nil);
                    let goal = nowhere(
                        m.with_scopes(defined(m.scopes, name.lexeme, ValueView::Nil)),
                    );
                    lemma_single(start, host);
                    lemma_next_task(value, TaskView::Define(name), host);
                    lemma_single(value.with_task(TaskView::Define(name)), host);
                    assert(value.without_value().with_scopes(
                        defined(m.scopes, name.lexeme, ValueView::Nil),
                    ) =~= goal.state) by {
                        assert(m.values.push(ValueView::Nil).drop_last() =~= m.values);
                    }
                    lemma_continue(start, host, 1, one_step(start, host), 1, goal);
                    assert(then(one_step(start, host), goal).printed =~= quiet);
                },
            }
        },
        StmtView::If(condition, then_branch, else_branch) => {
            let other = match else_branch {
                Some(o) => Some(*o),
                None => None,
            };
            let task = TaskView::Branch(*then_branch, other);
            let below = m.with_task(task);
            let r = eval(condition, m.scopes, host);
            lemma_evaluated_first(start, below, condition, host);
            match r.value {
                Err(_) => {},
                Ok(v) => {
                    let after = m.with_scopes(r.scopes);
                    let value = after.with_value(v);
                    lemma_next_task(value, task, host);
                    lemma_single(value.with_task(task), host);
                    assert(value.without_value() =~= after) by {
                        assert(m.values.push(v).drop_last() =~= m.values);
                    }
                    let chosen = one_step(value.with_task(task), host);
                    lemma_continue(start, host, r.steps + 1, landed(below, r), 1, chosen);
                    assert(then(landed(below, r), chosen).printed =~= quiet);
                    if truthy(v) {
                        let x = exec(*then_branch, r.scopes, host, rounds);
                        lemma_machine_executes(after, *then_branch, host, rounds);
                        lemma_continue(
                            start,
                            host,
                            r.steps + 2,
                            then(landed(below, r), chosen),
                            x.steps,
                            arrived(after, x),
                        );
                        assert(then(then(landed(below, r), chosen), arrived(after, x)).printed
                            =~= x.printed);
                        assert(r.steps + 2 + x.steps == x.steps + (r.steps + 2));
                    } else {
                        match else_branch {
                            Some(o) => {
                                let x = exec(*o, r.scopes, host, rounds);
                                lemma_machine_executes(after, *o, host, rounds);
                                lemma_continue(
                                    start,
                                    host,
                                    r.steps + 2,
                                    then(landed(below, r), chosen),
                                    x.steps,
                                    arrived(after, x),
                                );
                                assert(then(
                                    then(landed(below, r), chosen),
                                    arrived(after, x),
                                ).printed =~= x.printed);
                                assert(r.steps + 2 + x.steps == x.steps + (r.steps + 2));
                            },
                            None => {},
                        }
                    }
                },
            }
        },
        StmtView::While(condition, body) => {
            let x = repeat(s, m.scopes, host, rounds);
            lemma_single(start, host);
            lemma_machine_repeats(m, s, host, rounds);
            lemma_continue(start, host, 1, one_step(start, host), x.steps, arrived(m, x));
            assert(then(one_step(start, host), arrived(m, x)).printed =~= x.printed);
            assert(1 + x.steps == x.steps + 1);
        },
        StmtView::Block(statements) => {
            let base = m.with_scopes(m.scopes.push(Map::empty())).with_task(TaskView::Leave);
            let inner = exec_all(statements, base.scopes, host, rounds);
            lemma_single(start, host);
            lemma_machine_executes_all(base, statements, host, rounds);
            lemma_continue(start, host, 1, one_step(start, host), inner.steps, arrived(base, inner));
            assert(then(one_step(start, host), arrived(base, inner)).printed =~= inner.printed);
            assert(1 + inner.steps == inner.steps + 1);
            match inner.end {
                End::Done => {
                    let inside = m.with_scopes(inner.scopes);
                    lemma_next_task(inside, TaskView::Leave, host);
                    lemma_single(inside.with_task(TaskView::Leave), host);
                    let left = one_step(inside.with_task(TaskView::Leave), host);
                    lemma_continue(
                        start,
                        host,
                        inner.steps + 1,
                        then(one_step(start, host), arrived(base, inner)),
                        1,
                        left,
                    );
                    assert(then(then(one_step(start, host), arrived(base, inner)), left).printed
                        =~= inner.printed);
                },
                _ => {},
            }
        },
    }
}

/// The machine runs a loop as [`repeat`] says, from the evaluation of the
/// loop's condition on.
pub proof fn lemma_machine_repeats(m: MachineView, s: StmtView, host: Host, rounds: nat)
    requires
        m.pending.is_none(),
        s is While,
        !(repeat(s, m.scopes, host, rounds).end is Unfinished),
    ensures
        advance(
            m.with_task(TaskView::Repeat(s->While_0, *s->While_1)).with_task(
                TaskView::Evaluate(s->While_0),
            ),
            host,
            repeat(s, m.scopes, host, rounds).steps,
        ) == arrived(m, repeat(s, m.scopes, host, rounds)),
    decreases rounds, s, 0nat,
{
    let quiet = Seq::<Seq<char>>::empty();
    match s {
        StmtView::While(condition, body) => {
            let task = TaskView::Repeat(condition, *body);
            let below = m.with_task(task);
            let start = below.with_task(TaskView::Evaluate(condition));
            let r = eval(condition, m.scopes, host);
            lemma_machine_evaluates(below, condition, host);
            match r.value {
                Err(_) => {},
                Ok(v) => {
                    let after = m.with_scopes(r.scopes);
                    let value = after.with_value(v);
                    lemma_next_task(value, task, host);
                    lemma_single(value.with_task(task), host);
                    assert(value.without_value() =~= after) by {
                        assert(m.values.push(v).drop_last() =~= m.values);
                    }
                    let decided = one_step(value.with_task(task), host);
                    lemma_continue(start, host, r.steps, landed(below, r), 1, decided);
                    assert(then(landed(below, r), decided).printed =~= quiet);
                    if truthy(v) {
                        let round = after.with_task(task).with_task(TaskView::Evaluate(condition));
                        let once = exec(*body, r.scopes, host, rounds);
                        lemma_machine_executes(round, *body, host, rounds);
                        lemma_continue(
                            start,
                            host,
                            r.steps + 1,
                            then(landed(below, r), decided),
                            once.steps,
                            arrived(round, once),
                        );
                        let so_far = then(then(landed(below, r), decided), arrived(round, once));
                        assert(so_far.printed =~= once.printed);
                        match once.end {
                            End::Done => {
                                let next = m.with_scopes(once.scopes);
                                let again = repeat(s, once.scopes, host, (rounds - 1) as nat);
                                lemma_machine_repeats(next, s, host, (rounds - 1) as nat);
                                lemma_continue(
                                    start,
                                    host,
                                    r.steps + 1 + once.steps,
                                    so_far,
                                    again.steps,
                                    arrived(next, again),
                                );
                                assert(then(so_far, arrived(next, again)).printed =~= once.printed
                                    + again.printed);
                                assert(r.steps + 1 + once.steps + again.steps == once.steps
                                    + again.steps + (r.steps + 1));
                            },
                            _ => {
                                assert(r.steps + 1 + once.steps == once.steps + (r.steps + 1));
                            },
                        }
                    }
                },
            }
        },
        _ => {},
    }
}

/// The machine runs statements one after another as [`exec_all`] says.
pub proof fn lemma_machine_executes_all(
    m: MachineView,
    statements: Seq<StmtView>,
    host: Host,
    rounds: nat,
)
    requires
        m.pending.is_none(),
        !(exec_all(statements, m.scopes, host, rounds).end is Unfinished),
    ensures
        advance(
            MachineView { tasks: m.tasks + scheduled(statements), ..m },
            host,
            exec_all(statements, m.scopes, host, rounds).steps,
        ) == arrived(m, exec_all(statements, m.scopes, host, rounds)),
    decreases rounds, statements, 0nat,
{
    let start = MachineView { tasks: m.tasks + scheduled(statements), ..m };
    if statements.len() == 0 {
        assert(start =~= m.with_scopes(m.scopes)) by {
            assert(m.tasks + scheduled(statements) =~= m.tasks);
        }
    } else {
        let later = statements.drop_first();
        let below = MachineView { tasks: m.tasks + scheduled(later), ..m };
        let first = exec(statements[0], m.scopes, host, rounds);
        assert(start =~= below.with_task(TaskView::Execute(statements[0]))) by {
            assert(m.tasks + scheduled(statements) =~= (m.tasks + scheduled(later)).push(
                TaskView::Execute(statements[0]),
            ));
        }
        lemma_machine_executes(below, statements[0], host, rounds);
        match first.end {
            End::Done => {
                let next = m.with_scopes(first.scopes);
                let rest = exec_all(later, first.scopes, host, rounds);
                lemma_machine_executes_all(next, later, host, rounds);
                assert(below.with_scopes(first.scopes) == (MachineView {
                    tasks: next.tasks + scheduled(later),
                    ..next
                }));
                lemma_continue(
                    start,
                    host,
                    first.steps,
                    arrived(below, first),
                    rest.steps,
                    arrived(next, rest),
                );
                assert(then(arrived(below, first), arrived(next, rest)).printed =~= first.printed
                    + rest.printed);
            },
            _ => {},
        }
    }
}

/// Whether `after` has as many scopes as `before`, and each of the first
/// `outer` scopes defines the same names as before.
pub open spec fn same_names(before: Seq<ScopeView>, after: Seq<ScopeView>, outer: int) -> bool {
    &&& after.len() == before.len()
    &&& forall|j: int| 0 <= j < outer && j < before.len() ==> (#[trigger] after[j]).dom()
        == before[j].dom()
}

/// Evaluating an expression changes what variables are bound to, never
/// which variables there are: no scope comes or goes, and no scope gets a
/// name. An assignment to a name that no scope defines defines nothing.
pub proof fn lemma_eval_keeps_names(e: ExprView, scopes: Seq<ScopeView>, host: Host)
    ensures
        same_names(scopes, eval(e, scopes, host).scopes, scopes.len() as int),
    decreases e,
{
    match e {
        ExprView::Literal(_) => {},
        ExprView::Variable(_) => {},
        ExprView::Grouping(inner) => {
            lemma_eval_keeps_names(*inner, scopes, host);
        },
        ExprView::Assign(name, value) => {
            let r = eval(*value, scopes, host);
            lemma_eval_keeps_names(*value, scopes, host);
            match r.value {
                Err(_) => {},
                Ok(v) => {
                    crate::environment::lemma_assign_keeps_names(r.scopes, name.lexeme, v);
                },
            }
        },
        ExprView::Unary(_, operand) => {
            lemma_eval_keeps_names(*operand, scopes, host);
        },
        ExprView::Binary(left, _, right) => {
            let a = eval(*left, scopes, host);
            lemma_eval_keeps_names(*left, scopes, host);
            lemma_eval_keeps_names(*right, a.scopes, host);
        },
        ExprView::Logical(left, _, right) => {
            let a = eval(*left, scopes, host);
            lemma_eval_keeps_names(*left, scopes, host);
            lemma_eval_keeps_names(*right, a.scopes, host);
        },
    }
}

/// A statement that runs to its end leaves as many scopes as it found,
/// and defines no name but in the innermost one. A block defines none at
/// all: what is declared in it is gone when it is left.
pub proof fn lemma_exec_keeps_names(s: StmtView, scopes: Seq<ScopeView>, host: Host, rounds: nat)
    requires
        scopes.len() >= 1,
        exec(s, scopes, host, rounds).end is Done,
    ensures
        same_names(scopes, exec(s, scopes, host, rounds).scopes, scopes.len() - 1),
        s is Block ==> same_names(
            scopes,
            exec(s, scopes, host, rounds).scopes,
            scopes.len() as int,
        ),
    decreases rounds, s, 1nat,
{
    match s {
        StmtView::Expression(e) => {
            lemma_eval_keeps_names(e, scopes, host);
        },
        StmtView::Print(e) => {
            lemma_eval_keeps_names(e, scopes, host);
        },
        StmtView::Var(_, initializer) => {
            match initializer {
                Some(e) => {
                    lemma_eval_keeps_names(e, scopes, host);
                },
                None => {},
            }
        },
        StmtView::If(condition, then_branch, else_branch) => {
            let r = eval(condition, scopes, host);
            lemma_eval_keeps_names(condition, scopes, host);
            match r.value {
                Err(_) => {},
                Ok(v) => {
                    if truthy(v) {
                        lemma_exec_keeps_names(*then_branch, r.scopes, host, rounds);
                    } else {
                        match else_branch {
                            Some(other) => {
                                lemma_exec_keeps_names(*other, r.scopes, host, rounds);
                            },
                            None => {},
                        }
                    }
                },
            }
        },
        StmtView::While(_, _) => {
            lemma_repeat_keeps_names(s, scopes, host, rounds);
        },
        StmtView::Block(statements) => {
            let inside = scopes.push(Map::empty());
            let inner = exec_all(statements, inside, host, rounds);
            lemma_exec_all_keeps_names(statements, inside, host, rounds);
            assert forall|j: int| 0 <= j < scopes.len() implies (#[trigger] inner.scopes.drop_last()[j]).dom()
                == scopes[j].dom() by {
                assert(inner.scopes[j].dom() == inside[j].dom());
            }
        },
    }
}

/// A loop that runs to its end leaves as many scopes as it found, and
/// defines no name but in the innermost one.
pub proof fn lemma_repeat_keeps_names(s: StmtView, scopes: Seq<ScopeView>, host: Host, rounds: nat)
    requires
        scopes.len() >= 1,
        repeat(s, scopes, host, rounds).end is Done,
    ensures
        same_names(scopes, repeat(s, scopes, host, rounds).scopes, scopes.len() - 1),
    decreases rounds, s, 0nat,
{
    match s {
        StmtView::While(condition, body) => {
            let r = eval(condition, scopes, host);
            lemma_eval_keeps_names(condition, scopes, host);
            match r.value {
                Err(_) => {},
                Ok(v) => {
                    if truthy(v) && rounds > 0 {
                        let once = exec(*body, r.scopes, host, rounds);
                        if once.end is Done {
                            lemma_exec_keeps_names(*body, r.scopes, host, rounds);
                            lemma_repeat_keeps_names(s, once.scopes, host, (rounds - 1) as nat);
                        }
                    }
                },
            }
        },
        _ => {},
    }
}

/// Statements that run to their end leave as many scopes as they found,
/// and define no name but in the innermost one.
pub proof fn lemma_exec_all_keeps_names(
    statements: Seq<StmtView>,
    scopes: Seq<ScopeView>,
    host: Host,
    rounds: nat,
)
    requires
        scopes.len() >= 1,
        exec_all(statements, scopes, host, rounds).end is Done,
    ensures
        same_names(scopes, exec_all(statements, scopes, host, rounds).scopes, scopes.len() - 1),
    decreases rounds, statements, 0nat,
{
    if statements.len() > 0 {
        let first = exec(statements[0], scopes, host, rounds);
        if first.end is Done {
            lemma_exec_keeps_names(statements[0], scopes, host, rounds);
            lemma_exec_all_keeps_names(statements.drop_first(), first.scopes, host, rounds);
        }
    }
}

/// The machine before it is given anything to do: the global scope alone,
/// empty.
pub open spec fn fresh() -> MachineView {
    MachineView {
        scopes: seq![Map::empty()],
        tasks: Seq::<TaskView>::empty(),
        values: Seq::<ValueView>::empty(),
        pending: None,
    }
}

/// A program given to a fresh machine runs as its statements say, one
/// after another: the lines they print are printed, and where they run to
/// their end the machine has nothing left to do, holds no value, and is
/// back in the global scope alone, which has the program's variables.
pub proof fn lemma_program_runs(statements: Seq<StmtView>, host: Host, rounds: nat)
    requires
        !(exec_all(statements, fresh().scopes, host, rounds).end is Unfinished),
    ensures
        advance(
            MachineView { tasks: scheduled(statements), ..fresh() },
            host,
            exec_all(statements, fresh().scopes, host, rounds).steps,
        ) == arrived(fresh(), exec_all(statements, fresh().scopes, host, rounds)),
        exec_all(statements, fresh().scopes, host, rounds).end is Done ==> exec_all(
            statements,
            fresh().scopes,
            host,
            rounds,
        ).scopes.len() == 1,
{
    assert(fresh().tasks + scheduled(statements) =~= scheduled(statements));
    lemma_machine_executes_all(fresh(), statements, host, rounds);
    if exec_all(statements, fresh().scopes, host, rounds).end is Done {
        lemma_exec_all_keeps_names(statements, fresh().scopes, host, rounds);
    }
}

} // verus!
