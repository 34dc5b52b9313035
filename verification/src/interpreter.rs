//! The evaluator: a machine that runs a program one step at a time.
//!
//! Each step either goes on by itself, prints a line, or asks the host for
//! the one thing that is not computed here: the double-precision value of
//! a numeral, the result of an arithmetic operation on two doubles, or the
//! text of a double. The host answers with the next step.

use crate::ast::{stmts_view, Expr, ExprView, Stmt, StmtView};
use crate::environment::{assigned, defined, lookup, undefined, Environment, ScopeView};
use crate::errors::{RuntimeError, RuntimeErrorView};
use crate::number::{equal_spec, less_equal_spec, less_spec, negate_spec};
use crate::tokens::{LiteralView, Token, TokenType, TokenView};
use crate::value::{constant, plain_text, trimmed, values_view, Value, ValueView};
use vstd::prelude::*;
use vstd::string::StringExecFns;

verus! {

/// An arithmetic operation on two doubles.
#[derive(Debug, Clone, Copy, PartialEq, Eq, Structural)]
pub enum ArithOp {
    Add,
    Subtract,
    Multiply,
    Divide,
}

/// What the machine asks of the host.
#[derive(Debug, PartialEq)]
pub enum Request {
    /// The double that the numeral stands for, as its bit pattern.
    Parse(String),
    /// The result of the operation on the two doubles, as its bit pattern.
    Arithmetic(ArithOp, u64, u64),
    /// The text that stands for the double.
    Format(u64),
}

/// The mathematical value of a [`Request`].
pub enum RequestView {
    Parse(Seq<char>),
    Arithmetic(ArithOp, u64, u64),
    Format(u64),
}

impl View for Request {
    type V = RequestView;

    open spec fn view(&self) -> RequestView {
        match *self {
            Request::Parse(s) => RequestView::Parse(s@),
            Request::Arithmetic(op, a, b) => RequestView::Arithmetic(op, a, b),
            Request::Format(n) => RequestView::Format(n),
        }
    }
}

impl Clone for Request {
    fn clone(&self) -> (r: Self)
        ensures
            r == *self,
    {
        match self {
            Request::Parse(s) => Request::Parse(s.clone()),
            Request::Arithmetic(op, a, b) => Request::Arithmetic(*op, *a, *b),
            Request::Format(n) => Request::Format(*n),
        }
    }
}

/// What the host hands to a step.
#[derive(Debug, PartialEq)]
pub enum Reply {
    /// Nothing was asked.
    Nothing,
    /// A double, as its bit pattern.
    Number(u64),
    /// The text of a double.
    Text(String),
}

/// The mathematical value of a [`Reply`].
pub enum ReplyView {
    Nothing,
    Number(u64),
    Text(Seq<char>),
}

impl View for Reply {
    type V = ReplyView;

    open spec fn view(&self) -> ReplyView {
        match *self {
            Reply::Nothing => ReplyView::Nothing,
            Reply::Number(n) => ReplyView::Number(n),
            Reply::Text(s) => ReplyView::Text(s@),
        }
    }
}

/// What a step hands to the host.
#[derive(Debug, PartialEq)]
pub enum Action {
    /// Nothing to do but to take the next step.
    Proceed,
    /// The host is to answer the request with the next step.
    Ask(Request),
    /// The host is to write the text as one line.
    Print(String),
    /// The program has run to its end.
    Finished,
    /// The program was stopped by an error.
    Failed(RuntimeError),
}

/// The mathematical value of an [`Action`].
pub enum ActionView {
    Proceed,
    Ask(RequestView),
    Print(Seq<char>),
    Finished,
    Failed(RuntimeErrorView),
}

impl View for Action {
    type V = ActionView;

    open spec fn view(&self) -> ActionView {
        match *self {
            Action::Proceed => ActionView::Proceed,
            Action::Ask(r) => ActionView::Ask(r@),
            Action::Print(s) => ActionView::Print(s@),
            Action::Finished => ActionView::Finished,
            Action::Failed(e) => ActionView::Failed(e@),
        }
    }
}

/// What applying an operator gives.
#[derive(Debug, PartialEq)]
pub enum Outcome {
    /// The result.
    Value(Value),
    /// The result is what the host answers to the request.
    Ask(Request),
    /// The operands do not fit the operator.
    Error(RuntimeError),
}

/// The mathematical value of an [`Outcome`].
pub enum OutcomeView {
    Value(ValueView),
    Ask(RequestView),
    Error(RuntimeErrorView),
}

impl View for Outcome {
    type V = OutcomeView;

    open spec fn view(&self) -> OutcomeView {
        match *self {
            Outcome::Value(v) => OutcomeView::Value(v@),
            Outcome::Ask(r) => OutcomeView::Ask(r@),
            Outcome::Error(e) => OutcomeView::Error(e@),
        }
    }
}

/// Whether a value counts as true: all but `nil` and `false` do.
pub open spec fn truthy(v: ValueView) -> bool {
    match v {
        ValueView::Nil => false,
        ValueView::Bool(b) => b,
        _ => true,
    }
}

/// `nil` and `false` are the only values that do not count as true: every
/// number does, zero too, and every string, the empty one too. So `!`
/// gives `true` for `nil` and `false`, and `false` for everything else.
pub proof fn lemma_truthiness(operator: TokenView, value: ValueView)
    requires
        operator.type_ == TokenType::Bang,
    ensures
        truthy(value) == (value != ValueView::Nil && value != ValueView::Bool(false)),
        value is Number ==> truthy(value),
        value is String_ ==> truthy(value),
        unary_spec(operator, value) == OutcomeView::Value(ValueView::Bool(!truthy(value))),
{
}

/// Whether two values are equal: values of different types never are,
/// `nil` equals `nil`, truth values and strings are compared by content,
/// numbers as doubles.
pub open spec fn equal_values(a: ValueView, b: ValueView) -> bool {
    match (a, b) {
        (ValueView::Nil, ValueView::Nil) => true,
        (ValueView::Bool(x), ValueView::Bool(y)) => x == y,
        (ValueView::String_(x), ValueView::String_(y)) => x == y,
        (ValueView::Number(x), ValueView::Number(y)) => equal_spec(x, y),
        _ => false,
    }
}

/// What a unary operator gives: `-` negates a number and fails on
/// anything else, `!` negates truth, and any other token gives `nil`.
pub open spec fn unary_spec(operator: TokenView, operand: ValueView) -> OutcomeView {
    match operator.type_ {
        TokenType::Minus => match operand {
            ValueView::Number(n) => OutcomeView::Value(ValueView::Number(negate_spec(n))),
            _ => OutcomeView::Error(RuntimeErrorView::OperandMustBeNumber { line: operator.line }),
        },
        TokenType::Bang => OutcomeView::Value(ValueView::Bool(!truthy(operand))),
        _ => OutcomeView::Value(ValueView::Nil),
    }
}

/// What an arithmetic operator gives: on two numbers, the request for
/// the host to do `operation` on them; on anything else, an error.
pub open spec fn arithmetic_spec(
    operator: TokenView,
    operation: ArithOp,
    left: ValueView,
    right: ValueView,
) -> OutcomeView {
    match (left, right) {
        (ValueView::Number(a), ValueView::Number(b)) => OutcomeView::Ask(
            RequestView::Arithmetic(operation, a, b),
        ),
        _ => OutcomeView::Error(RuntimeErrorView::OperandsMustBeNumbers { line: operator.line }),
    }
}

/// What `+` gives: on two numbers, the request for the host to add them;
/// on two strings, the first followed by the second; on anything else, an
/// error.
pub open spec fn plus_spec(operator: TokenView, left: ValueView, right: ValueView) -> OutcomeView {
    match (left, right) {
        (ValueView::Number(a), ValueView::Number(b)) => OutcomeView::Ask(
            RequestView::Arithmetic(ArithOp::Add, a, b),
        ),
        (ValueView::String_(a), ValueView::String_(b)) => OutcomeView::Value(
            ValueView::String_(a + b),
        ),
        _ => OutcomeView::Error(
            RuntimeErrorView::OperandsMustBeNumbersOrStrings { line: operator.line },
        ),
    }
}

/// What `>`, `>=`, `<` or `<=` says of two numbers.
pub open spec fn ordered(type_: TokenType, a: u64, b: u64) -> bool {
    match type_ {
        TokenType::Greater => less_spec(b, a),
        TokenType::GreaterEqual => less_equal_spec(b, a),
        TokenType::Less => less_spec(a, b),
        _ => less_equal_spec(a, b),
    }
}

/// What an ordering operator gives: on two numbers, whether they stand in
/// that order; on anything else, an error.
pub open spec fn ordering_spec(operator: TokenView, left: ValueView, right: ValueView)
    -> OutcomeView {
    match (left, right) {
        (ValueView::Number(a), ValueView::Number(b)) => OutcomeView::Value(
            ValueView::Bool(ordered(operator.type_, a, b)),
        ),
        _ => OutcomeView::Error(RuntimeErrorView::OperandsMustBeNumbers { line: operator.line }),
    }
}

/// What a binary operator gives.
///
/// `==` and `!=` compare any two values. The arithmetic and the ordering
/// operators take two numbers: the order is decided here, the arithmetic
/// is asked of the host. `+` also joins two strings. Any other operands
/// are an error, and any other token gives `nil`.
pub open spec fn binary_spec(operator: TokenView, left: ValueView, right: ValueView) -> OutcomeView {
    match operator.type_ {
        TokenType::EqualEqual => OutcomeView::Value(ValueView::Bool(equal_values(left, right))),
        TokenType::BangEqual => OutcomeView::Value(ValueView::Bool(!equal_values(left, right))),
        TokenType::Plus => plus_spec(operator, left, right),
        TokenType::Minus => arithmetic_spec(operator, ArithOp::Subtract, left, right),
        TokenType::Star => arithmetic_spec(operator, ArithOp::Multiply, left, right),
        TokenType::Slash => arithmetic_spec(operator, ArithOp::Divide, left, right),
        TokenType::Greater | TokenType::GreaterEqual | TokenType::Less
        | TokenType::LessEqual => ordering_spec(operator, left, right),
        _ => OutcomeView::Value(ValueView::Nil),
    }
}

/// Whether a value counts as true.
pub fn is_truthy(value: &Value) -> (b: bool)
    ensures
        b == truthy(value@),
{
    match value {
        Value::Bool(b) => *b,
        Value::Nil => false,
        _ => true,
    }
}

/// Whether two values are equal.
pub fn is_equal(a: &Value, b: &Value) -> (r: bool)
    ensures
        r == equal_values(a@, b@),
{
    match a {
        Value::Nil => match b {
            Value::Nil => true,
            _ => false,
        },
        Value::Bool(x) => match b {
            Value::Bool(y) => *x == *y,
            _ => false,
        },
        Value::String_(x) => match b {
            Value::String_(y) => *x == *y,
            _ => false,
        },
        Value::Number(x) => match b {
            Value::Number(y) => crate::number::equal(*x, *y),
            _ => false,
        },
    }
}

/// Applies a unary operator.
pub fn apply_unary(operator: &Token, operand: &Value) -> (r: Outcome)
    ensures
        r@ == unary_spec(operator@, operand@),
{
    match operator.type_ {
        TokenType::Minus => match operand {
            Value::Number(n) => Outcome::Value(Value::Number(crate::number::negate(*n))),
            _ => Outcome::Error(RuntimeError::OperandMustBeNumber { line: operator.line }),
        },
        TokenType::Bang => Outcome::Value(Value::Bool(!is_truthy(operand))),
        _ => Outcome::Value(Value::Nil),
    }
}

/// Applies an arithmetic operator other than `+`.
fn arithmetic(operator: &Token, operation: ArithOp, left: &Value, right: &Value) -> (r: Outcome)
    ensures
        r@ == arithmetic_spec(operator@, operation, left@, right@),
{
    match left {
        Value::Number(a) => match right {
            Value::Number(b) => {
                return Outcome::Ask(Request::Arithmetic(operation, *a, *b));
            },
            _ => {},
        },
        _ => {},
    }
    Outcome::Error(RuntimeError::OperandsMustBeNumbers { line: operator.line })
}

/// Applies `+`.
fn plus(operator: &Token, left: &Value, right: &Value) -> (r: Outcome)
    ensures
        r@ == plus_spec(operator@, left@, right@),
{
    match left {
        Value::Number(a) => match right {
            Value::Number(b) => {
                return Outcome::Ask(Request::Arithmetic(ArithOp::Add, *a, *b));
            },
            _ => {},
        },
        Value::String_(a) => match right {
            Value::String_(b) => {
                return Outcome::Value(Value::String_(a.clone().concat(b.as_str())));
            },
            _ => {},
        },
        _ => {},
    }
    Outcome::Error(RuntimeError::OperandsMustBeNumbersOrStrings { line: operator.line })
}

/// Applies an ordering operator.
fn ordering(operator: &Token, left: &Value, right: &Value) -> (r: Outcome)
    ensures
        r@ == ordering_spec(operator@, left@, right@),
{
    match left {
        Value::Number(a) => match right {
            Value::Number(b) => {
                let answer = match operator.type_ {
                    TokenType::Greater => crate::number::less(*b, *a),
                    TokenType::GreaterEqual => crate::number::less_equal(*b, *a),
                    TokenType::Less => crate::number::less(*a, *b),
                    _ => crate::number::less_equal(*a, *b),
                };
                return Outcome::Value(Value::Bool(answer));
            },
            _ => {},
        },
        _ => {},
    }
    Outcome::Error(RuntimeError::OperandsMustBeNumbers { line: operator.line })
}

/// Applies a binary operator to the values of its operands.
pub fn apply_binary(operator: &Token, left: &Value, right: &Value) -> (r: Outcome)
    ensures
        r@ == binary_spec(operator@, left@, right@),
{
    match operator.type_ {
        TokenType::EqualEqual => Outcome::Value(Value::Bool(is_equal(left, right))),
        TokenType::BangEqual => Outcome::Value(Value::Bool(!is_equal(left, right))),
        TokenType::Plus => plus(operator, left, right),
        TokenType::Minus => arithmetic(operator, ArithOp::Subtract, left, right),
        TokenType::Star => arithmetic(operator, ArithOp::Multiply, left, right),
        TokenType::Slash => arithmetic(operator, ArithOp::Divide, left, right),
        TokenType::Greater | TokenType::GreaterEqual | TokenType::Less
        | TokenType::LessEqual => ordering(operator, left, right),
        _ => Outcome::Value(Value::Nil),
    }
}

/// One piece of work on the machine's stack, see [`TaskView`].
enum Task {
    Execute(Stmt),
    Evaluate(Expr),
    Discard,
    Print,
    Define(Token),
    Leave,
    Branch(Stmt, Option<Stmt>),
    Repeat(Expr, Stmt),
    Store(Token),
    Unary(Token),
    Binary(Token),
    Logical(Token, Expr),
}

/// One piece of work on the machine's stack. Work on a statement or an
/// expression puts the parts on the stack; the other tasks take the values
/// of the parts from the value stack when those have been evaluated.
pub enum TaskView {
    /// Run the statement.
    Execute(StmtView),
    /// Evaluate the expression and put its value on the value stack.
    Evaluate(ExprView),
    /// Drop the value on top.
    Discard,
    /// Print the value on top.
    Print,
    /// Define the variable as the value on top.
    Define(TokenView),
    /// Leave the innermost scope.
    Leave,
    /// Run the first statement if the value on top is true, else the
    /// second, if there is one.
    Branch(StmtView, Option<StmtView>),
    /// If the value on top is true, run the body, evaluate the condition
    /// and come back here.
    Repeat(ExprView, StmtView),
    /// Assign the value on top to the variable; the value stays.
    Store(TokenView),
    /// Apply the unary operator to the value on top.
    Unary(TokenView),
    /// Apply the binary operator to the two values on top, the right
    /// operand topmost.
    Binary(TokenView),
    /// Keep the value on top if it decides the result of `or` or `and`,
    /// else drop it and evaluate the right operand.
    Logical(TokenView, ExprView),
}

spec fn task_view(task: Task) -> TaskView {
    match task {
        Task::Execute(s) => TaskView::Execute(s@),
        Task::Evaluate(e) => TaskView::Evaluate(e@),
        Task::Discard => TaskView::Discard,
        Task::Print => TaskView::Print,
        Task::Define(name) => TaskView::Define(name@),
        Task::Leave => TaskView::Leave,
        Task::Branch(then, other) => TaskView::Branch(
            then@,
            match other {
                Some(s) => Some(s@),
                None => None,
            },
        ),
        Task::Repeat(condition, body) => TaskView::Repeat(condition@, body@),
        Task::Store(name) => TaskView::Store(name@),
        Task::Unary(operator) => TaskView::Unary(operator@),
        Task::Binary(operator) => TaskView::Binary(operator@),
        Task::Logical(operator, right) => TaskView::Logical(operator@, right@),
    }
}

spec fn tasks_view(tasks: Seq<Task>) -> Seq<TaskView> {
    Seq::new(tasks.len(), |i: int| task_view(tasks[i]))
}

spec fn pending_view(pending: Option<Request>) -> Option<RequestView> {
    match pending {
        Some(r) => Some(r@),
        None => None,
    }
}

/// The state of the machine.
pub struct MachineView {
    /// The scopes, the innermost last.
    pub scopes: Seq<ScopeView>,
    /// The work to do, the next task last.
    pub tasks: Seq<TaskView>,
    /// The values of the expressions evaluated and not yet used, the
    /// newest last.
    pub values: Seq<ValueView>,
    /// What the host was asked and has not answered.
    pub pending: Option<RequestView>,
}

/// How many values a task takes from the value stack.
pub open spec fn takes(task: TaskView) -> int {
    match task {
        TaskView::Execute(_) | TaskView::Evaluate(_) | TaskView::Leave => 0,
        TaskView::Binary(_) => 2,
        _ => 1,
    }
}

/// How many values a task, with the work it puts on the stack, leaves on
/// the value stack.
pub open spec fn gives(task: TaskView) -> int {
    match task {
        TaskView::Evaluate(_) | TaskView::Store(_) | TaskView::Unary(_) | TaskView::Binary(_)
        | TaskView::Logical(_, _) => 1,
        _ => 0,
    }
}

/// How many scopes a task leaves.
pub open spec fn leaves(task: TaskView) -> int {
    match task {
        TaskView::Leave => 1,
        _ => 0,
    }
}

/// Whether the work to do fits `values` values on the value stack and
/// `scopes` scopes: each task finds the values it takes and each `Leave` a
/// scope to leave, and when all is done no value and only the global scope
/// are left.
pub open spec fn balanced(tasks: Seq<TaskView>, values: int, scopes: int) -> bool
    decreases tasks.len(),
{
    if tasks.len() == 0 {
        values == 0 && scopes == 1
    } else {
        let task = tasks.last();
        &&& values >= takes(task)
        &&& scopes >= 1 + leaves(task)
        &&& balanced(tasks.drop_last(), values - takes(task) + gives(task), scopes - leaves(task))
    }
}

/// How many values the host owes the value stack.
pub open spec fn owed(pending: Option<RequestView>) -> int {
    match pending {
        Some(RequestView::Parse(_)) | Some(RequestView::Arithmetic(_, _, _)) => 1,
        _ => 0,
    }
}

/// The tasks that run the statements in order: the first statement is the
/// next task.
pub open spec fn scheduled(statements: Seq<StmtView>) -> Seq<TaskView> {
    Seq::new(
        statements.len(),
        |i: int| TaskView::Execute(statements[statements.len() - 1 - i]),
    )
}

impl MachineView {
    /// The state with one more task to do next.
    pub open spec fn with_task(self, task: TaskView) -> MachineView {
        MachineView { tasks: self.tasks.push(task), ..self }
    }

    /// The state without the next task.
    pub open spec fn without_task(self) -> MachineView {
        MachineView { tasks: self.tasks.drop_last(), ..self }
    }

    /// The state with one more value on top.
    pub open spec fn with_value(self, value: ValueView) -> MachineView {
        MachineView { values: self.values.push(value), ..self }
    }

    /// The state without the value on top.
    pub open spec fn without_value(self) -> MachineView {
        MachineView { values: self.values.drop_last(), ..self }
    }

    /// The value on top.
    pub open spec fn top(self) -> ValueView {
        self.values.last()
    }

    /// The state with other scopes.
    pub open spec fn with_scopes(self, scopes: Seq<ScopeView>) -> MachineView {
        MachineView { scopes, ..self }
    }

    /// Whether the state is one that a run can reach: the global scope is
    /// there, and the work to do fits the values and the scopes.
    pub open spec fn ok(self) -> bool {
        &&& self.scopes.len() >= 1
        &&& balanced(self.tasks, self.values.len() + owed(self.pending), self.scopes.len() as int)
    }
}

/// The machine stops on an error: no work is left, no value, and no scope
/// but the global one.
pub open spec fn stopped(m: MachineView, error: RuntimeErrorView) -> (MachineView, ActionView) {
    (
        MachineView {
            scopes: m.scopes.take(1),
            tasks: Seq::<TaskView>::empty(),
            values: Seq::<ValueView>::empty(),
            pending: None,
        },
        ActionView::Failed(error),
    )
}

/// The machine asks the host and waits for the answer.
pub open spec fn asking(m: MachineView, request: RequestView) -> (MachineView, ActionView) {
    (MachineView { pending: Some(request), ..m }, ActionView::Ask(request))
}

/// What becomes of a waiting machine: a number answers a numeral or an
/// arithmetic operation and becomes the value on top; a text answers a
/// number to be written and is printed without a trailing `.0`. On any
/// other reply the machine asks again.
pub open spec fn resume_spec(m: MachineView, request: RequestView, reply: ReplyView) -> (
    MachineView,
    ActionView,
) {
    let idle = MachineView { pending: None, ..m };
    match (request, reply) {
        (RequestView::Parse(_), ReplyView::Number(n)) => (
            idle.with_value(ValueView::Number(n)),
            ActionView::Proceed,
        ),
        (RequestView::Arithmetic(_, _, _), ReplyView::Number(n)) => (
            idle.with_value(ValueView::Number(n)),
            ActionView::Proceed,
        ),
        (RequestView::Format(_), ReplyView::Text(t)) => (idle, ActionView::Print(trimmed(t))),
        _ => (m, ActionView::Ask(request)),
    }
}

/// What running a statement does, in a state `m` from which the
/// statement's own task has been taken.
pub open spec fn execute_spec(m: MachineView, statement: StmtView) -> (MachineView, ActionView) {
    match statement {
        StmtView::Block(statements) => (
            MachineView {
                scopes: m.scopes.push(Map::empty()),
                tasks: m.tasks.push(TaskView::Leave) + scheduled(statements),
                ..m
            },
            ActionView::Proceed,
        ),
        StmtView::Expression(e) => (
            m.with_task(TaskView::Discard).with_task(TaskView::Evaluate(e)),
            ActionView::Proceed,
        ),
        StmtView::If(condition, then, other) => (
            m.with_task(
                TaskView::Branch(
                    *then,
                    match other {
                        Some(s) => Some(*s),
                        None => None,
                    },
                ),
            ).with_task(TaskView::Evaluate(condition)),
            ActionView::Proceed,
        ),
        StmtView::Print(e) => (
            m.with_task(TaskView::Print).with_task(TaskView::Evaluate(e)),
            ActionView::Proceed,
        ),
        StmtView::Var(name, initializer) => match initializer {
            Some(e) => (
                m.with_task(TaskView::Define(name)).with_task(TaskView::Evaluate(e)),
                ActionView::Proceed,
            ),
            None => (
                m.with_task(TaskView::Define(name)).with_value(ValueView::Nil),
                ActionView::Proceed,
            ),
        },
        StmtView::While(condition, body) => (
            m.with_task(TaskView::Repeat(condition, *body)).with_task(
                TaskView::Evaluate(condition),
            ),
            ActionView::Proceed,
        ),
    }
}

/// What evaluating an expression does, in a state `m` from which the
/// expression's own task has been taken.
pub open spec fn evaluate_spec(m: MachineView, expression: ExprView) -> (MachineView, ActionView) {
    match expression {
        ExprView::Assign(name, value) => (
            m.with_task(TaskView::Store(name)).with_task(TaskView::Evaluate(*value)),
            ActionView::Proceed,
        ),
        ExprView::Binary(left, operator, right) => (
            m.with_task(TaskView::Binary(operator)).with_task(TaskView::Evaluate(*right)).with_task(
                TaskView::Evaluate(*left),
            ),
            ActionView::Proceed,
        ),
        ExprView::Grouping(inner) => (m.with_task(TaskView::Evaluate(*inner)), ActionView::Proceed),
        ExprView::Literal(literal) => match literal {
            LiteralView::Number(numeral) => asking(m, RequestView::Parse(numeral)),
            _ => (m.with_value(constant(literal).unwrap()), ActionView::Proceed),
        },
        ExprView::Logical(left, operator, right) => (
            m.with_task(TaskView::Logical(operator, *right)).with_task(TaskView::Evaluate(*left)),
            ActionView::Proceed,
        ),
        ExprView::Unary(operator, operand) => (
            m.with_task(TaskView::Unary(operator)).with_task(TaskView::Evaluate(*operand)),
            ActionView::Proceed,
        ),
        ExprView::Variable(name) => match lookup(m.scopes, name.lexeme) {
            Some(v) => (m.with_value(v), ActionView::Proceed),
            None => stopped(m, undefined(name.lexeme, name.line)),
        },
    }
}

/// Whether the left operand's value decides the result of `or` (where it
/// is true) or of `and` (where it is false).
pub open spec fn decides(operator: TokenView, left: ValueView) -> bool {
    (operator.type_ == TokenType::Or) == truthy(left)
}

/// What a task does, in a state `m` from which the task has been taken.
pub open spec fn complete_spec(m: MachineView, task: TaskView) -> (MachineView, ActionView) {
    match task {
        TaskView::Execute(s) => execute_spec(m, s),
        TaskView::Evaluate(e) => evaluate_spec(m, e),
        TaskView::Discard => (m.without_value(), ActionView::Proceed),
        TaskView::Print => match m.top() {
            ValueView::Number(n) => asking(m.without_value(), RequestView::Format(n)),
            other => (m.without_value(), ActionView::Print(plain_text(other))),
        },
        TaskView::Define(name) => (
            m.without_value().with_scopes(defined(m.scopes, name.lexeme, m.top())),
            ActionView::Proceed,
        ),
        TaskView::Leave => (m.with_scopes(m.scopes.drop_last()), ActionView::Proceed),
        TaskView::Branch(then, other) => if truthy(m.top()) {
            (m.without_value().with_task(TaskView::Execute(then)), ActionView::Proceed)
        } else {
            match other {
                Some(s) => (
                    m.without_value().with_task(TaskView::Execute(s)),
                    ActionView::Proceed,
                ),
                None => (m.without_value(), ActionView::Proceed),
            }
        },
        TaskView::Repeat(condition, body) => if truthy(m.top()) {
            (
                m.without_value().with_task(TaskView::Repeat(condition, body)).with_task(
                    TaskView::Evaluate(condition),
                ).with_task(TaskView::Execute(body)),
                ActionView::Proceed,
            )
        } else {
            (m.without_value(), ActionView::Proceed)
        },
        TaskView::Store(name) => match assigned(m.scopes, name.lexeme, m.top()) {
            Some(scopes) => (m.with_scopes(scopes), ActionView::Proceed),
            None => stopped(m, undefined(name.lexeme, name.line)),
        },
        TaskView::Unary(operator) => match unary_spec(operator, m.top()) {
            OutcomeView::Value(v) => (m.without_value().with_value(v), ActionView::Proceed),
            OutcomeView::Ask(request) => asking(m.without_value(), request),
            OutcomeView::Error(e) => stopped(m, e),
        },
        TaskView::Binary(operator) => match binary_spec(
            operator,
            m.values[m.values.len() - 2],
            m.top(),
        ) {
            OutcomeView::Value(v) => (
                m.without_value().without_value().with_value(v),
                ActionView::Proceed,
            ),
            OutcomeView::Ask(request) => asking(m.without_value().without_value(), request),
            OutcomeView::Error(e) => stopped(m, e),
        },
        TaskView::Logical(operator, right) => if decides(operator, m.top()) {
            (m, ActionView::Proceed)
        } else {
            (m.without_value().with_task(TaskView::Evaluate(right)), ActionView::Proceed)
        },
    }
}

/// One step of the machine: the next state, and what the host is to do.
///
/// A waiting machine reads the reply. Otherwise the reply is not read: the
/// machine takes the next task and does it, or is finished where there is
/// none.
pub open spec fn step_spec(m: MachineView, reply: ReplyView) -> (MachineView, ActionView) {
    match m.pending {
        Some(request) => resume_spec(m, request, reply),
        None => if m.tasks.len() == 0 {
            (m, ActionView::Finished)
        } else {
            complete_spec(m.without_task(), m.tasks.last())
        },
    }
}

/// The state after the host has given each of `replies` to one step, in
/// order.
pub open spec fn run_spec(m: MachineView, replies: Seq<ReplyView>) -> MachineView
    decreases replies.len(),
{
    if replies.len() == 0 {
        m
    } else {
        step_spec(run_spec(m, replies.drop_last()), replies.last()).0
    }
}

/// What a task on top asks of the values and the scopes below it.
pub broadcast proof fn lemma_balanced_push(
    tasks: Seq<TaskView>,
    task: TaskView,
    values: int,
    scopes: int,
)
    ensures
        #[trigger] balanced(tasks.push(task), values, scopes) == (values >= takes(task) && scopes
            >= 1 + leaves(task) && balanced(
            tasks,
            values - takes(task) + gives(task),
            scopes - leaves(task),
        )),
{
    assert(tasks.push(task).drop_last() =~= tasks);
}

/// Statements to run ask nothing of the values and the scopes.
pub proof fn lemma_balanced_scheduled(
    tasks: Seq<TaskView>,
    statements: Seq<StmtView>,
    values: int,
    scopes: int,
)
    ensures
        balanced(tasks + scheduled(statements), values, scopes) == balanced(tasks, values, scopes),
    decreases statements.len(),
{
    if statements.len() == 0 {
        assert(tasks + scheduled(statements) =~= tasks);
    } else {
        let first = TaskView::Execute(statements[0]);
        let later = statements.drop_first();
        assert(tasks + scheduled(statements) =~= (tasks + scheduled(later)).push(first));
        lemma_balanced_push(tasks + scheduled(later), first, values, scopes);
        lemma_balanced_scheduled(tasks, later, values, scopes);
    }
}

/// A step leads from a reachable state to a reachable state. So the
/// global scope is never left, no task ever lacks a value, and a block's
/// scope is left when the block is done.
pub proof fn lemma_step_keeps_ok(m: MachineView, reply: ReplyView)
    requires
        m.ok(),
    ensures
        step_spec(m, reply).0.ok(),
{
    broadcast use lemma_balanced_push;

    match m.pending {
        Some(request) => {},
        None => {
            if m.tasks.len() > 0 {
                let rest = m.without_task();
                let task = m.tasks.last();
                match task {
                    TaskView::Execute(StmtView::Block(statements)) => {
                        lemma_balanced_scheduled(
                            rest.tasks.push(TaskView::Leave),
                            statements,
                            rest.values.len() as int,
                            (rest.scopes.len() + 1) as int,
                        );
                    },
                    TaskView::Store(name) => {
                        crate::environment::lemma_assign_keeps_names(
                            rest.scopes,
                            name.lexeme,
                            rest.top(),
                        );
                    },
                    _ => {},
                }
            }
        },
    }
}

/// A run leads from a reachable state to reachable states only.
pub proof fn lemma_run_keeps_ok(m: MachineView, replies: Seq<ReplyView>)
    requires
        m.ok(),
    ensures
        run_spec(m, replies).ok(),
    decreases replies.len(),
{
    if replies.len() > 0 {
        lemma_run_keeps_ok(m, replies.drop_last());
        lemma_step_keeps_ok(run_spec(m, replies.drop_last()), replies.last());
    }
}

/// When the program is finished, no value is left over and every block's
/// scope has been left: only the global scope remains.
pub proof fn lemma_finished_is_clean(m: MachineView, reply: ReplyView)
    requires
        m.ok(),
        step_spec(m, reply).1 == ActionView::Finished,
    ensures
        step_spec(m, reply).0 == m,
        m.tasks.len() == 0,
        m.values.len() == 0,
        m.scopes.len() == 1,
{
    if m.pending.is_none() && m.tasks.len() > 0 {
        let rest = m.without_task();
        match m.tasks.last() {
            TaskView::Execute(s) => {},
            TaskView::Evaluate(e) => {},
            _ => {},
        }
    }
}

/// Evaluating a numeral asks the host for the value of exactly that
/// numeral, and the number that the host answers with becomes the value of
/// the literal, bit for bit.
pub proof fn lemma_numeral_value(m: MachineView, numeral: Seq<char>, number: u64)
    requires
        m.pending.is_none(),
        m.tasks.len() > 0,
        m.tasks.last() == TaskView::Evaluate(ExprView::Literal(LiteralView::Number(numeral))),
    ensures
        step_spec(m, ReplyView::Nothing).1 == ActionView::Ask(RequestView::Parse(numeral)),
        step_spec(step_spec(m, ReplyView::Nothing).0, ReplyView::Number(number)) == (
            m.without_task().with_value(ValueView::Number(number)),
            ActionView::Proceed,
        ),
{
}

/// Evaluating a literal that is no numeral takes one step and puts the
/// literal's own value on the value stack.
pub proof fn lemma_constant_value(m: MachineView, literal: LiteralView, reply: ReplyView)
    requires
        m.pending.is_none(),
        m.tasks.len() > 0,
        m.tasks.last() == TaskView::Evaluate(ExprView::Literal(literal)),
        !(literal is Number),
    ensures
        step_spec(m, reply) == (
            m.without_task().with_value(constant(literal).unwrap()),
            ActionView::Proceed,
        ),
{
}

/// Assigning to a variable that no scope defines stops the program with
/// an error and defines nothing: the global scope is as it was.
pub proof fn lemma_store_undefined(m: MachineView, name: TokenView, reply: ReplyView)
    requires
        m.ok(),
        m.pending.is_none(),
        m.tasks.len() > 0,
        m.tasks.last() == TaskView::Store(name),
        lookup(m.scopes, name.lexeme).is_none(),
    ensures
        step_spec(m, reply).1 == ActionView::Failed(undefined(name.lexeme, name.line)),
        step_spec(m, reply).0.scopes == m.scopes.take(1),
{
    crate::environment::lemma_assign_keeps_names(m.scopes, name.lexeme, m.values.last());
}

/// The machine: the scopes, the work to do, the values not yet used, and
/// what the host was asked.
pub struct Interpreter {
    environment: Environment,
    tasks: Vec<Task>,
    values: Vec<Value>,
    pending: Option<Request>,
}

impl View for Interpreter {
    type V = MachineView;

    closed spec fn view(&self) -> MachineView {
        MachineView {
            scopes: self.environment@,
            tasks: tasks_view(self.tasks@),
            values: values_view(self.values@),
            pending: pending_view(self.pending),
        }
    }
}

impl Interpreter {
    /// A machine with nothing to do, no variable and nothing asked.
    pub fn new() -> (r: Self)
        ensures
            r@.ok(),
            r@ == (MachineView {
                scopes: seq![Map::<Seq<char>, ValueView>::empty()],
                tasks: Seq::<TaskView>::empty(),
                values: Seq::<ValueView>::empty(),
                pending: None,
            }),
    {
        let r = Interpreter {
            environment: Environment::new(),
            tasks: Vec::new(),
            values: Vec::new(),
            pending: None,
        };
        assert(r@.tasks =~= Seq::<TaskView>::empty());
        assert(r@.values =~= Seq::<ValueView>::empty());
        r
    }

    /// Puts the statements on top of the work to do, the first to be run
    /// first. Nothing is run yet: [`Interpreter::step`] does that.
    pub fn interpret(&mut self, statements: &[Stmt])
        requires
            old(self)@.ok(),
        ensures
            final(self)@.ok(),
            final(self)@ == (MachineView {
                tasks: old(self)@.tasks + scheduled(stmts_view(statements@)),
                ..old(self)@
            }),
    {
        let ghost all = stmts_view(statements@);
        let mut i: usize = statements.len();
        assert(self@.tasks =~= old(self)@.tasks + scheduled(all).take(0));
        while i > 0
            invariant
                i <= statements.len(),
                all == stmts_view(statements@),
                self@ == (MachineView {
                    tasks: old(self)@.tasks + scheduled(all).take(statements.len() - i),
                    ..old(self)@
                }),
            decreases i,
        {
            i -= 1;
            self.push_task(Task::Execute(statements[i].clone()));
            assert(self@.tasks =~= old(self)@.tasks + scheduled(all).take(statements.len() - i));
        }
        proof {
            assert(scheduled(all).take(statements.len() as int) =~= scheduled(all));
            lemma_balanced_scheduled(
                old(self)@.tasks,
                all,
                old(self)@.values.len() + owed(old(self)@.pending),
                old(self)@.scopes.len() as int,
            );
        }
    }

    /// Whether there is nothing left to do and nothing asked.
    pub fn is_finished(&self) -> (b: bool)
        ensures
            b == (self@.pending.is_none() && self@.tasks.len() == 0),
    {
        self.pending.is_none() && self.tasks.len() == 0
    }

    /// How many scopes there are, the global one included.
    pub fn depth(&self) -> (n: usize)
        ensures
            n == self@.scopes.len(),
    {
        self.environment.depth()
    }

    /// The value of the variable that `name` names, as the program would
    /// read it now.
    pub fn variable(&self, name: &Token) -> (r: Result<Value, RuntimeError>)
        ensures
            match r {
                Ok(v) => lookup(self@.scopes, name.lexeme@) == Some(v@),
                Err(e) => lookup(self@.scopes, name.lexeme@).is_none() && e@ == undefined(
                    name.lexeme@,
                    name.line as nat,
                ),
            },
    {
        self.environment.get(name)
    }

    /// Takes one step, see [`step_spec`]. `reply` answers what the step
    /// before asked, if it asked.
    pub fn step(&mut self, reply: Reply) -> (action: Action)
        requires
            old(self)@.ok(),
        ensures
            final(self)@.ok(),
            (final(self)@, action@) == step_spec(old(self)@, reply@),
    {
        proof {
            lemma_step_keeps_ok(self@, reply@);
        }
        if self.pending.is_some() {
            return self.resume(reply);
        }
        match self.tasks.pop() {
            None => Action::Finished,
            Some(task) => {
                assert(self@ =~= old(self)@.without_task()) by {
                    assert(self@.tasks =~= old(self)@.tasks.drop_last());
                }
                assert(task_view(task) == old(self)@.tasks.last());
                match task {
                    Task::Execute(statement) => self.execute(statement),
                    Task::Evaluate(expression) => self.evaluate(expression),
                    other => self.complete(other),
                }
            },
        }
    }

    fn push_task(&mut self, task: Task)
        ensures
            final(self)@ == old(self)@.with_task(task_view(task)),
    {
        self.tasks.push(task);
        assert(self@.tasks =~= old(self)@.tasks.push(task_view(task)));
    }

    fn push_value(&mut self, value: Value)
        ensures
            final(self)@ == old(self)@.with_value(value@),
    {
        self.values.push(value);
        assert(self@.values =~= old(self)@.values.push(value@));
    }

    fn pop_value(&mut self) -> (value: Value)
        requires
            old(self)@.values.len() > 0,
        ensures
            final(self)@ == old(self)@.without_value(),
            value@ == old(self)@.top(),
    {
        let popped = self.values.pop();
        assert(self@.values =~= old(self)@.values.drop_last());
        match popped {
            Some(value) => value,
            None => Value::Nil,
        }
    }

    /// Stops the program.
    fn fail(&mut self, error: RuntimeError) -> (action: Action)
        requires
            old(self)@.scopes.len() >= 1,
        ensures
            (final(self)@, action@) == stopped(old(self)@, error@),
    {
        self.environment.unwind();
        self.tasks = Vec::new();
        self.values = Vec::new();
        self.pending = None;
        assert(self@.tasks =~= Seq::<TaskView>::empty());
        assert(self@.values =~= Seq::<ValueView>::empty());
        Action::Failed(error)
    }

    /// Asks the host and waits.
    fn ask(&mut self, request: Request) -> (action: Action)
        ensures
            (final(self)@, action@) == asking(old(self)@, request@),
    {
        self.pending = Some(request.clone());
        Action::Ask(request)
    }

    /// Reads the host's reply to what was asked.
    fn resume(&mut self, reply: Reply) -> (action: Action)
        requires
            old(self)@.pending.is_some(),
        ensures
            (final(self)@, action@) == resume_spec(
                old(self)@,
                old(self)@.pending.unwrap(),
                reply@,
            ),
    {
        let wants_text = match &self.pending {
            Some(Request::Format(_)) => true,
            _ => false,
        };
        match reply {
            Reply::Number(n) => {
                if !wants_text {
                    self.pending = None;
                    self.push_value(Value::Number(n));
                    return Action::Proceed;
                }
            },
            Reply::Text(text) => {
                if wants_text {
                    self.pending = None;
                    return Action::Print(crate::value::trim(text.as_str()));
                }
            },
            Reply::Nothing => {},
        }
        match &self.pending {
            Some(request) => Action::Ask(request.clone()),
            None => Action::Proceed,
        }
    }

    /// Runs a statement: puts its parts on the stack.
    fn execute(&mut self, statement: Stmt) -> (action: Action)
        requires
            old(self)@.scopes.len() >= 1,
        ensures
            (final(self)@, action@) == execute_spec(old(self)@, statement@),
    {
        match statement {
            Stmt::Block(statements) => {
                proof {
                    crate::ast::lemma_block_view(statements);
                }
                self.environment.enter();
                self.push_task(Task::Leave);
                let ghost all = stmts_view(statements@);
                let ghost base = self@;
                let mut rest = statements;
                assert(self@.tasks =~= base.tasks + scheduled(all).take(0));
                while rest.len() > 0
                    invariant
                        rest.len() <= all.len(),
                        stmts_view(rest@) == all.take(rest.len() as int),
                        self@ == (MachineView {
                            tasks: base.tasks + scheduled(all).take(all.len() - rest.len()),
                            ..base
                        }),
                    decreases rest.len(),
                {
                    let ghost before = rest@;
                    match rest.pop() {
                        Some(s) => {
                            assert(s@ == stmts_view(before)[before.len() - 1]);
                            assert(stmts_view(rest@) =~= all.take(rest.len() as int));
                            self.push_task(Task::Execute(s));
                            assert(self@.tasks =~= base.tasks + scheduled(all).take(
                                all.len() - rest.len(),
                            ));
                        },
                        None => {},
                    }
                }
                assert(scheduled(all).take(all.len() as int) =~= scheduled(all));
                Action::Proceed
            },
            Stmt::Expression(e) => {
                self.push_task(Task::Discard);
                self.push_task(Task::Evaluate(e));
                Action::Proceed
            },
            Stmt::If(condition, then, other) => {
                self.push_task(Task::Branch(*then, *other));
                self.push_task(Task::Evaluate(condition));
                Action::Proceed
            },
            Stmt::Print(e) => {
                self.push_task(Task::Print);
                self.push_task(Task::Evaluate(e));
                Action::Proceed
            },
            Stmt::Var(name, initializer) => {
                self.push_task(Task::Define(name));
                match initializer {
                    Some(e) => {
                        self.push_task(Task::Evaluate(e));
                    },
                    None => {
                        self.push_value(Value::Nil);
                    },
                }
                Action::Proceed
            },
            Stmt::While(condition, body) => {
                let again = condition.clone();
                self.push_task(Task::Repeat(condition, *body));
                self.push_task(Task::Evaluate(again));
                Action::Proceed
            },
        }
    }

    /// Evaluates an expression: puts its parts on the stack, or its value
    /// on the value stack.
    fn evaluate(&mut self, expression: Expr) -> (action: Action)
        requires
            old(self)@.scopes.len() >= 1,
            old(self)@.pending.is_none(),
        ensures
            (final(self)@, action@) == evaluate_spec(old(self)@, expression@),
    {
        match expression {
            Expr::Assign(name, value) => {
                self.push_task(Task::Store(name));
                self.push_task(Task::Evaluate(*value));
                Action::Proceed
            },
            Expr::Binary(left, operator, right) => {
                self.push_task(Task::Binary(operator));
                self.push_task(Task::Evaluate(*right));
                self.push_task(Task::Evaluate(*left));
                Action::Proceed
            },
            Expr::Grouping(inner) => {
                self.push_task(Task::Evaluate(*inner));
                Action::Proceed
            },
            Expr::Literal(literal) => match Value::from_literal(literal) {
                Ok(value) => {
                    self.push_value(value);
                    Action::Proceed
                },
                Err(numeral) => self.ask(Request::Parse(numeral)),
            },
            Expr::Logical(left, operator, right) => {
                self.push_task(Task::Logical(operator, *right));
                self.push_task(Task::Evaluate(*left));
                Action::Proceed
            },
            Expr::Unary(operator, operand) => {
                self.push_task(Task::Unary(operator));
                self.push_task(Task::Evaluate(*operand));
                Action::Proceed
            },
            Expr::Variable(name) => match self.environment.get(&name) {
                Ok(value) => {
                    self.push_value(value);
                    Action::Proceed
                },
                Err(e) => self.fail(e),
            },
        }
    }

    /// Does a task.
    fn complete(&mut self, task: Task) -> (action: Action)
        requires
            old(self)@.pending.is_none(),
            old(self)@.values.len() >= takes(task_view(task)),
            old(self)@.scopes.len() >= 1 + leaves(task_view(task)),
        ensures
            (final(self)@, action@) == complete_spec(old(self)@, task_view(task)),
    {
        match task {
            Task::Execute(statement) => self.execute(statement),
            Task::Evaluate(expression) => self.evaluate(expression),
            Task::Discard => {
                self.pop_value();
                Action::Proceed
            },
            Task::Print => {
                let value = self.pop_value();
                match value {
                    Value::Number(n) => self.ask(Request::Format(n)),
                    other => Action::Print(other.render("")),
                }
            },
            Task::Define(name) => {
                let value = self.pop_value();
                self.environment.define(name.lexeme, value);
                Action::Proceed
            },
            Task::Leave => {
                self.environment.leave();
                Action::Proceed
            },
            Task::Branch(then, other) => {
                let value = self.pop_value();
                if is_truthy(&value) {
                    self.push_task(Task::Execute(then));
                } else {
                    match other {
                        Some(s) => {
                            self.push_task(Task::Execute(s));
                        },
                        None => {},
                    }
                }
                Action::Proceed
            },
            Task::Repeat(condition, body) => {
                let value = self.pop_value();
                if is_truthy(&value) {
                    let again = condition.clone();
                    let once = body.clone();
                    self.push_task(Task::Repeat(condition, body));
                    self.push_task(Task::Evaluate(again));
                    self.push_task(Task::Execute(once));
                }
                Action::Proceed
            },
            Task::Store(name) => {
                let value = self.values[self.values.len() - 1].clone();
                match self.environment.assign(name, value) {
                    Ok(_) => Action::Proceed,
                    Err(e) => self.fail(e),
                }
            },
            Task::Unary(operator) => {
                let outcome = apply_unary(&operator, &self.values[self.values.len() - 1]);
                match outcome {
                    Outcome::Value(v) => {
                        self.pop_value();
                        self.push_value(v);
                        Action::Proceed
                    },
                    Outcome::Ask(request) => {
                        self.pop_value();
                        self.ask(request)
                    },
                    Outcome::Error(e) => self.fail(e),
                }
            },
            Task::Binary(operator) => {
                let n = self.values.len();
                let outcome = apply_binary(&operator, &self.values[n - 2], &self.values[n - 1]);
                match outcome {
                    Outcome::Value(v) => {
                        self.pop_value();
                        self.pop_value();
                        self.push_value(v);
                        Action::Proceed
                    },
                    Outcome::Ask(request) => {
                        self.pop_value();
                        self.pop_value();
                        self.ask(request)
                    },
                    Outcome::Error(e) => self.fail(e),
                }
            },
            Task::Logical(operator, right) => {
                let keep = (operator.type_ == TokenType::Or) == is_truthy(
                    &self.values[self.values.len() - 1],
                );
                if !keep {
                    self.pop_value();
                    self.push_task(Task::Evaluate(right));
                }
                Action::Proceed
            },
        }
    }
}

} // verus!
