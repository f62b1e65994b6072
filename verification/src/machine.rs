//! The machine that runs a program, as mathematics: its states, and the step
//! that leads from one state to the next. The frames on its stack say what
//! remains to be done; statements and expressions are taken apart into
//! frames as their turn comes.

use vstd::prelude::*;
use crate::environment::{bind, chain_ordered, lookup, resolve, ScopeView};
use crate::expr::Expr;
use crate::lox_callable::LoxCallable;
use crate::lox_function::LoxFunction;
use crate::number::{equals_spec, less_equal_spec, less_spec, negate_spec, ArithmeticOperator};
use crate::object::Object;
use crate::runtime_error::{RuntimeError, RuntimeErrorView};
use crate::stmt::Stmt;
use crate::token::Token;
use crate::token_type::TokenType;
use crate::value::ValueView;

verus! {

/// What remains to be done: the interpreter keeps a stack of these, and a
/// step takes the topmost one. The frames that consume a value find it on top
/// of the value stack, where the evaluation scheduled above them left it.
#[derive(Clone, Copy, Debug)]
pub enum Frame<'a> {
    /// Execute `statements` from position `next` on.
    Sequence { statements: &'a Vec<Stmt>, next: usize },
    /// Execute one statement.
    Execute(&'a Stmt),
    /// Evaluate an expression and push its value.
    Evaluate(&'a Expr),
    /// Drop the value of an expression statement.
    Discard,
    /// Print a value.
    Print,
    /// Define a variable with the value as initializer.
    Define(&'a Token),
    /// Choose a branch of an `if` by the value of its condition.
    Branch { then_branch: &'a Stmt, else_branch: &'a Option<Stmt> },
    /// Run the body of a `while` and test again, or leave, by the value of
    /// its condition.
    Loop { condition: &'a Expr, body: &'a Stmt },
    /// Return the value from the innermost call.
    Return,
    /// The end of a block: the scope that was current before it is current
    /// again.
    LeaveBlock { enclosing: usize },
    /// The frame of a call. Reached when the body ends without a `return`:
    /// the call's value is `nil`. A `return` unwinds to it.
    LeaveCall { caller: usize },
    /// Apply a unary operator to a value.
    Unary(&'a Token),
    /// Apply a binary operator to two values.
    Binary(&'a Token),
    /// Decide by the left operand of `and` / `or` whether to evaluate the right one.
    Logical { operator: &'a Token, right: &'a Expr },
    /// Assign a value to a variable.
    Assign(&'a Token),
    /// Call the callee with `count` arguments; all of them are on the value stack.
    Call { paren: &'a Token, count: usize },
}

/// How a step ended: what the host has to do before the next one.
#[derive(Debug, PartialEq)]
pub enum Step {
    /// Nothing: take the next step.
    Continue,
    /// Write the text and a newline to standard output.
    Print(String),
    /// Write the number, in the default decimal form of a double, and a
    /// newline to standard output.
    PrintNumber(u64),
    /// Convert the numeral to a double and supply it.
    ParseNumber(String),
    /// Compute `left operator right` on doubles and supply the result.
    Arithmetic { operator: ArithmeticOperator, left: u64, right: u64 },
    /// Read the wall clock, in milliseconds since the Unix epoch, and
    /// supply it.
    Clock,
    /// The program has run to its end.
    Finished,
    /// The program was stopped by a runtime error.
    Failed(RuntimeError),
}

/// The mathematical value of a [`Step`].
pub enum StepView {
    Continue,
    Print(Seq<char>),
    PrintNumber(u64),
    ParseNumber(Seq<char>),
    Arithmetic { operator: ArithmeticOperator, left: u64, right: u64 },
    Clock,
    Finished,
    Failed(RuntimeErrorView),
}

impl View for Step {
    type V = StepView;

    open spec fn view(&self) -> StepView {
        match self {
            Step::Continue => StepView::Continue,
            Step::Print(text) => StepView::Print(text@),
            Step::PrintNumber(bits) => StepView::PrintNumber(*bits),
            Step::ParseNumber(numeral) => StepView::ParseNumber(numeral@),
            Step::Arithmetic { operator, left, right } => StepView::Arithmetic {
                operator: *operator,
                left: *left,
                right: *right,
            },
            Step::Clock => StepView::Clock,
            Step::Finished => StepView::Finished,
            Step::Failed(error) => StepView::Failed(error@),
        }
    }
}

/// The state of a running program, as mathematics: the frames still to run
/// (the last one first), the values computed and not yet consumed (the last
/// one on top), every scope created so far, and the handles of the current
/// scope and of the global one.
pub struct State<'a> {
    pub frames: Seq<Frame<'a>>,
    pub values: Seq<ValueView<'a>>,
    pub scopes: Seq<ScopeView<'a>>,
    pub current: usize,
    pub globals: usize,
}

impl<'a> State<'a> {
    pub open spec fn push_frame(self, frame: Frame<'a>) -> State<'a> {
        State { frames: self.frames.push(frame), ..self }
    }

    pub open spec fn pop_frame(self) -> State<'a> {
        State { frames: self.frames.drop_last(), ..self }
    }

    pub open spec fn push_value(self, value: ValueView<'a>) -> State<'a> {
        State { values: self.values.push(value), ..self }
    }

    pub open spec fn pop_value(self) -> State<'a> {
        State { values: self.values.drop_last(), ..self }
    }

    /// Drops the `count` topmost values.
    pub open spec fn drop_values(self, count: int) -> State<'a> {
        State { values: self.values.subrange(0, self.values.len() - count), ..self }
    }

    /// Binds `key` in the current scope.
    pub open spec fn define(self, key: Seq<char>, value: ValueView<'a>) -> State<'a> {
        State { scopes: bind(self.scopes, self.current as int, key, value), ..self }
    }

    /// Creates a scope inside `enclosing` and makes it the current one.
    pub open spec fn enter(self, enclosing: usize) -> State<'a> {
        State {
            scopes: self.scopes.push(ScopeView { values: Map::empty(), enclosing: Some(enclosing) }),
            current: self.scopes.len() as usize,
            ..self
        }
    }

    /// The state of a program that was stopped: nothing remains to be run,
    /// and no value is pending. The scopes stay as they are.
    pub open spec fn halt(self) -> State<'a> {
        State { frames: Seq::empty(), values: Seq::empty(), ..self }
    }

    /// The value of the variable `key`: the binding found from the current
    /// scope outwards, and failing that the one found from the global scope.
    pub open spec fn variable(self, key: Seq<char>) -> Option<ValueView<'a>> {
        match lookup(self.scopes, self.current as int, key) {
            Some(value) => Some(value),
            None => lookup(self.scopes, self.globals as int, key),
        }
    }

    /// The scope that holds the variable `key`, found as `variable` finds it.
    pub open spec fn holder(self, key: Seq<char>) -> Option<int> {
        match resolve(self.scopes, self.current as int, key) {
            Some(scope) => Some(scope),
            None => resolve(self.scopes, self.globals as int, key),
        }
    }

    /// The handles of the current and the global scope name scopes, every
    /// scope is enclosed by an older one, and there are no more scopes than
    /// there are handles.
    pub open spec fn well_formed(self) -> bool {
        &&& self.current < self.scopes.len() <= usize::MAX
        &&& self.globals < self.scopes.len()
        &&& chain_ordered(self.scopes)
    }
}

/// A state and the step that led to it.
pub struct Transition<'a> {
    pub state: State<'a>,
    pub step: StepView,
}

/// The transition that goes on without the host.
pub open spec fn proceed<'a>(state: State<'a>) -> Transition<'a> {
    Transition { state, step: StepView::Continue }
}

/// The transition that stops the program with `error`.
pub open spec fn fail<'a>(state: State<'a>, error: RuntimeErrorView) -> Transition<'a> {
    Transition { state: state.halt(), step: StepView::Failed(error) }
}

/// Truthiness: `nil` and `false` are falsy, every other value is truthy.
pub open spec fn truthy(value: ValueView) -> bool {
    match value {
        ValueView::Null => false,
        ValueView::Boolean(b) => b,
        _ => true,
    }
}

/// Equality of values: `nil` equals `nil`, two numbers are equal as doubles
/// are, two strings are equal when they hold the same text. No other pair of
/// values is equal.
pub open spec fn values_equal(left: ValueView, right: ValueView) -> bool {
    match (left, right) {
        (ValueView::Null, ValueView::Null) => true,
        (ValueView::Number(l), ValueView::Number(r)) => equals_spec(l, r),
        (ValueView::String(l), ValueView::String(r)) => l == r,
        _ => false,
    }
}

/// The text that `print` writes for a value, but for a number: that one the
/// host formats.
pub open spec fn text_of(value: ValueView) -> Option<Seq<char>> {
    match value {
        ValueView::Null => Some("nil"@),
        ValueView::Boolean(b) => Some(
            if b {
                "true"@
            } else {
                "false"@
            },
        ),
        ValueView::Number(_) => None,
        ValueView::String(text) => Some(text),
        ValueView::Callable(callable) => Some("<fn "@ + callable.name_spec() + ">"@),
    }
}

/// The frames that evaluate the arguments of a call: the first argument is
/// evaluated first, so its frame is the topmost.
pub open spec fn argument_frames<'a>(arguments: &'a Vec<Expr>) -> Seq<Frame<'a>> {
    Seq::new(
        arguments@.len(),
        |i: int| Frame::Evaluate(&arguments@[arguments@.len() - 1 - i]),
    )
}

/// The scopes after the first `count` parameters were bound, in order, to
/// their arguments in `scope`.
pub open spec fn bind_parameters<'a>(
    scopes: Seq<ScopeView<'a>>,
    scope: int,
    params: Seq<Token>,
    arguments: Seq<ValueView<'a>>,
    count: nat,
) -> Seq<ScopeView<'a>>
    decreases count,
{
    if count == 0 {
        scopes
    } else {
        bind(
            bind_parameters(scopes, scope, params, arguments, (count - 1) as nat),
            scope,
            params[count - 1].lexeme@,
            arguments[count - 1],
        )
    }
}

/// The frames below the innermost call frame, and the scope that was
/// current when that call was made; `None` where no call is in progress.
pub open spec fn unwind<'a>(frames: Seq<Frame<'a>>) -> Option<(Seq<Frame<'a>>, usize)>
    decreases frames.len(),
{
    if frames.len() == 0 {
        None
    } else {
        match frames.last() {
            Frame::LeaveCall { caller } => Some((frames.drop_last(), caller)),
            _ => unwind(frames.drop_last()),
        }
    }
}

/// Executing the statements of a list from position `next` on: the
/// statement at `next` runs first, the rest of the list after it.
pub open spec fn sequence<'a>(state: State<'a>, statements: &'a Vec<Stmt>, next: usize) -> Transition<'a> {
    if next < statements@.len() {
        proceed(
            state.push_frame(Frame::Sequence { statements, next: (next + 1) as usize }).push_frame(
                Frame::Execute(&statements@[next as int]),
            ),
        )
    } else {
        proceed(state)
    }
}

/// Running `statements` in the scope `scope`; the scope that is current now
/// is current again when the block is left.
pub open spec fn block<'a>(state: State<'a>, statements: &'a Vec<Stmt>, scope: usize) -> State<'a> {
    State { current: scope, ..state }.push_frame(Frame::LeaveBlock { enclosing: state.current }).push_frame(
        Frame::Sequence { statements, next: 0 },
    )
}

/// Executing one statement.
pub open spec fn execute<'a>(state: State<'a>, stmt: &'a Stmt) -> Transition<'a> {
    match stmt {
        Stmt::Expression { expr } => proceed(
            state.push_frame(Frame::Discard).push_frame(Frame::Evaluate(&**expr)),
        ),
        Stmt::Print { expr } => proceed(
            state.push_frame(Frame::Print).push_frame(Frame::Evaluate(&**expr)),
        ),
        Stmt::Var { name, initializer } => match initializer {
            Some(expr) => proceed(state.push_frame(Frame::Define(name)).push_frame(Frame::Evaluate(expr))),
            None => proceed(state.define(name.lexeme@, ValueView::Null)),
        },
        Stmt::Block { statements } => proceed(
            block(
                State { current: state.current, ..state.enter(state.current) },
                statements,
                state.scopes.len() as usize,
            ),
        ),
        Stmt::If { condition, then_branch, else_branch } => proceed(
            state.push_frame(
                Frame::Branch { then_branch: &**then_branch, else_branch: &**else_branch },
            ).push_frame(Frame::Evaluate(&**condition)),
        ),
        Stmt::While { condition, body } => proceed(
            state.push_frame(Frame::Loop { condition: &**condition, body: &**body }).push_frame(
                Frame::Evaluate(&**condition),
            ),
        ),
        Stmt::Function { name, params, body } => proceed(
            state.define(
                name.lexeme@,
                ValueView::Callable(
                    LoxCallable::Function(LoxFunction { name, params, body, closure: state.current }),
                ),
            ),
        ),
        Stmt::Return { keyword, value } => match &**value {
            Some(expr) => proceed(state.push_frame(Frame::Return).push_frame(Frame::Evaluate(expr))),
            None => proceed(state.push_frame(Frame::Return).push_value(ValueView::Null)),
        },
    }
}

/// Evaluating one expression: either its value is pushed at once, or frames
/// are scheduled that will push it, or the host is asked for it.
pub open spec fn evaluate<'a>(state: State<'a>, expr: &'a Expr) -> Transition<'a> {
    match expr {
        Expr::Literal { value } => match value {
            Object::String(text) => proceed(state.push_value(ValueView::String(text@))),
            Object::Number(numeral) => Transition { state, step: StepView::ParseNumber(numeral@) },
            Object::Boolean(b) => proceed(state.push_value(ValueView::Boolean(*b))),
            Object::Null => proceed(state.push_value(ValueView::Null)),
        },
        Expr::Grouping { expr } => proceed(state.push_frame(Frame::Evaluate(&**expr))),
        Expr::Unary { right, operator } => proceed(
            state.push_frame(Frame::Unary(operator)).push_frame(Frame::Evaluate(&**right)),
        ),
        Expr::Binary { left, operator, right } => proceed(
            state.push_frame(Frame::Binary(operator)).push_frame(Frame::Evaluate(&**right)).push_frame(
                Frame::Evaluate(&**left),
            ),
        ),
        Expr::Logical { left, right, operator } => proceed(
            state.push_frame(Frame::Logical { operator, right: &**right }).push_frame(
                Frame::Evaluate(&**left),
            ),
        ),
        Expr::Variable { name } => match state.variable(name.lexeme@) {
            Some(value) => proceed(state.push_value(value)),
            None => fail(
                state,
                RuntimeErrorView::UndefinedVariable { name: name.lexeme@, line: name.line },
            ),
        },
        Expr::Assign { name, value } => proceed(
            state.push_frame(Frame::Assign(name)).push_frame(Frame::Evaluate(&**value)),
        ),
        Expr::Call { callee, paren, arguments } => proceed(
            State {
                frames: state.frames.push(Frame::Call { paren, count: arguments@.len() as usize })
                    + argument_frames(arguments),
                ..state
            }.push_frame(Frame::Evaluate(&**callee)),
        ),
    }
}

/// Dropping the value of an expression statement.
pub open spec fn discard<'a>(state: State<'a>) -> Transition<'a> {
    if state.values.len() == 0 {
        fail(state, RuntimeErrorView::Stuck)
    } else {
        proceed(state.pop_value())
    }
}

/// Printing the topmost value.
pub open spec fn print<'a>(state: State<'a>) -> Transition<'a> {
    if state.values.len() == 0 {
        fail(state, RuntimeErrorView::Stuck)
    } else {
        match state.values.last() {
            ValueView::Number(bits) => Transition {
                state: state.pop_value(),
                step: StepView::PrintNumber(bits),
            },
            other => Transition { state: state.pop_value(), step: StepView::Print(text_of(other)->Some_0) },
        }
    }
}

/// Defining `name` in the current scope with the topmost value.
pub open spec fn define<'a>(state: State<'a>, name: &'a Token) -> Transition<'a> {
    if state.values.len() == 0 {
        fail(state, RuntimeErrorView::Stuck)
    } else {
        proceed(state.pop_value().define(name.lexeme@, state.values.last()))
    }
}

/// Choosing the branch of an `if`.
pub open spec fn branch<'a>(
    state: State<'a>,
    then_branch: &'a Stmt,
    else_branch: &'a Option<Stmt>,
) -> Transition<'a> {
    if state.values.len() == 0 {
        fail(state, RuntimeErrorView::Stuck)
    } else if truthy(state.values.last()) {
        proceed(state.pop_value().push_frame(Frame::Execute(then_branch)))
    } else {
        match else_branch {
            Some(stmt) => proceed(state.pop_value().push_frame(Frame::Execute(stmt))),
            None => proceed(state.pop_value()),
        }
    }
}

/// One round of a `while`: by the value of the condition, run the body and
/// test again, or leave.
pub open spec fn repeat<'a>(state: State<'a>, condition: &'a Expr, body: &'a Stmt) -> Transition<'a> {
    if state.values.len() == 0 {
        fail(state, RuntimeErrorView::Stuck)
    } else if truthy(state.values.last()) {
        proceed(
            state.pop_value().push_frame(Frame::Loop { condition, body }).push_frame(
                Frame::Evaluate(condition),
            ).push_frame(Frame::Execute(body)),
        )
    } else {
        proceed(state.pop_value())
    }
}

/// Returning the topmost value from the innermost call: every frame above
/// that call's frame is dropped with it, the caller's scope is current
/// again, and the value stays on top as the value of the call. Outside
/// every call a `return` is an error.
pub open spec fn leave<'a>(state: State<'a>) -> Transition<'a> {
    if state.values.len() == 0 {
        fail(state, RuntimeErrorView::Stuck)
    } else {
        match unwind(state.frames) {
            Some((frames, caller)) => if caller < state.scopes.len() {
                proceed(State { frames, current: caller, ..state })
            } else {
                fail(state, RuntimeErrorView::Stuck)
            },
            None => fail(state, RuntimeErrorView::ReturnOutsideFunction),
        }
    }
}

/// Leaving a block.
pub open spec fn leave_block<'a>(state: State<'a>, enclosing: usize) -> Transition<'a> {
    if enclosing < state.scopes.len() {
        proceed(State { current: enclosing, ..state })
    } else {
        fail(state, RuntimeErrorView::Stuck)
    }
}

/// Reaching the end of a function's body: the call's value is `nil`.
pub open spec fn leave_call<'a>(state: State<'a>, caller: usize) -> Transition<'a> {
    if caller < state.scopes.len() {
        proceed(State { current: caller, ..state }.push_value(ValueView::Null))
    } else {
        fail(state, RuntimeErrorView::Stuck)
    }
}

/// Applying a unary operator: `!` negates the truthiness of any value, `-`
/// wants a number.
pub open spec fn unary<'a>(state: State<'a>, operator: &'a Token) -> Transition<'a> {
    if state.values.len() == 0 {
        fail(state, RuntimeErrorView::Stuck)
    } else {
        let operand = state.values.last();
        let rest = state.pop_value();
        match operator.token_type {
            TokenType::Bang => proceed(rest.push_value(ValueView::Boolean(!truthy(operand)))),
            TokenType::Minus => match operand {
                ValueView::Number(bits) => proceed(rest.push_value(ValueView::Number(negate_spec(bits)))),
                _ => fail(rest, RuntimeErrorView::OperandMustBeNumber { line: operator.line }),
            },
            _ => fail(rest, RuntimeErrorView::InvalidOperator { line: operator.line }),
        }
    }
}

/// Asking the host for `left operator right`; both operands must be numbers.
pub open spec fn arithmetic<'a>(
    state: State<'a>,
    operator: ArithmeticOperator,
    left: ValueView<'a>,
    right: ValueView<'a>,
    line: usize,
) -> Transition<'a> {
    match (left, right) {
        (ValueView::Number(l), ValueView::Number(r)) => Transition {
            state,
            step: StepView::Arithmetic { operator, left: l, right: r },
        },
        _ => fail(state, RuntimeErrorView::OperandsMustBeNumbers { line }),
    }
}

/// Whether the comparison `kind` holds between two numbers.
pub open spec fn comparison_holds(kind: TokenType, left: u64, right: u64) -> bool {
    match kind {
        TokenType::Greater => less_spec(right, left),
        TokenType::GreaterEqual => less_equal_spec(right, left),
        TokenType::Less => less_spec(left, right),
        _ => less_equal_spec(left, right),
    }
}

/// Comparing two values with `< <= > >=`; both must be numbers.
pub open spec fn comparison<'a>(
    state: State<'a>,
    kind: TokenType,
    left: ValueView<'a>,
    right: ValueView<'a>,
    line: usize,
) -> Transition<'a> {
    match (left, right) {
        (ValueView::Number(l), ValueView::Number(r)) => proceed(
            state.push_value(ValueView::Boolean(comparison_holds(kind, l, r))),
        ),
        _ => fail(state, RuntimeErrorView::OperandsMustBeNumbers { line }),
    }
}

/// Applying `+`: two numbers are added by the host, two strings are
/// concatenated here.
pub open spec fn plus<'a>(
    state: State<'a>,
    left: ValueView<'a>,
    right: ValueView<'a>,
    line: usize,
) -> Transition<'a> {
    match (left, right) {
        (ValueView::Number(l), ValueView::Number(r)) => Transition {
            state,
            step: StepView::Arithmetic { operator: ArithmeticOperator::Add, left: l, right: r },
        },
        (ValueView::String(l), ValueView::String(r)) => proceed(
            state.push_value(ValueView::String(l + r)),
        ),
        _ => fail(state, RuntimeErrorView::OperandsMustBeNumbersOrStrings { line }),
    }
}

/// Applying a binary operator to the two topmost values; the right operand
/// is the topmost.
pub open spec fn binary<'a>(state: State<'a>, operator: &'a Token) -> Transition<'a> {
    if state.values.len() < 2 {
        fail(state, RuntimeErrorView::Stuck)
    } else {
        let left = state.values[state.values.len() - 2];
        let right = state.values[state.values.len() - 1];
        let rest = state.drop_values(2);
        let line = operator.line;
        match operator.token_type {
            TokenType::Minus => arithmetic(rest, ArithmeticOperator::Subtract, left, right, line),
            TokenType::Slash => arithmetic(rest, ArithmeticOperator::Divide, left, right, line),
            TokenType::Star => arithmetic(rest, ArithmeticOperator::Multiply, left, right, line),
            TokenType::Plus => plus(rest, left, right, line),
            TokenType::Greater => comparison(rest, TokenType::Greater, left, right, line),
            TokenType::GreaterEqual => comparison(rest, TokenType::GreaterEqual, left, right, line),
            TokenType::Less => comparison(rest, TokenType::Less, left, right, line),
            TokenType::LessEqual => comparison(rest, TokenType::LessEqual, left, right, line),
            TokenType::BangEqual => proceed(
                rest.push_value(ValueView::Boolean(!values_equal(left, right))),
            ),
            TokenType::EqualEqual => proceed(
                rest.push_value(ValueView::Boolean(values_equal(left, right))),
            ),
            _ => fail(rest, RuntimeErrorView::InvalidOperator { line }),
        }
    }
}

/// Whether the left operand of `and` / `or` decides the result, so that the
/// right operand is not evaluated: a truthy one decides `or`, a falsy one
/// decides `and`.
pub open spec fn short_circuits(operator: TokenType, left: ValueView) -> bool {
    if operator == TokenType::Or {
        truthy(left)
    } else {
        !truthy(left)
    }
}

/// Deciding `and` / `or` by the left operand, which is the topmost value:
/// either it stays as the result, or it is dropped and the right operand is
/// evaluated in its place.
pub open spec fn logical<'a>(state: State<'a>, operator: &'a Token, right: &'a Expr) -> Transition<'a> {
    if state.values.len() == 0 {
        fail(state, RuntimeErrorView::Stuck)
    } else if short_circuits(operator.token_type, state.values.last()) {
        proceed(state)
    } else {
        proceed(state.pop_value().push_frame(Frame::Evaluate(right)))
    }
}

/// Assigning the topmost value to the variable `name`, in the scope that
/// holds it; the value stays on top as the value of the assignment.
pub open spec fn assign<'a>(state: State<'a>, name: &'a Token) -> Transition<'a> {
    if state.values.len() == 0 {
        fail(state, RuntimeErrorView::Stuck)
    } else {
        match state.holder(name.lexeme@) {
            Some(scope) => proceed(
                State { scopes: bind(state.scopes, scope, name.lexeme@, state.values.last()), ..state },
            ),
            None => fail(
                state.pop_value(),
                RuntimeErrorView::UndefinedVariable { name: name.lexeme@, line: name.line },
            ),
        }
    }
}

/// Calling a function of the program: a fresh scope inside the scope that
/// the function captured holds the parameters, the body runs in it, and the
/// call frame below the body remembers the caller's scope.
pub open spec fn invoke<'a>(
    state: State<'a>,
    function: LoxFunction<'a>,
    arguments: Seq<ValueView<'a>>,
) -> Transition<'a> {
    if function.closure < state.scopes.len() {
        let entered = state.enter(function.closure);
        proceed(
            State {
                scopes: bind_parameters(
                    entered.scopes,
                    entered.current as int,
                    function.params@,
                    arguments,
                    function.params@.len(),
                ),
                ..entered
            }.push_frame(Frame::LeaveCall { caller: state.current }).push_frame(
                Frame::Sequence { statements: function.body, next: 0 },
            ),
        )
    } else {
        fail(state, RuntimeErrorView::Stuck)
    }
}

/// Making a call: the `count` topmost values are the arguments, in order,
/// and the callee lies below them. The callee must be callable and its
/// arity must be `count`.
pub open spec fn call<'a>(state: State<'a>, paren: &'a Token, count: usize) -> Transition<'a> {
    if state.values.len() <= count {
        fail(state, RuntimeErrorView::Stuck)
    } else {
        let callee = state.values[state.values.len() - count - 1];
        let arguments = state.values.subrange(state.values.len() - count, state.values.len() as int);
        let rest = state.drop_values(count + 1);
        match callee {
            ValueView::Callable(callable) => if callable.arity_spec() != count {
                fail(
                    rest,
                    RuntimeErrorView::ArityMismatch {
                        expected: callable.arity_spec() as usize,
                        found: count,
                        line: paren.line,
                    },
                )
            } else {
                match callable {
                    LoxCallable::Native(_) => Transition { state: rest, step: StepView::Clock },
                    LoxCallable::Function(function) => invoke(rest, function, arguments),
                }
            },
            _ => fail(rest, RuntimeErrorView::NotCallable { line: paren.line }),
        }
    }
}

/// One step of the machine: the topmost frame is taken and acted upon. With
/// no frame left the program has finished.
pub open spec fn step<'a>(state: State<'a>) -> Transition<'a> {
    if state.frames.len() == 0 {
        Transition { state, step: StepView::Finished }
    } else {
        let rest = state.pop_frame();
        match state.frames.last() {
            Frame::Sequence { statements, next } => sequence(rest, statements, next),
            Frame::Execute(stmt) => execute(rest, stmt),
            Frame::Evaluate(expr) => evaluate(rest, expr),
            Frame::Discard => discard(rest),
            Frame::Print => print(rest),
            Frame::Define(name) => define(rest, name),
            Frame::Branch { then_branch, else_branch } => branch(rest, then_branch, else_branch),
            Frame::Loop { condition, body } => repeat(rest, condition, body),
            Frame::Return => leave(rest),
            Frame::LeaveBlock { enclosing } => leave_block(rest, enclosing),
            Frame::LeaveCall { caller } => leave_call(rest, caller),
            Frame::Unary(operator) => unary(rest, operator),
            Frame::Binary(operator) => binary(rest, operator),
            Frame::Logical { operator, right } => logical(rest, operator, right),
            Frame::Assign(name) => assign(rest, name),
            Frame::Call { paren, count } => call(rest, paren, count),
        }
    }
}

/// Up to `limit` steps: the machine goes on while a step asks nothing of the
/// host. The result is the first step that does, or `Continue` when the
/// limit was reached before.
pub open spec fn run<'a>(state: State<'a>, limit: nat) -> Transition<'a>
    decreases limit,
{
    if limit == 0 {
        proceed(state)
    } else {
        let transition = step(state);
        if transition.step is Continue {
            run(transition.state, (limit - 1) as nat)
        } else {
            transition
        }
    }
}

} // verus!
