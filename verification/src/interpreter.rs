//! The interpreter: the state of the machine in memory, and the code that
//! takes its steps.

use vstd::prelude::*;
use crate::environment::Environment;
use crate::expr::Expr;
use crate::lox_callable::LoxCallable;
use crate::lox_function::LoxFunction;
use crate::machine::{
    argument_frames, arithmetic, assign, binary, bind_parameters, block, branch, call, comparison,
    evaluate, execute, invoke, leave, leave_block, leave_call, logical, plus, print, repeat, run,
    sequence, step, text_of, truthy, unary, unwind, values_equal, Frame, State, Step, StepView,
    Transition,
};
use crate::native_functions::Clock;
use crate::number::{equals, greater, greater_equal, less, less_equal, negate, ArithmeticOperator};
use crate::object::Object;
use crate::runtime_error::RuntimeError;
use crate::safety::{
    awaits_number, consistent, consistent_states_are_safe, drift, initial_state_is_consistent,
    balance_of_a_pushed_frame, safe,
};
use crate::stmt::Stmt;
use crate::token::Token;
use crate::token_type::TokenType;
use crate::value::{value_views, Value, ValueView};
use crate::environment::{chain_ordered, ScopeView};

verus! {

/// The tree-walking interpreter, as a machine that the host drives: the host
/// calls [`Interpreter::step`] (or [`Interpreter::interpret`]) again and
/// again, writes what a step asks it to print, and supplies the numbers that
/// only floating-point hardware or the clock can give.
pub struct Interpreter<'a> {
    program: &'a Vec<Stmt>,
    environment: Environment<'a>,
    current: usize,
    globals: usize,
    frames: Vec<Frame<'a>>,
    values: Vec<Value<'a>>,
}

impl<'a> View for Interpreter<'a> {
    type V = State<'a>;

    closed spec fn view(&self) -> State<'a> {
        State {
            frames: self.frames@,
            values: value_views(self.values@),
            scopes: self.environment@,
            current: self.current,
            globals: self.globals,
        }
    }
}

impl<'a> Interpreter<'a> {
    /// The representation is sound, and so is the state it stands for.
    pub closed spec fn well_formed(&self) -> bool {
        &&& self.environment.well_formed()
        &&& self@.well_formed()
    }

    /// The program that this interpreter runs.
    pub closed spec fn program(&self) -> &'a Vec<Stmt> {
        self.program
    }

    /// The state in which a program starts: its statements are to be run in
    /// the global scope, which holds `clock` and nothing else.
    pub open spec fn initial(program: &'a Vec<Stmt>) -> State<'a> {
        State {
            frames: seq![Frame::Sequence { statements: program, next: 0 }],
            values: Seq::empty(),
            scopes: seq![
                ScopeView {
                    values: Map::empty().insert(
                        "clock"@,
                        ValueView::Callable(LoxCallable::Native(Clock)),
                    ),
                    enclosing: None,
                },
            ],
            current: 0,
            globals: 0,
        }
    }

    pub fn new(program: &'a Vec<Stmt>) -> (interpreter: Self)
        ensures
            interpreter.well_formed(),
            interpreter.program() == program,
            interpreter@ == Self::initial(program),
            consistent(interpreter@),
    {
        proof {
            initial_state_is_consistent(program);
        }
        let mut environment = Environment::new();
        environment.define(
            0,
            String::from_str("clock"),
            Value::Callable(LoxCallable::Native(Clock::new())),
        );
        let mut frames: Vec<Frame<'a>> = Vec::new();
        frames.push(Frame::Sequence { statements: program, next: 0 });
        let interpreter = Interpreter {
            program,
            environment,
            current: 0,
            globals: 0,
            frames,
            values: Vec::new(),
        };
        proof {
            assert(interpreter@.frames =~= Self::initial(program).frames);
            assert(interpreter@.values =~= Self::initial(program).values);
            assert(interpreter@.scopes =~= Self::initial(program).scopes);
        }
        interpreter
    }

    pub fn is_truthy(object: &Value<'a>) -> (truth: bool)
        ensures
            truth == truthy(object@),
    {
        match object {
            Value::Null => false,
            Value::Boolean(b) => *b,
            _ => true,
        }
    }

    /// The operand as a number, or `None` where it is none.
    pub fn check_number_operand(operand: &Value<'a>) -> (number: Option<u64>)
        ensures
            number == (match operand@ {
                ValueView::Number(bits) => Some(bits),
                _ => None,
            }),
    {
        match operand {
            Value::Number(bits) => Some(*bits),
            _ => None,
        }
    }

    /// The two operands as numbers, or `None` where one of them is none.
    pub fn check_number_operands(left: &Value<'a>, right: &Value<'a>) -> (numbers: Option<(u64, u64)>)
        ensures
            numbers == (match (left@, right@) {
                (ValueView::Number(l), ValueView::Number(r)) => Some((l, r)),
                _ => None,
            }),
    {
        match (left, right) {
            (Value::Number(l), Value::Number(r)) => Some((*l, *r)),
            _ => None,
        }
    }

    pub fn is_equal(left: &Value<'a>, right: &Value<'a>) -> (equal: bool)
        ensures
            equal == values_equal(left@, right@),
    {
        match (left, right) {
            (Value::Null, Value::Null) => true,
            (Value::Number(l), Value::Number(r)) => equals(*l, *r),
            (Value::String(l), Value::String(r)) => *l == *r,
            _ => false,
        }
    }

    /// The text that `print` writes for `value`; `None` for a number.
    pub fn stringify(value: &Value<'a>) -> (text: Option<String>)
        ensures
            match text_of(value@) {
                Some(expected) => text is Some && text->Some_0@ == expected,
                None => text is None,
            },
    {
        match value {
            Value::Null => Some(String::from_str("nil")),
            Value::Boolean(b) => Some(
                if *b {
                    String::from_str("true")
                } else {
                    String::from_str("false")
                },
            ),
            Value::Number(_) => None,
            Value::String(text) => Some(text.clone()),
            Value::Callable(callable) => {
                let mut text = String::from_str("<fn ");
                let name = callable.name();
                text.append(name.as_str());
                text.append(">");
                Some(text)
            },
        }
    }

    fn push_frame(&mut self, frame: Frame<'a>)
        requires
            old(self).well_formed(),
        ensures
            final(self).well_formed(),
            final(self)@ == old(self)@.push_frame(frame),
    {
        self.frames.push(frame);
    }

    fn push_value(&mut self, value: Value<'a>)
        requires
            old(self).well_formed(),
        ensures
            final(self).well_formed(),
            final(self)@ == old(self)@.push_value(value@),
    {
        self.values.push(value);
        assert(self@.values =~= old(self)@.values.push(value@));
    }

    fn pop_value(&mut self) -> (value: Option<Value<'a>>)
        requires
            old(self).well_formed(),
        ensures
            final(self).well_formed(),
            match value {
                Some(v) => {
                    &&& old(self)@.values.len() > 0
                    &&& v@ == old(self)@.values.last()
                    &&& final(self)@ == old(self)@.pop_value()
                },
                None => old(self)@.values.len() == 0 && final(self)@ == old(self)@,
            },
    {
        let value = self.values.pop();
        assert(self@.values =~= if value is Some {
            old(self)@.values.drop_last()
        } else {
            old(self)@.values
        });
        value
    }

    /// Stops the program: nothing remains to be run.
    fn halt(&mut self, error: RuntimeError) -> (outcome: Step)
        requires
            old(self).well_formed(),
        ensures
            final(self).well_formed(),
            final(self)@ == old(self)@.halt(),
            outcome@ == StepView::Failed(error@),
    {
        self.frames.clear();
        self.values.clear();
        assert(self@.values =~= Seq::empty());
        Step::Failed(error)
    }

    /// Schedules `statements` to run in the scope `scope`; when they have
    /// run, the scope that is current now is current again. Between two
    /// statements, and before the first and after the last one, this keeps a
    /// consistent state consistent.
    pub fn execute_block(&mut self, statements: &'a Vec<Stmt>, scope: usize)
        requires
            old(self).well_formed(),
            scope < old(self)@.scopes.len(),
        ensures
            final(self).well_formed(),
            final(self)@ == block(old(self)@, statements, scope),
            consistent(old(self)@) && drift(old(self)@.frames) == 0 ==> consistent(final(self)@),
    {
        proof {
            let count = self@.scopes.len() as int;
            let height = self@.values.len() as int;
            let first = Frame::LeaveBlock { enclosing: self.current };
            let second = Frame::Sequence { statements, next: 0 };
            balance_of_a_pushed_frame(self@.frames, first, height, count);
            balance_of_a_pushed_frame(self@.frames.push(first), second, height, count);
        }
        self.frames.push(Frame::LeaveBlock { enclosing: self.current });
        self.frames.push(Frame::Sequence { statements, next: 0 });
        self.current = scope;
    }

    fn sequence(&mut self, statements: &'a Vec<Stmt>, next: usize) -> (outcome: Step)
        requires
            old(self).well_formed(),
        ensures
            final(self).well_formed(),
            (Transition { state: final(self)@, step: outcome@ }) == sequence(old(self)@, statements, next),
    {
        if next < statements.len() {
            self.push_frame(Frame::Sequence { statements, next: next + 1 });
            self.push_frame(Frame::Execute(&statements[next]));
        }
        Step::Continue
    }

    fn execute(&mut self, stmt: &'a Stmt) -> (outcome: Step)
        requires
            old(self).well_formed(),
        ensures
            final(self).well_formed(),
            (Transition { state: final(self)@, step: outcome@ }) == execute(old(self)@, stmt),
    {
        match stmt {
            Stmt::Expression { expr } => {
                self.push_frame(Frame::Discard);
                self.push_frame(Frame::Evaluate(&**expr));
            },
            Stmt::Print { expr } => {
                self.push_frame(Frame::Print);
                self.push_frame(Frame::Evaluate(&**expr));
            },
            Stmt::Var { name, initializer } => {
                match initializer {
                    Some(expr) => {
                        self.push_frame(Frame::Define(name));
                        self.push_frame(Frame::Evaluate(expr));
                    },
                    None => {
                        self.environment.define(self.current, name.lexeme.clone(), Value::Null);
                    },
                }
            },
            Stmt::Block { statements } => {
                let scope = self.environment.enclose(self.current);
                self.execute_block(statements, scope);
            },
            Stmt::If { condition, then_branch, else_branch } => {
                self.push_frame(
                    Frame::Branch { then_branch: &**then_branch, else_branch: &**else_branch },
                );
                self.push_frame(Frame::Evaluate(&**condition));
            },
            Stmt::While { condition, body } => {
                self.push_frame(Frame::Loop { condition: &**condition, body: &**body });
                self.push_frame(Frame::Evaluate(&**condition));
            },
            Stmt::Function { name, params, body } => {
                let function = LoxFunction::new(name, params, body, self.current);
                self.environment.define(
                    self.current,
                    name.lexeme.clone(),
                    Value::Callable(LoxCallable::Function(function)),
                );
            },
            Stmt::Return { keyword, value } => {
                self.push_frame(Frame::Return);
                match &**value {
                    Some(expr) => {
                        self.push_frame(Frame::Evaluate(expr));
                    },
                    None => {
                        self.push_value(Value::Null);
                    },
                }
            },
        }
        Step::Continue
    }

    /// Reads a variable: from the current scope outwards, and failing that
    /// from the global scope.
    fn look_up(&self, name: &Token) -> (value: Option<Value<'a>>)
        requires
            self.well_formed(),
        ensures
            match self@.variable(name.lexeme@) {
                Some(expected) => value is Some && value->Some_0@ == expected,
                None => value is None,
            },
    {
        match self.environment.get(self.current, name) {
            Some(value) => Some(value.clone()),
            None => match self.environment.get(self.globals, name) {
                Some(value) => Some(value.clone()),
                None => None,
            },
        }
    }

    fn evaluate(&mut self, expr: &'a Expr) -> (outcome: Step)
        requires
            old(self).well_formed(),
        ensures
            final(self).well_formed(),
            (Transition { state: final(self)@, step: outcome@ }) == evaluate(old(self)@, expr),
    {
        match expr {
            Expr::Literal { value } => {
                match value {
                    Object::String(text) => {
                        self.push_value(Value::String(text.clone()));
                    },
                    Object::Number(numeral) => {
                        return Step::ParseNumber(numeral.clone());
                    },
                    Object::Boolean(b) => {
                        self.push_value(Value::Boolean(*b));
                    },
                    Object::Null => {
                        self.push_value(Value::Null);
                    },
                }
            },
            Expr::Grouping { expr } => {
                self.push_frame(Frame::Evaluate(&**expr));
            },
            Expr::Unary { right, operator } => {
                self.push_frame(Frame::Unary(operator));
                self.push_frame(Frame::Evaluate(&**right));
            },
            Expr::Binary { left, operator, right } => {
                self.push_frame(Frame::Binary(operator));
                self.push_frame(Frame::Evaluate(&**right));
                self.push_frame(Frame::Evaluate(&**left));
            },
            Expr::Logical { left, right, operator } => {
                self.push_frame(Frame::Logical { operator, right: &**right });
                self.push_frame(Frame::Evaluate(&**left));
            },
            Expr::Variable { name } => {
                match self.look_up(name) {
                    Some(value) => {
                        self.push_value(value);
                    },
                    None => {
                        return self.halt(
                            RuntimeError::UndefinedVariable {
                                name: name.lexeme.clone(),
                                line: name.line,
                            },
                        );
                    },
                }
            },
            Expr::Assign { name, value } => {
                self.push_frame(Frame::Assign(name));
                self.push_frame(Frame::Evaluate(&**value));
            },
            Expr::Call { callee, paren, arguments } => {
                self.push_frame(Frame::Call { paren, count: arguments.len() });
                let ghost base = self@;
                let mut i: usize = arguments.len();
                while i > 0
                    invariant
                        i <= arguments@.len(),
                        self.well_formed(),
                        self@ == (State {
                            frames: base.frames + argument_frames(arguments).subrange(
                                0,
                                arguments@.len() - i,
                            ),
                            ..base
                        }),
                    decreases i,
                {
                    i = i - 1;
                    let ghost before = self@;
                    self.push_frame(Frame::Evaluate(&arguments[i]));
                    assert(self@.frames =~= base.frames + argument_frames(arguments).subrange(
                        0,
                        arguments@.len() - i,
                    ));
                }
                assert(argument_frames(arguments).subrange(0, arguments@.len() as int)
                    =~= argument_frames(arguments));
                self.push_frame(Frame::Evaluate(&**callee));
            },
        }
        Step::Continue
    }

    fn print(&mut self) -> (outcome: Step)
        requires
            old(self).well_formed(),
        ensures
            final(self).well_formed(),
            (Transition { state: final(self)@, step: outcome@ }) == print(old(self)@),
    {
        match self.pop_value() {
            None => self.halt(RuntimeError::Stuck),
            Some(value) => {
                match value {
                    Value::Number(bits) => Step::PrintNumber(bits),
                    other => {
                        let text = Self::stringify(&other);
                        Step::Print(text.unwrap())
                    },
                }
            },
        }
    }

    fn branch(&mut self, then_branch: &'a Stmt, else_branch: &'a Option<Stmt>) -> (outcome: Step)
        requires
            old(self).well_formed(),
        ensures
            final(self).well_formed(),
            (Transition { state: final(self)@, step: outcome@ }) == branch(
                old(self)@,
                then_branch,
                else_branch,
            ),
    {
        match self.pop_value() {
            None => self.halt(RuntimeError::Stuck),
            Some(value) => {
                if Self::is_truthy(&value) {
                    self.push_frame(Frame::Execute(then_branch));
                } else {
                    match else_branch {
                        Some(stmt) => {
                            self.push_frame(Frame::Execute(stmt));
                        },
                        None => {},
                    }
                }
                Step::Continue
            },
        }
    }

    fn repeat(&mut self, condition: &'a Expr, body: &'a Stmt) -> (outcome: Step)
        requires
            old(self).well_formed(),
        ensures
            final(self).well_formed(),
            (Transition { state: final(self)@, step: outcome@ }) == repeat(old(self)@, condition, body),
    {
        match self.pop_value() {
            None => self.halt(RuntimeError::Stuck),
            Some(value) => {
                if Self::is_truthy(&value) {
                    self.push_frame(Frame::Loop { condition, body });
                    self.push_frame(Frame::Evaluate(condition));
                    self.push_frame(Frame::Execute(body));
                }
                Step::Continue
            },
        }
    }

    fn leave(&mut self) -> (outcome: Step)
        requires
            old(self).well_formed(),
        ensures
            final(self).well_formed(),
            (Transition { state: final(self)@, step: outcome@ }) == leave(old(self)@),
    {
        if self.values.len() == 0 {
            return self.halt(RuntimeError::Stuck);
        }
        loop
            invariant
                self.well_formed(),
                unwind(self@.frames) == unwind(old(self)@.frames),
                self@ == (State { frames: self@.frames, ..old(self)@ }),
                self@.values.len() > 0,
            decreases self@.frames.len(),
        {
            match self.frames.pop() {
                None => {
                    return self.halt(RuntimeError::ReturnOutsideFunction);
                },
                Some(Frame::LeaveCall { caller }) => {
                    if caller < self.environment.len() {
                        self.current = caller;
                        return Step::Continue;
                    } else {
                        return self.halt(RuntimeError::Stuck);
                    }
                },
                Some(_) => {},
            }
        }
    }

    fn leave_block(&mut self, enclosing: usize) -> (outcome: Step)
        requires
            old(self).well_formed(),
        ensures
            final(self).well_formed(),
            (Transition { state: final(self)@, step: outcome@ }) == leave_block(old(self)@, enclosing),
    {
        if enclosing < self.environment.len() {
            self.current = enclosing;
            Step::Continue
        } else {
            self.halt(RuntimeError::Stuck)
        }
    }

    fn leave_call(&mut self, caller: usize) -> (outcome: Step)
        requires
            old(self).well_formed(),
        ensures
            final(self).well_formed(),
            (Transition { state: final(self)@, step: outcome@ }) == leave_call(old(self)@, caller),
    {
        if caller < self.environment.len() {
            self.current = caller;
            self.push_value(Value::Null);
            Step::Continue
        } else {
            self.halt(RuntimeError::Stuck)
        }
    }

    fn unary(&mut self, operator: &'a Token) -> (outcome: Step)
        requires
            old(self).well_formed(),
        ensures
            final(self).well_formed(),
            (Transition { state: final(self)@, step: outcome@ }) == unary(old(self)@, operator),
    {
        match self.pop_value() {
            None => self.halt(RuntimeError::Stuck),
            Some(operand) => {
                match operator.token_type {
                    TokenType::Bang => {
                        self.push_value(Value::Boolean(!Self::is_truthy(&operand)));
                        Step::Continue
                    },
                    TokenType::Minus => {
                        match Self::check_number_operand(&operand) {
                            Some(bits) => {
                                self.push_value(Value::Number(negate(bits)));
                                Step::Continue
                            },
                            None => self.halt(
                                RuntimeError::OperandMustBeNumber { line: operator.line },
                            ),
                        }
                    },
                    _ => self.halt(RuntimeError::InvalidOperator { line: operator.line }),
                }
            },
        }
    }

    fn arithmetic(
        &mut self,
        operator: ArithmeticOperator,
        left: &Value<'a>,
        right: &Value<'a>,
        line: usize,
    ) -> (outcome: Step)
        requires
            old(self).well_formed(),
        ensures
            final(self).well_formed(),
            (Transition { state: final(self)@, step: outcome@ }) == arithmetic(
                old(self)@,
                operator,
                left@,
                right@,
                line,
            ),
    {
        match Self::check_number_operands(left, right) {
            Some((l, r)) => Step::Arithmetic { operator, left: l, right: r },
            None => self.halt(RuntimeError::OperandsMustBeNumbers { line }),
        }
    }

    fn comparison(&mut self, kind: TokenType, left: &Value<'a>, right: &Value<'a>, line: usize) -> (outcome:
        Step)
        requires
            old(self).well_formed(),
        ensures
            final(self).well_formed(),
            (Transition { state: final(self)@, step: outcome@ }) == comparison(
                old(self)@,
                kind,
                left@,
                right@,
                line,
            ),
    {
        match Self::check_number_operands(left, right) {
            Some((l, r)) => {
                let holds = match kind {
                    TokenType::Greater => greater(l, r),
                    TokenType::GreaterEqual => greater_equal(l, r),
                    TokenType::Less => less(l, r),
                    _ => less_equal(l, r),
                };
                self.push_value(Value::Boolean(holds));
                Step::Continue
            },
            None => self.halt(RuntimeError::OperandsMustBeNumbers { line }),
        }
    }

    fn plus(&mut self, left: Value<'a>, right: Value<'a>, line: usize) -> (outcome: Step)
        requires
            old(self).well_formed(),
        ensures
            final(self).well_formed(),
            (Transition { state: final(self)@, step: outcome@ }) == plus(old(self)@, left@, right@, line),
    {
        match (left, right) {
            (Value::Number(l), Value::Number(r)) => Step::Arithmetic {
                operator: ArithmeticOperator::Add,
                left: l,
                right: r,
            },
            (Value::String(l), Value::String(r)) => {
                self.push_value(Value::String(l.concat(r.as_str())));
                Step::Continue
            },
            _ => self.halt(RuntimeError::OperandsMustBeNumbersOrStrings { line }),
        }
    }

    fn binary(&mut self, operator: &'a Token) -> (outcome: Step)
        requires
            old(self).well_formed(),
        ensures
            final(self).well_formed(),
            (Transition { state: final(self)@, step: outcome@ }) == binary(old(self)@, operator),
    {
        if self.values.len() < 2 {
            return self.halt(RuntimeError::Stuck);
        }
        let right = self.pop_value().unwrap();
        let left = self.pop_value().unwrap();
        assert(self@.values =~= old(self)@.drop_values(2).values);
        let line = operator.line;
        match operator.token_type {
            TokenType::Minus => self.arithmetic(ArithmeticOperator::Subtract, &left, &right, line),
            TokenType::Slash => self.arithmetic(ArithmeticOperator::Divide, &left, &right, line),
            TokenType::Star => self.arithmetic(ArithmeticOperator::Multiply, &left, &right, line),
            TokenType::Plus => self.plus(left, right, line),
            TokenType::Greater => self.comparison(TokenType::Greater, &left, &right, line),
            TokenType::GreaterEqual => self.comparison(TokenType::GreaterEqual, &left, &right, line),
            TokenType::Less => self.comparison(TokenType::Less, &left, &right, line),
            TokenType::LessEqual => self.comparison(TokenType::LessEqual, &left, &right, line),
            TokenType::BangEqual => {
                self.push_value(Value::Boolean(!Self::is_equal(&left, &right)));
                Step::Continue
            },
            TokenType::EqualEqual => {
                self.push_value(Value::Boolean(Self::is_equal(&left, &right)));
                Step::Continue
            },
            _ => self.halt(RuntimeError::InvalidOperator { line }),
        }
    }

    fn logical(&mut self, operator: &'a Token, right: &'a Expr) -> (outcome: Step)
        requires
            old(self).well_formed(),
        ensures
            final(self).well_formed(),
            (Transition { state: final(self)@, step: outcome@ }) == logical(old(self)@, operator, right),
    {
        match self.pop_value() {
            None => self.halt(RuntimeError::Stuck),
            Some(left) => {
                let truth = Self::is_truthy(&left);
                let decided = if operator.token_type == TokenType::Or {
                    truth
                } else {
                    !truth
                };
                if decided {
                    self.push_value(left);
                    assert(self@.values =~= old(self)@.values);
                } else {
                    self.push_frame(Frame::Evaluate(right));
                }
                Step::Continue
            },
        }
    }

    fn assign(&mut self, name: &'a Token) -> (outcome: Step)
        requires
            old(self).well_formed(),
        ensures
            final(self).well_formed(),
            (Transition { state: final(self)@, step: outcome@ }) == assign(old(self)@, name),
    {
        match self.pop_value() {
            None => self.halt(RuntimeError::Stuck),
            Some(value) => {
                let stored = match self.environment.assign(self.current, name, value.clone()) {
                    Ok(()) => Ok(()),
                    Err(_) => self.environment.assign(self.globals, name, value.clone()),
                };
                proof {
                    self.environment.well_formed_is_ordered();
                }
                match stored {
                    Ok(()) => {
                        self.push_value(value);
                        assert(self@.values =~= old(self)@.values);
                        Step::Continue
                    },
                    Err(error) => self.halt(error),
                }
            },
        }
    }

    fn invoke(&mut self, function: LoxFunction<'a>, arguments: Vec<Value<'a>>) -> (outcome: Step)
        requires
            old(self).well_formed(),
            arguments@.len() == function.params@.len(),
        ensures
            final(self).well_formed(),
            (Transition { state: final(self)@, step: outcome@ }) == invoke(
                old(self)@,
                function,
                value_views(arguments@),
            ),
    {
        if function.closure >= self.environment.len() {
            return self.halt(RuntimeError::Stuck);
        }
        let caller = self.current;
        let scope = self.environment.enclose(function.closure);
        let ghost entered = self.environment@;
        let mut i: usize = 0;
        while i < function.params.len()
            invariant
                i <= function.params@.len(),
                arguments@.len() == function.params@.len(),
                self.environment.well_formed(),
                scope < self.environment@.len(),
                self.environment@.len() == entered.len(),
                chain_ordered(self.environment@),
                self.environment@ == bind_parameters(
                    entered,
                    scope as int,
                    function.params@,
                    value_views(arguments@),
                    i as nat,
                ),
                self.frames == old(self).frames,
                self.values == old(self).values,
                self.current == old(self).current,
                self.globals == old(self).globals,
                self.globals < entered.len(),
            decreases function.params@.len() - i,
        {
            self.environment.define(scope, function.params[i].lexeme.clone(), arguments[i].clone());
            i = i + 1;
        }
        self.frames.push(Frame::LeaveCall { caller });
        self.frames.push(Frame::Sequence { statements: function.body, next: 0 });
        self.current = scope;
        Step::Continue
    }

    fn call(&mut self, paren: &'a Token, count: usize) -> (outcome: Step)
        requires
            old(self).well_formed(),
        ensures
            final(self).well_formed(),
            (Transition { state: final(self)@, step: outcome@ }) == call(old(self)@, paren, count),
    {
        if self.values.len() <= count {
            return self.halt(RuntimeError::Stuck);
        }
        let at = self.values.len() - count;
        let arguments = self.values.split_off(at);
        let callee = self.values.pop().unwrap();
        proof {
            assert(self@.values =~= old(self)@.drop_values(count + 1).values);
            assert(value_views(arguments@) =~= old(self)@.values.subrange(
                old(self)@.values.len() - count,
                old(self)@.values.len() as int,
            ));
        }
        match callee {
            Value::Callable(callable) => {
                let arity = callable.arity();
                if arity != count {
                    return self.halt(
                        RuntimeError::ArityMismatch { expected: arity, found: count, line: paren.line },
                    );
                }
                match callable {
                    LoxCallable::Native(_) => Step::Clock,
                    LoxCallable::Function(function) => self.invoke(function, arguments),
                }
            },
            _ => self.halt(RuntimeError::NotCallable { line: paren.line }),
        }
    }

    /// Takes one step. From a consistent state the step is never stuck,
    /// and the state it leads to is consistent again, at once or when the
    /// number that the step asks for was supplied.
    pub fn step(&mut self) -> (outcome: Step)
        requires
            old(self).well_formed(),
        ensures
            final(self).well_formed(),
            (Transition { state: final(self)@, step: outcome@ }) == step(old(self)@),
            consistent(old(self)@) ==> safe(Transition { state: final(self)@, step: outcome@ }),
    {
        let outcome = match self.frames.pop() {
            None => Step::Finished,
            Some(frame) => {
                assert(self@ == old(self)@.pop_frame());
                match frame {
                    Frame::Sequence { statements, next } => self.sequence(statements, next),
                    Frame::Execute(stmt) => self.execute(stmt),
                    Frame::Evaluate(expr) => self.evaluate(expr),
                    Frame::Discard => match self.pop_value() {
                        None => self.halt(RuntimeError::Stuck),
                        Some(_) => Step::Continue,
                    },
                    Frame::Print => self.print(),
                    Frame::Define(name) => match self.pop_value() {
                        None => self.halt(RuntimeError::Stuck),
                        Some(value) => {
                            self.environment.define(self.current, name.lexeme.clone(), value);
                            Step::Continue
                        },
                    },
                    Frame::Branch { then_branch, else_branch } => self.branch(then_branch, else_branch),
                    Frame::Loop { condition, body } => self.repeat(condition, body),
                    Frame::Return => self.leave(),
                    Frame::LeaveBlock { enclosing } => self.leave_block(enclosing),
                    Frame::LeaveCall { caller } => self.leave_call(caller),
                    Frame::Unary(operator) => self.unary(operator),
                    Frame::Binary(operator) => self.binary(operator),
                    Frame::Logical { operator, right } => self.logical(operator, right),
                    Frame::Assign(name) => self.assign(name),
                    Frame::Call { paren, count } => self.call(paren, count),
                }
            },
        };
        proof {
            if consistent(old(self)@) {
                consistent_states_are_safe(old(self)@);
            }
        }
        outcome
    }

    /// Supplies the number that the last step asked the host for: it becomes
    /// the topmost value.
    pub fn supply(&mut self, bits: u64)
        requires
            old(self).well_formed(),
        ensures
            final(self).well_formed(),
            final(self)@ == old(self)@.push_value(ValueView::Number(bits)),
            awaits_number(old(self)@) ==> consistent(final(self)@),
    {
        self.push_value(Value::Number(bits));
    }

    /// Runs the program until a step asks something of the host, the program
    /// ends, or `limit` steps were taken. From a consistent state no step on
    /// the way is stuck.
    pub fn interpret(&mut self, limit: usize) -> (outcome: Step)
        requires
            old(self).well_formed(),
        ensures
            final(self).well_formed(),
            (Transition { state: final(self)@, step: outcome@ }) == run(old(self)@, limit as nat),
            consistent(old(self)@) ==> safe(Transition { state: final(self)@, step: outcome@ }),
    {
        let mut remaining: usize = limit;
        while remaining > 0
            invariant
                self.well_formed(),
                run(self@, remaining as nat) == run(old(self)@, limit as nat),
                consistent(old(self)@) ==> consistent(self@),
            decreases remaining,
        {
            let outcome = self.step();
            match outcome {
                Step::Continue => {
                    remaining = remaining - 1;
                },
                _ => {
                    return outcome;
                },
            }
        }
        Step::Continue
    }
}

} // verus!
