//! Safety of the machine: the states that a run can reach, and the proof
//! that no step out of such a state is stuck.

use vstd::prelude::*;
use crate::environment::{bind, chain_ordered, lookup, resolve, resolves_inside, ScopeView};
use crate::expr::Expr;
use crate::behaviour::parameters_touch_one_scope;
use crate::environment::resolves_to_nearest;
use crate::interpreter::Interpreter;
use crate::machine::{
    argument_frames, assign, binary, bind_parameters, branch, call, define, discard, evaluate, execute,
    leave, leave_block, leave_call, logical, print, repeat, sequence, step, unary, unwind, Frame, State,
    StepView, Transition,
};
use crate::lox_callable::LoxCallable;
use crate::lox_function::LoxFunction;
use crate::runtime_error::RuntimeErrorView;
use crate::stmt::Stmt;
use crate::token::Token;
use crate::value::ValueView;

verus! {

/// How many values a frame takes from the value stack when its turn comes.
pub open spec fn demand(frame: Frame) -> int {
    match frame {
        Frame::Discard => 1,
        Frame::Print => 1,
        Frame::Define(_) => 1,
        Frame::Branch { .. } => 1,
        Frame::Loop { .. } => 1,
        Frame::Return => 1,
        Frame::Unary(_) => 1,
        Frame::Logical { .. } => 1,
        Frame::Assign(_) => 1,
        Frame::Binary(_) => 2,
        Frame::Call { paren, count } => count + 1,
        _ => 0,
    }
}

/// By how many values the value stack has grown when a frame, and all that
/// it schedules, is done.
pub open spec fn gain(frame: Frame) -> int {
    match frame {
        Frame::Evaluate(_) => 1,
        Frame::LeaveCall { .. } => 1,
        Frame::Discard => -1,
        Frame::Print => -1,
        Frame::Define(_) => -1,
        Frame::Branch { .. } => -1,
        Frame::Loop { .. } => -1,
        Frame::Return => -1,
        Frame::Binary(_) => -1,
        Frame::Call { paren, count } => -count,
        _ => 0,
    }
}

/// Whether a frame belongs to a statement: when it is done, no value of
/// the function it runs in is pending.
pub open spec fn of_statement(frame: Frame) -> bool {
    match frame {
        Frame::Sequence { .. } => true,
        Frame::Execute(_) => true,
        Frame::LeaveBlock { .. } => true,
        Frame::Discard => true,
        Frame::Print => true,
        Frame::Define(_) => true,
        Frame::Branch { .. } => true,
        Frame::Loop { .. } => true,
        Frame::Return => true,
        _ => false,
    }
}

/// What the frames above the innermost call frame add to the value stack,
/// all in all.
pub open spec fn drift<'a>(frames: Seq<Frame<'a>>) -> int
    decreases frames.len(),
{
    if frames.len() == 0 {
        0
    } else if frames.last() is LeaveCall {
        0
    } else {
        gain(frames.last()) + drift(frames.drop_last())
    }
}

/// Whether the frames fit a value stack of height `height`: every frame
/// finds the values it takes, the frames of statements leave the stack as
/// their function found it, and when the last frame is done no value is
/// left.
pub open spec fn balanced<'a>(frames: Seq<Frame<'a>>, height: int) -> bool
    decreases frames.len(),
{
    if frames.len() == 0 {
        height == 0
    } else {
        let frame = frames.last();
        let below = frames.drop_last();
        &&& height >= demand(frame)
        &&& of_statement(frame) ==> drift(below) == 0
        &&& balanced(below, height + gain(frame))
    }
}

/// Whether the scope that a value refers to, if any, is among the first
/// `count` scopes.
pub open spec fn sound_value(value: ValueView, count: int) -> bool {
    match value {
        ValueView::Callable(LoxCallable::Function(function)) => function.closure < count,
        _ => true,
    }
}

/// Whether the scope that a frame refers to, if any, is among the first
/// `count` scopes.
pub open spec fn sound_frame(frame: Frame, count: int) -> bool {
    match frame {
        Frame::LeaveBlock { enclosing } => enclosing < count,
        Frame::LeaveCall { caller } => caller < count,
        _ => true,
    }
}

/// Whether every value bound in a scope is sound.
pub open spec fn sound_scope(scope: ScopeView, count: int) -> bool {
    forall|key: Seq<char>|
        scope.values.contains_key(key) ==> sound_value(#[trigger] scope.values[key], count)
}

pub open spec fn sound_frames<'a>(frames: Seq<Frame<'a>>, count: int) -> bool {
    forall|i: int| 0 <= i < frames.len() ==> sound_frame(#[trigger] frames[i], count)
}

pub open spec fn sound_values<'a>(values: Seq<ValueView<'a>>, count: int) -> bool {
    forall|i: int| 0 <= i < values.len() ==> sound_value(#[trigger] values[i], count)
}

pub open spec fn sound_scopes<'a>(scopes: Seq<ScopeView<'a>>, count: int) -> bool {
    forall|i: int| 0 <= i < scopes.len() ==> sound_scope(#[trigger] scopes[i], count)
}

/// Whether a state is one that a run can reach: it is well formed, every
/// scope that a frame or a value refers to exists, and the frames fit the
/// value stack.
pub open spec fn consistent(state: State) -> bool {
    &&& state.well_formed()
    &&& sound_frames(state.frames, state.scopes.len() as int)
    &&& sound_values(state.values, state.scopes.len() as int)
    &&& sound_scopes(state.scopes, state.scopes.len() as int)
    &&& balanced(state.frames, state.values.len() as int)
}

/// Whether a state is consistent once the host has supplied the number it
/// was asked for.
pub open spec fn awaits_number(state: State) -> bool {
    forall|bits: u64| consistent(#[trigger] state.push_value(ValueView::Number(bits)))
}

/// What a transition out of a consistent state must be: it is not stuck,
/// and it leads to a consistent state, at once or when the host has
/// answered.
pub open spec fn safe(transition: Transition) -> bool {
    match transition.step {
        StepView::Failed(RuntimeErrorView::Stuck) => false,
        StepView::ParseNumber(_) => awaits_number(transition.state),
        StepView::Arithmetic { .. } => awaits_number(transition.state),
        StepView::Clock => awaits_number(transition.state),
        _ => consistent(transition.state),
    }
}

/// A frame on top of others fits the stack when it finds its values, when
/// as a frame of a statement it stands at the level of its function, and
/// when the frames below fit what it leaves.
pub proof fn balance_of_a_pushed_frame<'a>(frames: Seq<Frame<'a>>, frame: Frame<'a>, height: int, count: int)
    ensures
        balanced(frames.push(frame), height) == (height >= demand(frame) && (of_statement(frame)
            ==> drift(frames) == 0) && balanced(frames, height + gain(frame))),
        drift(frames.push(frame)) == (if frame is LeaveCall {
            0
        } else {
            gain(frame) + drift(frames)
        }),
        sound_frames(frames, count) && sound_frame(frame, count) ==> sound_frames(
            frames.push(frame),
            count,
        ),
{
    assert(frames.push(frame).drop_last() =~= frames);
}

proof fn lemma_pop_frame<'a>(frames: Seq<Frame<'a>>, height: int, count: int)
    requires
        frames.len() > 0,
    ensures
        balanced(frames, height) == (height >= demand(frames.last()) && (of_statement(frames.last())
            ==> drift(frames.drop_last()) == 0) && balanced(
            frames.drop_last(),
            height + gain(frames.last()),
        )),
        sound_frames(frames, count) ==> sound_frames(frames.drop_last(), count) && sound_frame(
            frames.last(),
            count,
        ),
{
}

proof fn lemma_more_scopes<'a>(state: State<'a>, count: int, more: int)
    requires
        count <= more,
    ensures
        sound_frames(state.frames, count) ==> sound_frames(state.frames, more),
        sound_values(state.values, count) ==> sound_values(state.values, more),
        sound_scopes(state.scopes, count) ==> sound_scopes(state.scopes, more),
{
    if sound_scopes(state.scopes, count) {
        assert forall|i: int| 0 <= i < state.scopes.len() implies sound_scope(
            #[trigger] state.scopes[i],
            more,
        ) by {
            assert(sound_scope(state.scopes[i], count));
        }
    }
}

/// Binding a sound value keeps the scopes sound.
proof fn lemma_bind_sound<'a>(
    scopes: Seq<ScopeView<'a>>,
    scope: int,
    key: Seq<char>,
    value: ValueView<'a>,
    count: int,
)
    requires
        0 <= scope < scopes.len(),
        sound_scopes(scopes, count),
        sound_value(value, count),
    ensures
        sound_scopes(bind(scopes, scope, key, value), count),
        bind(scopes, scope, key, value).len() == scopes.len(),
        chain_ordered(scopes) ==> chain_ordered(bind(scopes, scope, key, value)),
{
    let bound = bind(scopes, scope, key, value);
    assert forall|i: int| 0 <= i < bound.len() implies sound_scope(#[trigger] bound[i], count) by {
        assert(sound_scope(scopes[i], count));
    }
}

/// What is read from sound scopes is sound.
proof fn lemma_lookup_sound<'a>(scopes: Seq<ScopeView<'a>>, scope: int, key: Seq<char>, count: int)
    requires
        sound_scopes(scopes, count),
    ensures
        match lookup(scopes, scope, key) {
            Some(value) => sound_value(value, count),
            None => true,
        },
{
    resolves_inside(scopes, scope, key);
    resolves_to_nearest(scopes, scope, key);
    match resolve(scopes, scope, key) {
        Some(found) => {
            assert(sound_scope(scopes[found], count));
        },
        None => {},
    }
}

/// What holds of a consistent state once its topmost frame was taken off:
/// the frame finds its values, and what lies below fits the stack as the
/// frame will leave it.
pub open spec fn taken<'a>(rest: State<'a>, frame: Frame<'a>) -> bool {
    let count = rest.scopes.len() as int;
    let height = rest.values.len() as int;
    &&& rest.well_formed()
    &&& sound_frames(rest.frames, count)
    &&& sound_values(rest.values, count)
    &&& sound_scopes(rest.scopes, count)
    &&& sound_frame(frame, count)
    &&& height >= demand(frame)
    &&& of_statement(frame) ==> drift(rest.frames) == 0
    &&& balanced(rest.frames, height + gain(frame))
}

/// A state awaits a number when it is consistent but for one missing value.
proof fn lemma_awaits<'a>(state: State<'a>)
    requires
        state.well_formed(),
        sound_frames(state.frames, state.scopes.len() as int),
        sound_values(state.values, state.scopes.len() as int),
        sound_scopes(state.scopes, state.scopes.len() as int),
        balanced(state.frames, state.values.len() as int + 1),
    ensures
        awaits_number(state),
{
    assert forall|bits: u64| consistent(#[trigger] state.push_value(ValueView::Number(bits))) by {
        let next = state.push_value(ValueView::Number(bits));
        assert(sound_values(next.values, next.scopes.len() as int));
    }
}

proof fn lemma_sequence<'a>(rest: State<'a>, statements: &'a Vec<Stmt>, next: usize)
    requires
        taken(rest, Frame::Sequence { statements, next }),
    ensures
        safe(sequence(rest, statements, next)),
{
    let count = rest.scopes.len() as int;
    let height = rest.values.len() as int;
    if next < statements@.len() {
        let first = Frame::Sequence { statements, next: (next + 1) as usize };
        let second = Frame::Execute(&statements@[next as int]);
        balance_of_a_pushed_frame(rest.frames, first, height, count);
        balance_of_a_pushed_frame(rest.frames.push(first), second, height, count);
    }
}

proof fn lemma_execute<'a>(rest: State<'a>, stmt: &'a Stmt)
    requires
        taken(rest, Frame::Execute(stmt)),
        execute(rest, stmt).state.scopes.len() <= usize::MAX,
    ensures
        safe(execute(rest, stmt)),
{
    let count = rest.scopes.len() as int;
    let height = rest.values.len() as int;
    let current = rest.current as int;
    match stmt {
        Stmt::Expression { expr } => {
            balance_of_a_pushed_frame(rest.frames, Frame::Discard, height + 1, count);
            balance_of_a_pushed_frame(rest.frames.push(Frame::Discard), Frame::Evaluate(&**expr), height, count);
        },
        Stmt::Print { expr } => {
            balance_of_a_pushed_frame(rest.frames, Frame::Print, height + 1, count);
            balance_of_a_pushed_frame(rest.frames.push(Frame::Print), Frame::Evaluate(&**expr), height, count);
        },
        Stmt::Var { name, initializer } => {
            match initializer {
                Some(expr) => {
                    balance_of_a_pushed_frame(rest.frames, Frame::Define(name), height + 1, count);
                    balance_of_a_pushed_frame(
                        rest.frames.push(Frame::Define(name)),
                        Frame::Evaluate(expr),
                        height,
                        count,
                    );
                },
                None => {
                    lemma_bind_sound(rest.scopes, current, name.lexeme@, ValueView::Null, count);
                },
            }
        },
        Stmt::Block { statements } => {
            let entered = rest.enter(rest.current);
            lemma_enter(rest, rest.current);
            let first = Frame::LeaveBlock { enclosing: rest.current };
            let second = Frame::Sequence { statements, next: 0 };
            balance_of_a_pushed_frame(rest.frames, first, height, count + 1);
            balance_of_a_pushed_frame(rest.frames.push(first), second, height, count + 1);
        },
        Stmt::If { condition, then_branch, else_branch } => {
            let first = Frame::Branch { then_branch: &**then_branch, else_branch: &**else_branch };
            balance_of_a_pushed_frame(rest.frames, first, height + 1, count);
            balance_of_a_pushed_frame(rest.frames.push(first), Frame::Evaluate(&**condition), height, count);
        },
        Stmt::While { condition, body } => {
            let first = Frame::Loop { condition: &**condition, body: &**body };
            balance_of_a_pushed_frame(rest.frames, first, height + 1, count);
            balance_of_a_pushed_frame(rest.frames.push(first), Frame::Evaluate(&**condition), height, count);
        },
        Stmt::Function { name, params, body } => {
            lemma_bind_sound(
                rest.scopes,
                current,
                name.lexeme@,
                ValueView::Callable(
                    LoxCallable::Function(LoxFunction { name, params, body, closure: rest.current }),
                ),
                count,
            );
        },
        Stmt::Return { keyword, value } => {
            balance_of_a_pushed_frame(rest.frames, Frame::Return, height + 1, count);
            match &**value {
                Some(expr) => {
                    balance_of_a_pushed_frame(rest.frames.push(Frame::Return), Frame::Evaluate(expr), height, count);
                },
                None => {
                    let next = rest.push_frame(Frame::Return).push_value(ValueView::Null);
                    assert(sound_values(next.values, count));
                },
            }
        },
    }
}

/// Entering a fresh scope keeps a state sound.
proof fn lemma_enter<'a>(state: State<'a>, enclosing: usize)
    requires
        state.well_formed(),
        enclosing < state.scopes.len(),
        state.scopes.len() < usize::MAX,
        sound_frames(state.frames, state.scopes.len() as int),
        sound_values(state.values, state.scopes.len() as int),
        sound_scopes(state.scopes, state.scopes.len() as int),
    ensures
        state.enter(enclosing).well_formed(),
        state.enter(enclosing).scopes.len() == state.scopes.len() + 1,
        state.enter(enclosing).current == state.scopes.len(),
        state.enter(enclosing).frames == state.frames,
        state.enter(enclosing).values == state.values,
        sound_frames(state.frames, state.scopes.len() as int + 1),
        sound_values(state.values, state.scopes.len() as int + 1),
        sound_scopes(state.enter(enclosing).scopes, state.scopes.len() as int + 1),
{
    let count = state.scopes.len() as int;
    lemma_more_scopes(state, count, count + 1);
    let entered = state.enter(enclosing);
    assert forall|i: int| 0 <= i < entered.scopes.len() implies sound_scope(
        #[trigger] entered.scopes[i],
        count + 1,
    ) by {
        if i < count {
            assert(sound_scope(state.scopes[i], count + 1));
        }
    }
}

/// Frames that evaluate arguments add one value each.
proof fn lemma_arguments<'a>(
    base: Seq<Frame<'a>>,
    arguments: &'a Vec<Expr>,
    upto: int,
    height: int,
    count: int,
)
    requires
        0 <= upto <= arguments@.len(),
        0 <= height,
    ensures
        balanced(base + argument_frames(arguments).subrange(0, upto), height) == balanced(
            base,
            height + upto,
        ),
        sound_frames(base, count) ==> sound_frames(
            base + argument_frames(arguments).subrange(0, upto),
            count,
        ),
    decreases upto,
{
    let all = argument_frames(arguments);
    if upto == 0 {
        assert(base + all.subrange(0, 0) =~= base);
    } else {
        lemma_arguments(base, arguments, upto - 1, height + 1, count);
        let shorter = base + all.subrange(0, upto - 1);
        assert(all[upto - 1] is Evaluate);
        assert(base + all.subrange(0, upto) =~= shorter.push(all[upto - 1]));
        balance_of_a_pushed_frame(shorter, all[upto - 1], height, count);
    }
}

/// Below the innermost call frame the frames fit the stack with the value
/// of the call on it.
proof fn lemma_unwind<'a>(frames: Seq<Frame<'a>>, height: int, count: int)
    requires
        balanced(frames, height),
        sound_frames(frames, count),
    ensures
        match unwind(frames) {
            Some((below, caller)) => {
                &&& balanced(below, height + drift(frames) + 1)
                &&& sound_frames(below, count)
                &&& caller < count
            },
            None => true,
        },
    decreases frames.len(),
{
    if frames.len() > 0 {
        lemma_pop_frame(frames, height, count);
        match frames.last() {
            Frame::LeaveCall { caller } => {},
            _ => {
                lemma_unwind(frames.drop_last(), height + gain(frames.last()), count);
            },
        }
    }
}

/// Binding parameters to sound arguments keeps the scopes sound.
proof fn lemma_parameters_sound<'a>(
    scopes: Seq<ScopeView<'a>>,
    scope: int,
    params: Seq<Token>,
    arguments: Seq<ValueView<'a>>,
    upto: nat,
    count: int,
)
    requires
        0 <= scope < scopes.len(),
        upto <= arguments.len(),
        sound_scopes(scopes, count),
        sound_values(arguments, count),
    ensures
        sound_scopes(bind_parameters(scopes, scope, params, arguments, upto), count),
        bind_parameters(scopes, scope, params, arguments, upto).len() == scopes.len(),
        chain_ordered(scopes) ==> chain_ordered(bind_parameters(scopes, scope, params, arguments, upto)),
    decreases upto,
{
    if upto > 0 {
        lemma_parameters_sound(scopes, scope, params, arguments, (upto - 1) as nat, count);
        lemma_bind_sound(
            bind_parameters(scopes, scope, params, arguments, (upto - 1) as nat),
            scope,
            params[upto - 1].lexeme@,
            arguments[upto - 1],
            count,
        );
    }
}

proof fn lemma_evaluate<'a>(rest: State<'a>, expr: &'a Expr)
    requires
        taken(rest, Frame::Evaluate(expr)),
    ensures
        safe(evaluate(rest, expr)),
{
    let count = rest.scopes.len() as int;
    let height = rest.values.len() as int;
    match expr {
        Expr::Literal { value } => {
            lemma_awaits(rest);
            let next = evaluate(rest, expr).state;
            assert(sound_values(next.values, count));
            assert(safe(evaluate(rest, expr)));
        },
        Expr::Grouping { expr } => {
            balance_of_a_pushed_frame(rest.frames, Frame::Evaluate(&**expr), height, count);
        },
        Expr::Unary { right, operator } => {
            balance_of_a_pushed_frame(rest.frames, Frame::Unary(operator), height + 1, count);
            balance_of_a_pushed_frame(rest.frames.push(Frame::Unary(operator)), Frame::Evaluate(&**right), height, count);
        },
        Expr::Binary { left, operator, right } => {
            let first = rest.frames.push(Frame::Binary(operator));
            let second = first.push(Frame::Evaluate(&**right));
            balance_of_a_pushed_frame(rest.frames, Frame::Binary(operator), height + 2, count);
            balance_of_a_pushed_frame(first, Frame::Evaluate(&**right), height + 1, count);
            balance_of_a_pushed_frame(second, Frame::Evaluate(&**left), height, count);
        },
        Expr::Logical { left, right, operator } => {
            let first = Frame::Logical { operator, right: &**right };
            balance_of_a_pushed_frame(rest.frames, first, height + 1, count);
            balance_of_a_pushed_frame(rest.frames.push(first), Frame::Evaluate(&**left), height, count);
        },
        Expr::Variable { name } => {
            lemma_lookup_sound(rest.scopes, rest.current as int, name.lexeme@, count);
            lemma_lookup_sound(rest.scopes, rest.globals as int, name.lexeme@, count);
            match rest.variable(name.lexeme@) {
                Some(value) => {
                    let next = rest.push_value(value);
                    assert(sound_values(next.values, count));
                },
                None => {},
            }
        },
        Expr::Assign { name, value } => {
            balance_of_a_pushed_frame(rest.frames, Frame::Assign(name), height + 1, count);
            balance_of_a_pushed_frame(rest.frames.push(Frame::Assign(name)), Frame::Evaluate(&**value), height, count);
        },
        Expr::Call { callee, paren, arguments } => {
            assert(arguments@.len() == arguments.len());
            let first = Frame::Call { paren, count: arguments@.len() as usize };
            let base = rest.frames.push(first);
            let all = argument_frames(arguments);
            assert(all.subrange(0, arguments@.len() as int) =~= all);
            balance_of_a_pushed_frame(rest.frames, first, height + 1 + arguments@.len(), count);
            lemma_arguments(base, arguments, arguments@.len() as int, height + 1, count);
            balance_of_a_pushed_frame(base + all, Frame::Evaluate(&**callee), height, count);
        },
    }
}

proof fn lemma_values<'a>(values: Seq<ValueView<'a>>, count: int)
    requires
        sound_values(values, count),
    ensures
        forall|value: ValueView<'a>| sound_value(value, count) ==> sound_values(#[trigger] values.push(value), count),
        forall|from: int, to: int|
            0 <= from <= to <= values.len() ==> sound_values(#[trigger] values.subrange(from, to), count),
        values.len() > 0 ==> sound_values(values.drop_last(), count) && sound_value(values.last(), count),
{
}

proof fn lemma_consumers<'a>(rest: State<'a>, frame: Frame<'a>)
    requires
        taken(rest, frame),
        frame is Discard || frame is Print || frame is Define || frame is Branch || frame is Loop,
    ensures
        frame is Discard ==> safe(discard(rest)),
        frame is Print ==> safe(print(rest)),
        frame matches Frame::Define(name) ==> safe(define(rest, name)),
        frame matches Frame::Branch { then_branch, else_branch } ==> safe(
            branch(rest, then_branch, else_branch),
        ),
        frame matches Frame::Loop { condition, body } ==> safe(repeat(rest, condition, body)),
{
    let count = rest.scopes.len() as int;
    let height = rest.values.len() as int;
    lemma_values(rest.values, count);
    let popped = rest.pop_value();
    match frame {
        Frame::Define(name) => {
            lemma_bind_sound(rest.scopes, rest.current as int, name.lexeme@, rest.values.last(), count);
        },
        Frame::Branch { then_branch, else_branch } => {
            balance_of_a_pushed_frame(popped.frames, Frame::Execute(then_branch), height - 1, count);
            match else_branch {
                Some(stmt) => {
                    balance_of_a_pushed_frame(popped.frames, Frame::Execute(stmt), height - 1, count);
                },
                None => {},
            }
        },
        Frame::Loop { condition, body } => {
            let first = popped.frames.push(frame);
            let second = first.push(Frame::Evaluate(condition));
            balance_of_a_pushed_frame(popped.frames, frame, height, count);
            balance_of_a_pushed_frame(first, Frame::Evaluate(condition), height - 1, count);
            balance_of_a_pushed_frame(second, Frame::Execute(body), height - 1, count);
        },
        _ => {},
    }
}

proof fn lemma_leavers<'a>(rest: State<'a>, frame: Frame<'a>)
    requires
        taken(rest, frame),
        frame is Return || frame is LeaveBlock || frame is LeaveCall,
    ensures
        frame is Return ==> safe(leave(rest)),
        frame matches Frame::LeaveBlock { enclosing } ==> safe(leave_block(rest, enclosing)),
        frame matches Frame::LeaveCall { caller } ==> safe(leave_call(rest, caller)),
{
    let count = rest.scopes.len() as int;
    let height = rest.values.len() as int;
    lemma_values(rest.values, count);
    match frame {
        Frame::Return => {
            lemma_unwind(rest.frames, height - 1, count);
        },
        Frame::LeaveCall { caller } => {
            let next = leave_call(rest, caller).state;
            assert(sound_values(next.values, count));
        },
        _ => {},
    }
}

proof fn lemma_operators<'a>(rest: State<'a>, frame: Frame<'a>)
    requires
        taken(rest, frame),
        frame is Unary || frame is Binary || frame is Logical || frame is Assign,
    ensures
        frame matches Frame::Unary(operator) ==> safe(unary(rest, operator)),
        frame matches Frame::Binary(operator) ==> safe(binary(rest, operator)),
        frame matches Frame::Logical { operator, right } ==> safe(logical(rest, operator, right)),
        frame matches Frame::Assign(name) ==> safe(assign(rest, name)),
{
    let count = rest.scopes.len() as int;
    let height = rest.values.len() as int;
    lemma_values(rest.values, count);
    match frame {
        Frame::Unary(operator) => {
            let popped = rest.pop_value();
            let next = unary(rest, operator).state;
            assert(sound_values(next.values, count));
        },
        Frame::Binary(operator) => {
            let popped = rest.drop_values(2);
            assert(sound_values(popped.values, count));
            lemma_awaits(popped);
            let next = binary(rest, operator).state;
            assert(sound_values(next.values, count));
            assert(balanced(popped.frames, popped.values.len() as int + 1));
        },
        Frame::Logical { operator, right } => {
            let popped = rest.pop_value();
            balance_of_a_pushed_frame(popped.frames, Frame::Evaluate(right), height - 1, count);
        },
        Frame::Assign(name) => {
            resolves_inside(rest.scopes, rest.current as int, name.lexeme@);
            resolves_inside(rest.scopes, rest.globals as int, name.lexeme@);
            match rest.holder(name.lexeme@) {
                Some(scope) => {
                    lemma_bind_sound(rest.scopes, scope, name.lexeme@, rest.values.last(), count);
                },
                None => {},
            }
        },
        _ => {},
    }
}

proof fn lemma_call<'a>(rest: State<'a>, paren: &'a Token, count: usize)
    requires
        taken(rest, Frame::Call { paren, count }),
        call(rest, paren, count).state.scopes.len() <= usize::MAX,
    ensures
        safe(call(rest, paren, count)),
{
    let scopes = rest.scopes.len() as int;
    let height = rest.values.len() as int;
    lemma_values(rest.values, scopes);
    let callee = rest.values[height - count - 1];
    let arguments = rest.values.subrange(height - count, height);
    let popped = rest.drop_values(count + 1);
    assert(sound_values(popped.values, scopes));
    assert(sound_values(arguments, scopes));
    assert(sound_value(callee, scopes));
    match callee {
        ValueView::Callable(callable) => {
            if callable.arity_spec() == count {
                match callable {
                    LoxCallable::Native(_) => {
                        lemma_awaits(popped);
                    },
                    LoxCallable::Function(function) => {
                        let entered = popped.enter(function.closure);
                        let bound = bind_parameters(
                            entered.scopes,
                            entered.current as int,
                            function.params@,
                            arguments,
                            function.params@.len(),
                        );
                        parameters_touch_one_scope(
                            entered.scopes,
                            entered.current as int,
                            function.params@,
                            arguments,
                            function.params@.len(),
                        );
                        lemma_enter(popped, function.closure);
                        lemma_more_scopes(
                            State { values: arguments, ..popped },
                            scopes,
                            scopes + 1,
                        );
                        lemma_parameters_sound(
                            entered.scopes,
                            entered.current as int,
                            function.params@,
                            arguments,
                            function.params@.len(),
                            scopes + 1,
                        );
                        let first = Frame::LeaveCall { caller: rest.current };
                        let second = Frame::Sequence { statements: function.body, next: 0 };
                        balance_of_a_pushed_frame(popped.frames, first, height - count - 1, scopes + 1);
                        balance_of_a_pushed_frame(popped.frames.push(first), second, height - count - 1, scopes + 1);
                    },
                }
            }
        },
        _ => {},
    }
}

/// Safety. A step out of a consistent state is never stuck: every frame
/// finds the values and the scopes it needs. And it leads to a consistent
/// state again, at once or, where it asks the host for a number, when the
/// host has supplied one. (The scopes must not outnumber the handles of the
/// machine, which no state of a running interpreter does.)
pub proof fn consistent_states_are_safe<'a>(state: State<'a>)
    requires
        consistent(state),
        step(state).state.scopes.len() <= usize::MAX,
    ensures
        safe(step(state)),
{
    if state.frames.len() > 0 {
        let rest = state.pop_frame();
        let frame = state.frames.last();
        lemma_pop_frame(state.frames, state.values.len() as int, state.scopes.len() as int);
        assert(taken(rest, frame));
        match frame {
            Frame::Sequence { statements, next } => lemma_sequence(rest, statements, next),
            Frame::Execute(stmt) => lemma_execute(rest, stmt),
            Frame::Evaluate(expr) => lemma_evaluate(rest, expr),
            Frame::Discard => lemma_consumers(rest, frame),
            Frame::Print => lemma_consumers(rest, frame),
            Frame::Define(name) => lemma_consumers(rest, frame),
            Frame::Branch { then_branch, else_branch } => lemma_consumers(rest, frame),
            Frame::Loop { condition, body } => lemma_consumers(rest, frame),
            Frame::Return => lemma_leavers(rest, frame),
            Frame::LeaveBlock { enclosing } => lemma_leavers(rest, frame),
            Frame::LeaveCall { caller } => lemma_leavers(rest, frame),
            Frame::Unary(operator) => lemma_operators(rest, frame),
            Frame::Binary(operator) => lemma_operators(rest, frame),
            Frame::Logical { operator, right } => lemma_operators(rest, frame),
            Frame::Assign(name) => lemma_operators(rest, frame),
            Frame::Call { paren, count } => lemma_call(rest, paren, count),
        }
    }
}

/// A program starts in a consistent state.
pub proof fn initial_state_is_consistent<'a>(program: &'a Vec<Stmt>)
    ensures
        consistent(Interpreter::initial(program)),
{
    let state = Interpreter::initial(program);
    balance_of_a_pushed_frame(Seq::empty(), Frame::Sequence { statements: program, next: 0 }, 0, 1);
    assert(state.frames =~= Seq::<Frame<'a>>::empty().push(Frame::Sequence { statements: program, next: 0 }));
    assert(sound_scope(state.scopes[0], 1));
}

/// The host's answer completes a state that awaited it.
pub proof fn answer_restores_consistency<'a>(state: State<'a>, bits: u64)
    requires
        awaits_number(state),
    ensures
        consistent(state.push_value(ValueView::Number(bits))),
{
}

/// The frames determine the height of the value stack that they fit.
pub proof fn frames_fix_the_height<'a>(frames: Seq<Frame<'a>>, first: int, second: int)
    requires
        balanced(frames, first),
        balanced(frames, second),
    ensures
        first == second,
    decreases frames.len(),
{
    if frames.len() > 0 {
        frames_fix_the_height(
            frames.drop_last(),
            first + gain(frames.last()),
            second + gain(frames.last()),
        );
    }
}

/// A program that has run to its end has consumed every value it computed.
pub proof fn nothing_is_left_over<'a>(state: State<'a>)
    requires
        consistent(state),
        state.frames.len() == 0,
    ensures
        state.values.len() == 0,
{
}

/// An expression leaves one value, a statement none, and a call one in the
/// place of its callee and arguments. Take a state in which the topmost
/// frame is about to act, and any later state in which exactly the frames
/// below that frame remain: the value stack has then grown by what the
/// frame gains, whatever happened in between.
pub proof fn frames_leave_what_they_gain<'a>(before: State<'a>, after: State<'a>)
    requires
        consistent(before),
        consistent(after),
        before.frames.len() > 0,
        after.frames == before.frames.drop_last(),
    ensures
        after.values.len() == before.values.len() + gain(before.frames.last()),
        before.frames.last() is Evaluate ==> after.values.len() == before.values.len() + 1,
        before.frames.last() is Execute ==> after.values.len() == before.values.len(),
        before.frames.last() matches Frame::Call { paren, count } ==> after.values.len()
            == before.values.len() - count,
{
    frames_fix_the_height(
        after.frames,
        after.values.len() as int,
        before.values.len() + gain(before.frames.last()),
    );
}

} // verus!
