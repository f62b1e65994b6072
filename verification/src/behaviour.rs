//! What the steps of the machine imply for programs: `and` and `or` short
//! circuit, a function finds the scope it captured when it is called, a
//! `return` ends one call, and what lies under a running expression or
//! statement has no part in how it runs.

use vstd::prelude::*;
use crate::environment::{bind_keeps_bindings, lookup, resolve, resolves_inside, ScopeView};
use crate::expr::Expr;
use crate::lox_callable::LoxCallable;
use crate::lox_function::LoxFunction;
use crate::machine::{
    argument_frames, bind_parameters, invoke, step, truthy, unwind, Frame, State, StepView, Transition,
};
use crate::safety::demand;
use crate::runtime_error::RuntimeErrorView;
use crate::stmt::Stmt;
use crate::token::Token;
use crate::token_type::TokenType;
use crate::value::ValueView;

verus! {

/// The number of calls in progress.
pub open spec fn call_depth<'a>(frames: Seq<Frame<'a>>) -> nat
    decreases frames.len(),
{
    if frames.len() == 0 {
        0
    } else {
        call_depth(frames.drop_last()) + if frames.last() is LeaveCall {
            1nat
        } else {
            0nat
        }
    }
}

/// Short circuit. `or` evaluates its right operand exactly when the left
/// one is falsy, `and` exactly when the left one is truthy. Where the right
/// operand is not evaluated, the left value itself, not its truthiness, is
/// the result; where it is, the left value is dropped. Neither decision
/// touches a scope.
pub proof fn logical_operators_short_circuit<'a>(state: State<'a>, operator: &'a Token, right: &'a Expr)
    requires
        state.frames.len() > 0,
        state.frames.last() == (Frame::Logical { operator, right }),
        state.values.len() > 0,
    ensures
        ({
            let left = state.values.last();
            let next = step(state).state;
            let evaluates_right = next.frames == state.frames.drop_last().push(Frame::Evaluate(right))
                && next.values == state.values.drop_last();
            let keeps_left = next.frames == state.frames.drop_last() && next.values == state.values;
            &&& step(state).step == StepView::Continue
            &&& next.scopes == state.scopes && next.current == state.current
            &&& evaluates_right != keeps_left
            &&& operator.token_type == TokenType::Or ==> (evaluates_right <==> !truthy(left))
            &&& operator.token_type == TokenType::And ==> (evaluates_right <==> truthy(left))
        }),
{
    let below = state.frames.drop_last();
    assert(below.push(Frame::Evaluate(right)).len() != below.len());
}

/// Closure capture: the capture. Executing a function declaration binds the
/// function's name, in the current scope, to a callable that holds the
/// current scope: the one of the block in which the declaration stands.
pub proof fn declaration_captures_current_scope<'a>(
    state: State<'a>,
    stmt: &'a Stmt,
    name: &'a Token,
    params: &'a Vec<Token>,
    body: &'a Vec<Stmt>,
)
    requires
        state.well_formed(),
        state.frames.len() > 0,
        state.frames.last() == Frame::Execute(stmt),
        *stmt == (Stmt::Function { name: *name, params: *params, body: *body }),
    ensures
        ({
            let next = step(state).state;
            &&& step(state).step == StepView::Continue
            &&& next.current == state.current
            &&& next.frames == state.frames.drop_last()
            &&& next.variable(name.lexeme@) == Some(
                ValueView::Callable(
                    LoxCallable::Function(LoxFunction { name, params, body, closure: state.current }),
                ),
            )
        }),
{
}

/// Closure capture: the wait. No step removes a scope or a binding, or
/// moves a scope to another place in the chain; leaving a block changes
/// which scope is current and nothing else. So what a function captured is
/// there when the function is called, however long ago its block was left.
pub proof fn scopes_outlive_their_blocks<'a>(state: State<'a>)
    requires
        state.well_formed(),
    ensures
        ({
            let next = step(state).state;
            &&& next.scopes.len() >= state.scopes.len()
            &&& forall|scope: int|
                0 <= scope < state.scopes.len() ==> (#[trigger] next.scopes[scope]).enclosing
                    == state.scopes[scope].enclosing
            &&& forall|scope: int, key: Seq<char>|
                0 <= scope < state.scopes.len() && state.scopes[scope].values.contains_key(key)
                    ==> #[trigger] next.scopes[scope].values.contains_key(key)
            &&& state.frames.len() > 0 && state.frames.last() is LeaveBlock ==> next.scopes
                == state.scopes
        }),
{
    if state.frames.len() > 0 {
        let rest = state.pop_frame();
        let current = state.current as int;
        match state.frames.last() {
            Frame::Execute(stmt) => {
                match stmt {
                    Stmt::Var { name, initializer } => {
                        bind_keeps_bindings(state.scopes, current, name.lexeme@, ValueView::Null);
                    },
                    Stmt::Function { name, params, body } => {
                        bind_keeps_bindings(
                            state.scopes,
                            current,
                            name.lexeme@,
                            ValueView::Callable(
                                LoxCallable::Function(
                                    LoxFunction { name, params, body, closure: state.current },
                                ),
                            ),
                        );
                    },
                    _ => {},
                }
            },
            Frame::Define(name) => {
                if rest.values.len() > 0 {
                    bind_keeps_bindings(state.scopes, current, name.lexeme@, rest.values.last());
                }
            },
            Frame::Assign(name) => {
                if rest.values.len() > 0 {
                    resolves_inside(state.scopes, current, name.lexeme@);
                    resolves_inside(state.scopes, state.globals as int, name.lexeme@);
                    match rest.holder(name.lexeme@) {
                        Some(scope) => {
                            bind_keeps_bindings(state.scopes, scope, name.lexeme@, rest.values.last());
                        },
                        None => {},
                    }
                }
            },
            Frame::Call { paren, count } => {
                if rest.values.len() > count {
                    let callee = rest.values[rest.values.len() - count - 1];
                    let arguments = rest.values.subrange(
                        rest.values.len() - count,
                        rest.values.len() as int,
                    );
                    match callee {
                        ValueView::Callable(LoxCallable::Function(function)) => {
                            if function.closure < rest.scopes.len() {
                                let entered = rest.drop_values(count + 1).enter(function.closure);
                                parameters_touch_one_scope(
                                    entered.scopes,
                                    entered.current as int,
                                    function.params@,
                                    arguments,
                                    function.params@.len(),
                                );
                                let bound = bind_parameters(
                                    entered.scopes,
                                    entered.current as int,
                                    function.params@,
                                    arguments,
                                    function.params@.len(),
                                );
                                assert forall|scope: int| 0 <= scope < state.scopes.len() implies bound[scope]
                                    == state.scopes[scope] by {}
                            }
                        },
                        _ => {},
                    }
                }
            },
            _ => {},
        }
    }
}

/// Binding parameters changes the scope they are bound in, and no other.
pub proof fn parameters_touch_one_scope<'a>(
    scopes: Seq<ScopeView<'a>>,
    scope: int,
    params: Seq<Token>,
    arguments: Seq<ValueView<'a>>,
    count: nat,
)
    requires
        0 <= scope < scopes.len(),
    ensures
        bind_parameters(scopes, scope, params, arguments, count).len() == scopes.len(),
        bind_parameters(scopes, scope, params, arguments, count)[scope].enclosing
            == scopes[scope].enclosing,
        forall|other: int|
            0 <= other < scopes.len() && other != scope ==> #[trigger] bind_parameters(
                scopes,
                scope,
                params,
                arguments,
                count,
            )[other] == scopes[other],
        forall|key: Seq<char>|
            scopes[scope].values.contains_key(key) ==> #[trigger] bind_parameters(
                scopes,
                scope,
                params,
                arguments,
                count,
            )[scope].values.contains_key(key),
        forall|key: Seq<char>|
            (forall|i: int| 0 <= i < count ==> params[i].lexeme@ != key) ==> #[trigger] bind_parameters(
                scopes,
                scope,
                params,
                arguments,
                count,
            )[scope].values.contains_key(key) == scopes[scope].values.contains_key(key),
    decreases count,
{
    if count > 0 {
        parameters_touch_one_scope(scopes, scope, params, arguments, (count - 1) as nat);
    }
}

/// A chain of scopes is read the same after newer scopes were added and
/// newer scopes changed.
pub proof fn older_scopes_read_the_same<'a>(
    before: Seq<ScopeView<'a>>,
    after: Seq<ScopeView<'a>>,
    scope: int,
    key: Seq<char>,
)
    requires
        0 <= scope < before.len() <= after.len(),
        forall|other: int| 0 <= other <= scope ==> after[other] == before[other],
    ensures
        resolve(after, scope, key) == resolve(before, scope, key),
        lookup(after, scope, key) == lookup(before, scope, key),
    decreases scope,
{
    if !before[scope].values.contains_key(key) {
        match before[scope].enclosing {
            Some(outer) => {
                if outer < scope {
                    older_scopes_read_the_same(before, after, outer as int, key);
                }
            },
            None => {},
        }
    }
}

/// Closure capture: the call. A call of a function runs its body in a
/// scope made for the call, right inside the scope that the function
/// captured: a name that is no parameter is read in the body as it is
/// read from the captured scope, whatever scope the caller is in.
pub proof fn call_reads_through_captured_scope<'a>(
    state: State<'a>,
    function: LoxFunction<'a>,
    arguments: Seq<ValueView<'a>>,
    key: Seq<char>,
)
    requires
        state.well_formed(),
        function.closure < state.scopes.len(),
        forall|i: int| 0 <= i < function.params@.len() ==> function.params@[i].lexeme@ != key,
    ensures
        ({
            let next = invoke(state, function, arguments).state;
            &&& next.current == state.scopes.len()
            &&& next.scopes.len() == state.scopes.len() + 1
            &&& next.scopes[next.current as int].enclosing == Some(function.closure)
            &&& lookup(next.scopes, next.current as int, key) == lookup(
                state.scopes,
                function.closure as int,
                key,
            )
        }),
{
    let entered = state.enter(function.closure);
    parameters_touch_one_scope(
        entered.scopes,
        entered.current as int,
        function.params@,
        arguments,
        function.params@.len(),
    );
    let next = invoke(state, function, arguments).state;
    let bound = bind_parameters(
        entered.scopes,
        entered.current as int,
        function.params@,
        arguments,
        function.params@.len(),
    );
    assert(next.scopes == bound);
    assert forall|other: int| 0 <= other < state.scopes.len() implies bound[other]
        == state.scopes[other] by {}
    older_scopes_read_the_same(state.scopes, next.scopes, function.closure as int, key);
    assert(!bound[next.current as int].values.contains_key(key));
}

/// Unwinding drops frames from the top down to the innermost call frame,
/// that frame included and none below it: exactly one call ends.
pub proof fn unwinding_ends_one_call<'a>(frames: Seq<Frame<'a>>)
    ensures
        match unwind(frames) {
            Some((below, caller)) => {
                &&& below.len() < frames.len()
                &&& below == frames.subrange(0, below.len() as int)
                &&& frames[below.len() as int] == (Frame::LeaveCall { caller })
                &&& forall|i: int| below.len() < i < frames.len() ==> !(#[trigger] frames[i] is LeaveCall)
                &&& call_depth(below) + 1 == call_depth(frames)
            },
            None => call_depth(frames) == 0,
        },
    decreases frames.len(),
{
    if frames.len() > 0 {
        let rest = frames.drop_last();
        unwinding_ends_one_call(rest);
        match frames.last() {
            Frame::LeaveCall { caller } => {
                assert(rest =~= frames.subrange(0, rest.len() as int));
            },
            _ => {
                match unwind(rest) {
                    Some((below, caller)) => {
                        assert(below =~= frames.subrange(0, below.len() as int));
                        assert forall|i: int| below.len() < i < frames.len() implies !(
                        #[trigger] frames[i] is LeaveCall) by {
                            if i < rest.len() {
                                assert(rest[i] == frames[i]);
                            }
                        }
                    },
                    None => {},
                }
            },
        }
    }
}

/// Recursion unwinds one call per `return`. A `return` inside a call ends
/// the innermost call and no other: the frames of that call are dropped,
/// the caller's scope is current again, the returned value is the value of
/// the call, and one call fewer is in progress. Outside every call a
/// `return` stops the program.
pub proof fn return_ends_innermost_call<'a>(state: State<'a>)
    requires
        state.well_formed(),
        state.frames.len() > 0,
        state.frames.last() == Frame::<'a>::Return,
        state.values.len() > 0,
    ensures
        ({
            let next = step(state);
            match unwind(state.frames) {
                Some((below, caller)) => caller < state.scopes.len() ==> {
                    &&& next.step == StepView::Continue
                    &&& next.state.frames == below
                    &&& call_depth(next.state.frames) + 1 == call_depth(state.frames)
                    &&& next.state.values == state.values
                    &&& next.state.current == caller
                    &&& next.state.scopes == state.scopes
                },
                None => {
                    &&& call_depth(state.frames) == 0
                    &&& next.step == StepView::Failed(RuntimeErrorView::ReturnOutsideFunction)
                    &&& next.state.frames.len() == 0
                    &&& next.state.values.len() == 0
                },
            }
        }),
{
    unwinding_ends_one_call(state.frames);
    unwinding_ends_one_call(state.frames.drop_last());
}

/// A call of a function of the program puts exactly one call frame on the
/// stack, under the frames of the body.
pub proof fn call_begins_one_call<'a>(state: State<'a>, function: LoxFunction<'a>, arguments: Seq<ValueView<'a>>)
    requires
        function.closure < state.scopes.len(),
    ensures
        call_depth(invoke(state, function, arguments).state.frames) == call_depth(state.frames) + 1,
        unwind(invoke(state, function, arguments).state.frames) == Some((state.frames, state.current)),
{
    let called = state.frames.push(Frame::LeaveCall { caller: state.current });
    let running = called.push(Frame::Sequence { statements: function.body, next: 0 });
    assert(running.drop_last() =~= called);
    assert(called.drop_last() =~= state.frames);
    assert(invoke(state, function, arguments).state.frames =~= running);
    assert(call_depth(called) == call_depth(state.frames) + 1);
    assert(call_depth(running) == call_depth(called));
    assert(unwind(called) == Some((state.frames, state.current)));
    assert(unwind(running) == unwind(called));
}

/// The state with `frames` put under its frames and `values` under its
/// values.
pub open spec fn on_top_of<'a>(
    state: State<'a>,
    frames: Seq<Frame<'a>>,
    values: Seq<ValueView<'a>>,
) -> State<'a> {
    State { frames: frames + state.frames, values: values + state.values, ..state }
}

/// Whether the topmost frame finds in the state all that a step looks at:
/// the values it takes and, for a `return`, the frame of its call.
pub open spec fn self_contained(state: State) -> bool {
    &&& state.frames.len() > 0
    &&& state.values.len() >= demand(state.frames.last())
    &&& state.frames.last() is Return ==> unwind(state.frames.drop_last()) is Some
}

proof fn lemma_unwind_on_top<'a>(frames: Seq<Frame<'a>>, under: Seq<Frame<'a>>)
    requires
        unwind(frames) is Some,
    ensures
        unwind(under + frames) == Some((under + unwind(frames)->Some_0.0, unwind(frames)->Some_0.1)),
    decreases frames.len(),
{
    let all = under + frames;
    assert(all.drop_last() =~= under + frames.drop_last());
    assert(all.last() == frames.last());
    match frames.last() {
        Frame::LeaveCall { caller } => {},
        _ => {
            lemma_unwind_on_top(frames.drop_last(), under);
        },
    }
}

/// Steps are local. A step looks at the topmost frame, at the values that
/// this frame takes and, to return, at the frames down to the innermost
/// call frame; it looks at nothing below. So what lies under an expression
/// or a statement while it runs has no part in how it runs, and is found
/// again as it was: put any frames and values under a state, and the step
/// is the same step, with the same frames and values under its result. (A
/// step that fails stops the program, whatever lies below.)
pub proof fn steps_are_local<'a>(state: State<'a>, frames: Seq<Frame<'a>>, values: Seq<ValueView<'a>>)
    requires
        self_contained(state),
    ensures
        step(on_top_of(state, frames, values)).step == step(state).step,
        step(on_top_of(state, frames, values)).state == (if step(state).step is Failed {
            step(state).state
        } else {
            on_top_of(step(state).state, frames, values)
        }),
{
    let stacked = on_top_of(state, frames, values);
    let rest = state.pop_frame();
    let frame = state.frames.last();
    let height = state.values.len() as int;
    assert(stacked.frames.last() == frame);
    assert(stacked.pop_frame().frames =~= frames + rest.frames);
    assert(stacked.pop_frame() == on_top_of(rest, frames, values));
    let lifted = on_top_of(rest, frames, values);
    let alone = step(state);
    let together = step(stacked);
    assert(lifted.values.len() == values.len() + height);
    if height >= 1 {
        assert(lifted.values.last() == rest.values.last());
        assert(lifted.values.drop_last() =~= values + rest.values.drop_last());
    }
    if height >= 2 {
        assert(lifted.values[lifted.values.len() - 2] == rest.values[height - 2]);
        assert(lifted.drop_values(2).values =~= values + rest.drop_values(2).values);
    }
    match frame {
        Frame::Evaluate(expr) => {
            match expr {
                Expr::Call { callee, paren, arguments } => {
                    let call = Frame::Call { paren, count: arguments@.len() as usize };
                    assert(lifted.frames.push(call) + argument_frames(arguments) =~= frames + (
                    rest.frames.push(call) + argument_frames(arguments)));
                },
                _ => {},
            }
            assert(together.state.frames =~= if alone.step is Failed {
                alone.state.frames
            } else {
                frames + alone.state.frames
            });
            assert(together.state.values =~= if alone.step is Failed {
                alone.state.values
            } else {
                values + alone.state.values
            });
        },
        Frame::Return => {
            lemma_unwind_on_top(rest.frames, frames);
        },
        Frame::Call { paren, count } => {
            assert(lifted.values[lifted.values.len() - count - 1] == rest.values[height - count - 1]);
            assert(lifted.values.subrange(lifted.values.len() - count, lifted.values.len() as int)
                =~= rest.values.subrange(height - count, height));
            assert(lifted.drop_values(count + 1).values =~= values + rest.drop_values(
                count + 1,
            ).values);
            assert(together.state.frames =~= if alone.step is Failed {
                alone.state.frames
            } else {
                frames + alone.state.frames
            });
            assert(together.state.values =~= if alone.step is Failed {
                alone.state.values
            } else {
                values + alone.state.values
            });
        },
        _ => {
            assert(together.state.frames =~= if alone.step is Failed {
                alone.state.frames
            } else {
                frames + alone.state.frames
            });
            assert(together.state.values =~= if alone.step is Failed {
                alone.state.values
            } else {
                values + alone.state.values
            });
        },
    }
}

} // verus!
