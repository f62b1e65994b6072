//! The values that can be called.

use vstd::prelude::*;
use crate::lox_function::LoxFunction;
use crate::native_functions::Clock;

verus! {

/// What can be called: the native clock or a function of the program.
#[derive(Clone, Copy, Debug, PartialEq)]
pub enum LoxCallable<'a> {
    Native(Clock),
    Function(LoxFunction<'a>),
}

impl<'a> LoxCallable<'a> {
    pub open spec fn arity_spec(&self) -> nat {
        match self {
            LoxCallable::Native(_) => 0,
            LoxCallable::Function(function) => function.params@.len(),
        }
    }

    pub open spec fn name_spec(&self) -> Seq<char> {
        match self {
            LoxCallable::Native(_) => Clock::name_spec(),
            LoxCallable::Function(function) => function.name.lexeme@,
        }
    }

    /// The number of arguments a call must pass.
    pub fn arity(&self) -> (count: usize)
        ensures
            count == self.arity_spec(),
    {
        match self {
            LoxCallable::Native(clock) => clock.arity(),
            LoxCallable::Function(function) => function.arity(),
        }
    }

    /// The name under which the callable is shown.
    pub fn name(&self) -> (name: String)
        ensures
            name@ == self.name_spec(),
    {
        match self {
            LoxCallable::Native(clock) => clock.name(),
            LoxCallable::Function(function) => function.name(),
        }
    }
}

} // verus!
