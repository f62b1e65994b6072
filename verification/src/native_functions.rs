//! The functions that every program finds defined.

use vstd::prelude::*;

verus! {

/// The native function `clock`: it takes no argument and answers with the
/// wall-clock time in milliseconds since the Unix epoch. Reading the clock is
/// the host's work; the library knows the function's shape.
#[derive(Clone, Copy, Debug, PartialEq, Eq, Structural)]
pub struct Clock;

impl Clock {
    pub fn new() -> (clock: Self)
        ensures
            clock == Clock,
    {
        Clock {  }
    }

    /// `clock` takes no argument.
    pub fn arity(&self) -> (count: usize)
        ensures
            count == 0,
    {
        0
    }

    pub open spec fn name_spec() -> Seq<char> {
        "<builtin fn clock>"@
    }

    pub fn name(&self) -> (name: String)
        ensures
            name@ == Self::name_spec(),
    {
        String::from_str("<builtin fn clock>")
    }
}

} // verus!
