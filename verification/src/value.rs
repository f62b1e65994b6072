//! The values that a running program computes with.

use vstd::prelude::*;
use crate::lox_callable::LoxCallable;

verus! {

/// A runtime value. A number is the bit pattern of a double.
#[derive(Debug, PartialEq)]
pub enum Value<'a> {
    Null,
    Boolean(bool),
    Number(u64),
    String(String),
    Callable(LoxCallable<'a>),
}

/// The mathematical value of a [`Value`].
pub enum ValueView<'a> {
    Null,
    Boolean(bool),
    Number(u64),
    String(Seq<char>),
    Callable(LoxCallable<'a>),
}

impl<'a> View for Value<'a> {
    type V = ValueView<'a>;

    open spec fn view(&self) -> ValueView<'a> {
        match self {
            Value::Null => ValueView::Null,
            Value::Boolean(b) => ValueView::Boolean(*b),
            Value::Number(bits) => ValueView::Number(*bits),
            Value::String(text) => ValueView::String(text@),
            Value::Callable(callable) => ValueView::Callable(*callable),
        }
    }
}

impl<'a> Clone for Value<'a> {
    fn clone(&self) -> (copy: Self)
        ensures
            copy@ == self@,
    {
        match self {
            Value::Null => Value::Null,
            Value::Boolean(b) => Value::Boolean(*b),
            Value::Number(bits) => Value::Number(*bits),
            Value::String(text) => Value::String(text.clone()),
            Value::Callable(callable) => Value::Callable(*callable),
        }
    }
}

/// The views of a sequence of values.
pub open spec fn value_views<'a>(values: Seq<Value<'a>>) -> Seq<ValueView<'a>> {
    values.map_values(|v: Value<'a>| v@)
}

} // verus!
