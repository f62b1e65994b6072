//! The literals that tokens and syntax trees carry.

use vstd::prelude::*;

verus! {

/// A literal value as it is written in the source text.
///
/// A number is kept as its numeral (`digits` or `digits.digits`): turning a
/// numeral into a double is floating-point work, which the host performs when
/// the literal is evaluated.
#[derive(Debug, PartialEq)]
pub enum Object {
    String(String),
    Number(String),
    Boolean(bool),
    Null,
}

/// The mathematical value of an [`Object`].
pub enum ObjectView {
    String(Seq<char>),
    Number(Seq<char>),
    Boolean(bool),
    Null,
}

impl View for Object {
    type V = ObjectView;

    open spec fn view(&self) -> ObjectView {
        match self {
            Object::String(text) => ObjectView::String(text@),
            Object::Number(numeral) => ObjectView::Number(numeral@),
            Object::Boolean(b) => ObjectView::Boolean(*b),
            Object::Null => ObjectView::Null,
        }
    }
}

impl Clone for Object {
    fn clone(&self) -> (copy: Self)
        ensures
            copy@ == self@,
    {
        match self {
            Object::String(text) => Object::String(text.clone()),
            Object::Number(numeral) => Object::Number(numeral.clone()),
            Object::Boolean(b) => Object::Boolean(*b),
            Object::Null => Object::Null,
        }
    }
}

} // verus!
