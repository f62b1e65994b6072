//! The functions that a program declares.

use vstd::prelude::*;
use crate::stmt::Stmt;
use crate::token::Token;

verus! {

/// A function of the program: the parts of its declaration, and the handle of
/// the scope that was current when the declaration was executed. A call runs
/// the body in a fresh scope enclosed by that one.
#[derive(Clone, Copy, Debug, PartialEq)]
pub struct LoxFunction<'a> {
    pub name: &'a Token,
    pub params: &'a Vec<Token>,
    pub body: &'a Vec<Stmt>,
    pub closure: usize,
}

impl<'a> LoxFunction<'a> {
    pub fn new(name: &'a Token, params: &'a Vec<Token>, body: &'a Vec<Stmt>, closure: usize) -> (function: Self)
        ensures
            function == (LoxFunction { name, params, body, closure }),
    {
        Self { name, params, body, closure }
    }

    /// The number of parameters.
    pub fn arity(&self) -> (count: usize)
        ensures
            count == self.params@.len(),
    {
        self.params.len()
    }

    /// The declared name.
    pub fn name(&self) -> (name: String)
        ensures
            name@ == self.name.lexeme@,
    {
        self.name.lexeme.clone()
    }
}

} // verus!
