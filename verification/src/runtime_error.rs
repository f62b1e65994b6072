//! The errors that stop a running program.

use vstd::prelude::*;
use crate::text::{decimal, decimal_text};

verus! {

/// Why a running program was stopped. Each error carries the line of the
/// token at which it was found.
#[derive(Debug, PartialEq)]
pub enum RuntimeError {
    /// `-x` where `x` is not a number.
    OperandMustBeNumber { line: usize },
    /// `- * / < <= > >=` where an operand is not a number.
    OperandsMustBeNumbers { line: usize },
    /// `+` where the operands are neither two numbers nor two strings.
    OperandsMustBeNumbersOrStrings { line: usize },
    /// A variable was read or assigned that no reachable scope defines.
    UndefinedVariable { name: String, line: usize },
    /// The callee of a call is not a callable.
    NotCallable { line: usize },
    /// A call passes a number of arguments other than the callee's arity.
    ArityMismatch { expected: usize, found: usize, line: usize },
    /// A `return` was executed outside every function call.
    ReturnOutsideFunction,
    /// A unary, binary or logical node carries a token that is no operator
    /// of its kind. The parser never builds such a node.
    InvalidOperator { line: usize },
    /// A step needed an operand, an answer of the host or a scope that the
    /// machine does not hold.
    Stuck,
}

/// The mathematical value of a [`RuntimeError`].
pub enum RuntimeErrorView {
    OperandMustBeNumber { line: usize },
    OperandsMustBeNumbers { line: usize },
    OperandsMustBeNumbersOrStrings { line: usize },
    UndefinedVariable { name: Seq<char>, line: usize },
    NotCallable { line: usize },
    ArityMismatch { expected: usize, found: usize, line: usize },
    ReturnOutsideFunction,
    InvalidOperator { line: usize },
    Stuck,
}

impl View for RuntimeError {
    type V = RuntimeErrorView;

    open spec fn view(&self) -> RuntimeErrorView {
        match self {
            RuntimeError::OperandMustBeNumber { line } => RuntimeErrorView::OperandMustBeNumber {
                line: *line,
            },
            RuntimeError::OperandsMustBeNumbers { line } => RuntimeErrorView::OperandsMustBeNumbers {
                line: *line,
            },
            RuntimeError::OperandsMustBeNumbersOrStrings { line } => {
                RuntimeErrorView::OperandsMustBeNumbersOrStrings { line: *line }
            },
            RuntimeError::UndefinedVariable { name, line } => RuntimeErrorView::UndefinedVariable {
                name: name@,
                line: *line,
            },
            RuntimeError::NotCallable { line } => RuntimeErrorView::NotCallable { line: *line },
            RuntimeError::ArityMismatch { expected, found, line } => RuntimeErrorView::ArityMismatch {
                expected: *expected,
                found: *found,
                line: *line,
            },
            RuntimeError::ReturnOutsideFunction => RuntimeErrorView::ReturnOutsideFunction,
            RuntimeError::InvalidOperator { line } => RuntimeErrorView::InvalidOperator { line: *line },
            RuntimeError::Stuck => RuntimeErrorView::Stuck,
        }
    }
}

impl RuntimeErrorView {
    /// The line at which the error is reported; 0 where it belongs to no token.
    pub open spec fn line(self) -> usize {
        match self {
            RuntimeErrorView::OperandMustBeNumber { line } => line,
            RuntimeErrorView::OperandsMustBeNumbers { line } => line,
            RuntimeErrorView::OperandsMustBeNumbersOrStrings { line } => line,
            RuntimeErrorView::UndefinedVariable { name, line } => line,
            RuntimeErrorView::NotCallable { line } => line,
            RuntimeErrorView::ArityMismatch { expected, found, line } => line,
            RuntimeErrorView::ReturnOutsideFunction => 0,
            RuntimeErrorView::InvalidOperator { line } => line,
            RuntimeErrorView::Stuck => 0,
        }
    }

    /// The message with which the error is reported.
    pub open spec fn message(self) -> Seq<char> {
        match self {
            RuntimeErrorView::OperandMustBeNumber { line } => "Operand must be a number."@,
            RuntimeErrorView::OperandsMustBeNumbers { line } => "Operands must be numbers."@,
            RuntimeErrorView::OperandsMustBeNumbersOrStrings { line } => {
                "Operands must be numbers or strings"@
            },
            RuntimeErrorView::UndefinedVariable { name, line } => "Undefined variable '"@ + name + "'."@,
            RuntimeErrorView::NotCallable { line } => "Can only call functions and classes"@,
            RuntimeErrorView::ArityMismatch { expected, found, line } => "Expected "@ + decimal_text(
                expected as nat,
            ) + " arguments, but got "@ + decimal_text(found as nat) + "."@,
            RuntimeErrorView::ReturnOutsideFunction => "Can't return from top-level code."@,
            RuntimeErrorView::InvalidOperator { line } => "Unexpected token."@,
            RuntimeErrorView::Stuck => "The interpreter is stuck."@,
        }
    }
}

impl RuntimeError {
    pub fn line(&self) -> (line: usize)
        ensures
            line == self@.line(),
    {
        match self {
            RuntimeError::OperandMustBeNumber { line } => *line,
            RuntimeError::OperandsMustBeNumbers { line } => *line,
            RuntimeError::OperandsMustBeNumbersOrStrings { line } => *line,
            RuntimeError::UndefinedVariable { name, line } => *line,
            RuntimeError::NotCallable { line } => *line,
            RuntimeError::ArityMismatch { expected, found, line } => *line,
            RuntimeError::ReturnOutsideFunction => 0,
            RuntimeError::InvalidOperator { line } => *line,
            RuntimeError::Stuck => 0,
        }
    }

    pub fn message(&self) -> (message: String)
        ensures
            message@ == self@.message(),
    {
        match self {
            RuntimeError::OperandMustBeNumber { line } => String::from_str("Operand must be a number."),
            RuntimeError::OperandsMustBeNumbers { line } => String::from_str("Operands must be numbers."),
            RuntimeError::OperandsMustBeNumbersOrStrings { line } => String::from_str(
                "Operands must be numbers or strings",
            ),
            RuntimeError::UndefinedVariable { name, line } => {
                let mut message = String::from_str("Undefined variable '");
                message.append(name.as_str());
                message.append("'.");
                message
            },
            RuntimeError::NotCallable { line } => String::from_str("Can only call functions and classes"),
            RuntimeError::ArityMismatch { expected, found, line } => {
                let mut message = String::from_str("Expected ");
                let expected_text = decimal(*expected as u64);
                message.append(expected_text.as_str());
                message.append(" arguments, but got ");
                let found_text = decimal(*found as u64);
                message.append(found_text.as_str());
                message.append(".");
                message
            },
            RuntimeError::ReturnOutsideFunction => String::from_str("Can't return from top-level code."),
            RuntimeError::InvalidOperator { line } => String::from_str("Unexpected token."),
            RuntimeError::Stuck => String::from_str("The interpreter is stuck."),
        }
    }
}

} // verus!
