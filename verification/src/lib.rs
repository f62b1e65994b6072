//! A tree-walking interpreter for a small dynamically typed language with
//! numbers, strings, booleans, `nil`, lexically scoped variables, control
//! flow and first-class functions that close over their scope.
//!
//! A source text goes through three stages:
//!
//! 1. [`scanner`] turns the text into tokens ([`token`], [`token_type`],
//!    [`object`]);
//! 2. [`parser`] turns the tokens into a program, a list of statements
//!    ([`stmt`], [`expr`]);
//! 3. [`interpreter`] runs the program. It is a machine ([`machine`]) that
//!    takes one step at a time over a stack of frames, a stack of values
//!    ([`value`], [`lox_callable`], [`lox_function`], [`native_functions`])
//!    and the scopes of the program ([`environment`]).
//!
//! [`rlox`] holds the error sink and the front end that joins the first two
//! stages; [`runtime_error`] the errors that stop a running program.
//!
//! The library does no input or output and no floating-point arithmetic. A
//! number is held as the bit pattern of a double ([`number`]); a step of the
//! interpreter that needs a sum, a numeral converted, a line printed or the
//! clock read returns a request to its host, and goes on when the host has
//! answered.
//!
//! Each stage is specified by a mathematical function of its input, and the
//! executable code is proved to compute it: [`scanner::scan`],
//! [`parser::program`], [`machine::step`]. What these functions imply is
//! proved beside them, in [`behaviour`] and [`safety`] for the machine.

pub mod behaviour;
pub mod environment;
pub mod expr;
pub mod interpreter;
pub mod lox_callable;
pub mod lox_function;
pub mod machine;
pub mod native_functions;
pub mod number;
pub mod object;
pub mod parser;
pub mod rlox;
pub mod runtime_error;
pub mod safety;
pub mod scanner;
pub mod stmt;
pub mod text;
pub mod token;
pub mod token_type;
pub mod value;
