//! The core of a tree-walking interpreter for a small dynamically typed
//! scripting language: a scanner, a recursive-descent parser, a static
//! resolver and an evaluator, each with a machine-checked contract.
//!
//! * [`scanner`] turns a source text into tokens. Its contract fixes every
//!   token by the rules of `scan_step`.
//! * [`parser`] turns tokens into statements. Its contract is the grammar of
//!   [`grammar`], written as functions from tokens to the shape of the result.
//! * [`resolver`] records, for every use of a local variable, how many
//!   environments lie between the use and the declaration.
//! * [`interpreter`] executes statements. Its contract is the relation of
//!   [`semantics`] between the state before and the state after.
//! * [`saturday`] puts the four together and keeps an interpreter alive from
//!   one source text to the next.
//! * [`soundness`] and [`numbering`] prove that the records of the resolver
//!   are right: no program that has passed the resolver ever looks for a
//!   local variable where it is not.
//!
//! Numbers never enter this crate as machine floats. A number is carried as
//! a decimal numeral, and every operation that has to know its value is
//! asked of an [`arithmetic::Arithmetic`] unit that the caller supplies. The
//! answers of the unit have names, and the contracts say which answer to
//! which question every number of a result is; that the unit gives the same
//! answer to the same question is the one thing taken on trust of it. The
//! crate also performs no output: what a program prints is kept as lines
//! for the caller to write.

pub mod arithmetic;
pub mod ast_printer;
pub mod callable;
pub mod environment;
pub mod error;
pub mod expr;
pub mod grammar;
pub mod interpreter;
pub mod native_functions;
pub mod numbering;
pub mod object;
pub mod parser;
pub mod resolver;
pub mod saturday;
pub mod saturday_function;
pub mod scanner;
pub mod semantics;
pub mod soundness;
pub mod stmt;
pub mod text;
pub mod token;
pub mod token_type;
