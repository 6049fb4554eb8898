//! A small line-oriented scripting language: its parser and its evaluator.
//!
//! A source text is one statement a line: a variable declaration, a
//! function declaration, a print statement or an expression. Expressions
//! are terms joined by `+ - * /`, grouped from the left. Every value is a
//! text.
//!
//! - [`text`], [`scan`] and [`number`] cut text into lines, tokens and
//!   fields and read and write numbers.
//! - [`ast`] is the syntax tree; [`grammar`] says which tree a text
//!   denotes; [`parser`] builds it.
//! - [`semantics`] says what one step of the evaluator does; [`runtime`]
//!   is the evaluator, a stack machine that a driver steps. The machine
//!   does no input or output and no floating-point arithmetic: it hands
//!   its driver a line to print or a numeric request to answer.
//! - [`meaning`] says what a program means as a recursive evaluation and
//!   proves that the machine computes it; [`laws`] holds what is true of
//!   every run.
//! - [`table`] is the mapping from names to values; [`debugger`] is the
//!   command language of the line-stepping debugger.

pub mod text;
pub mod scan;
pub mod number;
pub mod ast;
pub mod grammar;
pub mod parser;
pub mod table;
pub mod semantics;
pub mod debugger;
pub mod runtime;
pub mod laws;
pub mod meaning;
