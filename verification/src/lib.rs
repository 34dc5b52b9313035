//! A small dynamically typed scripting language: a scanner, a recursive-descent
//! parser and a stepwise evaluator with lexically scoped variables.
//!
//! [`run`] scans and parses a source text and hands its statements to an
//! [`interpreter::Interpreter`]. The host then calls
//! [`interpreter::Interpreter::step`] until the program is finished or has
//! failed, prints what a step tells it to print, and answers what a step
//! asks: numbers are double-precision values, which the library holds as
//! bit patterns, and their arithmetic, reading and writing are the host's.
//! What a program means is said in [`meaning`], together with the proof that
//! the steps of the machine come to it.

pub mod ast;
pub mod environment;
pub mod errors;
pub mod interpreter;
pub mod meaning;
pub mod number;
pub mod parser;
pub mod report;
pub mod runner;
pub mod scanner;
pub mod tokens;
pub mod value;

pub use report::{error, error_at_token, had_error, report, set_had_error};
pub use runner::run;
