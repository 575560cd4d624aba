//! A minimal scripting-language front end and evaluator.
//!
//! The library parses program text in a small bespoke syntax into an
//! abstract syntax tree and executes that tree against a mutable variable
//! environment.  Runtime numbers are IEEE-754 double-precision values,
//! carried everywhere as their 64-bit encodings so that every piece of
//! logic outside the raw arithmetic itself is verified; the caller supplies
//! the arithmetic on the encodings (see `interpreter`).

pub mod ast;
pub mod float_bits;
pub mod interpreter;
pub mod parser;
