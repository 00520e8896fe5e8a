//! A verified interpreter for a small Logo-style turtle-graphics language.
//!
//! A program is a string of movement commands, turns, bounded repetition,
//! user-defined parametrized procedures, comparisons and an early-exit
//! statement. The interpreter tokenizes the text, parses it into statement
//! trees, resolves bare procedure names into calls, and executes the result
//! against a turtle whose pen movements are recorded as a trace; rendering
//! the trace to an image is left to the embedder.

pub mod ast;
pub mod error;
pub mod laws;
pub mod lexer;
pub mod parser;
pub mod registry;
pub mod resolver;
pub mod scalar;
pub mod turtle;
