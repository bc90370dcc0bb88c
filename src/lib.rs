//! Mindbend: an esoteric language with two regions, gated primitives and
//! values that die when their time to live runs out.
//!
//! `lexer` turns source text into tokens, `parser` builds and checks the
//! syntax tree (`ast`), `lower` turns a program into the operations that the
//! code generator emits, and `machine` and `runtime` state what a compiled
//! program does when it runs. `errors` holds every diagnostic text and
//! `decimal` writes the positions in them.

pub mod decimal;
pub mod errors;
pub mod lexer;
pub mod ast;
pub mod parser;
pub mod machine;
pub mod runtime;
pub mod lower;
pub mod code;
