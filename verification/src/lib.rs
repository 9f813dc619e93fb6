//! The front end of a small imperative scripting language: a scanner that
//! turns source text into tokens, a recursive-descent parser that turns
//! tokens into a syntax tree, and a semantic analyzer that infers types in
//! lexical scopes. Each stage is specified by a function on mathematical
//! values (`scan_token`, `parse_program`, `check`), and the executable code
//! is verified against it.

pub mod lexer;
pub mod parser;
pub mod runtime;
pub mod text;
pub mod typecheck;
