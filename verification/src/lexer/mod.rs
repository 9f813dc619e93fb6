pub mod lexer;
pub mod scan;
