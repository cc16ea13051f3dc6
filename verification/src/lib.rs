pub mod codegen;
pub mod common;
pub mod errors;
pub mod fresh;
pub mod ir;
pub mod lexer;
pub mod parser;
pub mod stages;
pub mod text;
