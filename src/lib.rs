pub mod ast;
pub mod codegen;
pub mod function;
pub mod heap;
pub mod instruction;
pub mod interner;
pub mod lexer;
pub mod parser;
pub mod pipeline;
pub mod print;
pub mod reader;
pub mod token;
pub mod vm;

