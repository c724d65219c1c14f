//! A compiler for a small subset of C: tokenizer, parser and lowering to
//! LLVM IR, with their specifications and proofs.
pub mod ast;
pub mod codegen;
pub mod codegen_laws;
pub mod diagnostics;
pub mod emitter;
pub mod driver;
pub mod grammar;
pub mod ir;
pub mod lexer;
pub mod lexer_laws;
pub mod llvm;
pub mod lowering;
pub mod parser;
pub mod parser_laws;
