//! Tardi: a small stack-based language — scanner, parser, type system,
//! type checker and a stack interpreter.

pub mod analysis;
pub mod ast;
pub mod config;
pub mod equality;
pub mod errors;
pub mod loader;
pub mod machine;
pub mod modules;
pub mod op_code;
pub mod parser;
pub mod read_back;
pub mod scanner;
pub mod shared;
pub mod sig_text;
pub mod span;
pub mod strings;
pub mod text;
pub mod token;
pub mod typechecker;
pub mod types;
pub mod value;
pub mod vectors;
pub mod word_token;
