//! A verified Brainfuck-to-C transpiler.
//!
//! The pipeline has three stages: a tokenizer that run-length-coalesces the
//! source characters into commands, a bracket validator that checks that loop
//! markers nest correctly, and a code generator that emits an equivalent,
//! bounds-checked C program. `transpile` composes the three and returns a
//! tagged result; `transpile_brainfuck_to_c` is the string-typed adapter that
//! older callers expect.

pub mod generator;
pub mod pipeline;
pub mod token;
pub mod tokenizer;
pub mod validator;

pub use generator::generate;
pub use pipeline::transpile;
pub use pipeline::transpile_brainfuck_to_c;
pub use token::Token;
pub use tokenizer::tokenize;
pub use validator::check_brackets;
pub use validator::validate_brackets;
pub use validator::StructureError;
