//! A toolchain for a small register-machine bytecode: a tokenizer for its
//! assembly text, a two-pass assembler that resolves labels into a flat
//! binary image, and a virtual CPU that executes that image.

pub mod assembler;
pub mod errors;
pub mod isa;
pub mod lexing;
pub mod lowering;
pub mod token;
pub mod variable;
pub mod vml_cpu;

pub use token::Token;
pub use token::TokenType;
