//! Mirage: a verified, typed, register-based bytecode virtual machine.
//!
//! The crate covers the textual assembly tokenizer and parser, the tagged
//! value model, the image codec, and the frame-stacked interpreter.

pub mod args;
pub mod class;
pub mod codec;
pub mod function;
pub mod host;
pub mod instructions;
pub mod maps;
pub mod meta;
pub mod numfmt;
pub mod parser;
pub mod registers;
pub mod render;
pub mod result;
pub mod runtime;
pub mod stack;
pub mod tokens;
pub mod value;
