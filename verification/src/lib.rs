//! An assembler for a small register-machine language whose arithmetic is done by a
//! language model, and the processor that runs the resulting byte code.
pub mod text;
pub mod assembler;
pub mod word;
pub mod processor;
pub mod exception;
