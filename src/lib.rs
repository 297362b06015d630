//! Translator from the stack-oriented VM language to Hack assembly.
//!
//! - [`parser`]: comment removal, tokenisation and parsing of VM source;
//! - [`codewriter`]: the assembly emitted for each command;
//! - [`translator`]: the driver over a sequence of units;
//! - [`machine`]: a model of the Hack machine, and what the emitted code does on it.
pub mod codewriter;
pub mod command;
pub mod machine;
pub mod parser;
pub mod text;
pub mod translator;
