//! A toolchain for the Let language: lexer and parser, bytecode emitters,
//! the object-module format with its linker and resolver, an assembler for
//! the textual listing, and the stack-machine interpreter.
//!
//! - `opcodes`, `bytes`, `text`: instruction bytes, big-endian fields, decimals.
//! - `table`, `patch`, `resolver`: label and link tables and back-patching.
//! - `format`, `module`: the module file, merging and linking.
//! - `emit`, `emitter`, `assembly_emitter`: the capability set and its
//!   binary, object-file and listing implementations.
//! - `token`, `operators`, `precedence`, `lexer`, `scope`, `parser`: the front end.
//! - `assembler`: the listing back to emitter calls.
//! - `vm`: the interpreter; entry at `__ctor__`, slot 0 of a frame holds the
//!   caller's saved state.
//! - `line`, `string_array`: source locations and an interned string pool.
pub mod assembler;
pub mod assembly_emitter;
pub mod bytes;
pub mod emit;
pub mod emitter;
pub mod error;
pub mod format;
pub mod lexer;
pub mod line;
pub mod module;
pub mod opcodes;
pub mod operators;
pub mod parser;
pub mod patch;
pub mod precedence;
pub mod resolver;
pub mod scope;
pub mod string_array;
pub mod table;
pub mod text;
pub mod token;
pub mod vm;

