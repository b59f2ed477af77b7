//! A toolchain for a small 16-bit teaching computer.
//!
//! The core is the translator from the stack-machine language to symbolic
//! assembly: `parser` reads instruction records, `compiler` validates them
//! and keeps the first error, `code_gen` emits each instruction's fragment,
//! and `linker` joins units behind the startup code. `machine` models the
//! target running those fragments and proves what they do.
//!
//! Around it: the two-pass assembler (`hack_code`, `symbol_table`,
//! `assembler`) and, for the high-level language, its tokens, tokenizer and
//! stack-machine code generator (`jack_token`, `tokenizer`, `jack_code`).
//! `text` holds the character-level helpers they share.

pub mod text;
pub mod segment;
pub mod code_gen;
pub mod parser;
pub mod compiler;
pub mod linker;
pub mod machine;
pub mod hack_code;
pub mod symbol_table;
pub mod assembler;
pub mod jack_token;
pub mod tokenizer;
pub mod jack_code;
