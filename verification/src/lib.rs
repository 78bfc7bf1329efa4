//! rnr: a small compiler toolchain for a Rust-like language, with a
//! verified lexer and parser, static type checker, tree-walking
//! interpreter and MIPS assembly generator.
#![allow(unused_imports)]

pub mod assemble;
pub mod assoc;
pub mod codegen;
pub mod ast;
pub mod common;
pub mod convert;
pub mod display;
pub mod env;
pub mod error;
pub mod frame_laws;
pub mod grammar;
pub mod intrinsics;
pub mod op_laws;
pub mod lex;
pub mod parse;
pub mod parse_forms;
pub mod round_trip;
pub mod tc_laws;
pub mod text;
pub mod type_check;
pub mod vm;
pub mod vm_laws;
