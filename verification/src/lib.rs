//! HAL: a hardware description language written as S-expressions, with
//! compile-time macros, that compiles to Verilog or VHDL.
//!
//! The pipeline is `lexer::tokenize` -> `parser::parse_sexprs` ->
//! `macro_expander::expand` -> `ast::parse_modules` -> `semantic::check_module`
//! -> a `backend::Backend` (`VerilogBackend` or `VhdlBackend`).
use vstd::prelude::*;

pub mod text;
pub mod error;
pub mod lexer;
pub mod parser;
pub mod ast;
pub mod macro_expander;
pub mod semantic;
pub mod backend;
pub mod verilog_backend;
pub mod vhdl_backend;
pub mod driver;

verus! {
}
