//! A compiler front end for the ALSH scripting language: a byte-level lexer, a token
//! parser that builds the syntax tree, a line-oriented control-flow parser, a shell-style
//! pipeline parser and the code generator's lowering tables, each verified against its
//! contract.
use vstd::prelude::*;

pub mod text;
pub mod lexer;
pub mod parser;
pub mod interpolate;
pub mod control_flow;
pub mod flow_model;
pub mod token_tags;
pub mod syntax;
pub mod syntax_model;
pub mod syntax_laws;
pub mod token_parser;
pub mod lowering;
pub mod diagnostics;
pub mod cli;

verus! {

} // verus!
