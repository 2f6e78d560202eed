use vstd::prelude::*;

pub mod util;
pub mod assoc;
pub mod error;
pub mod symbol;
pub mod types;
pub mod diagnostic;
pub mod syntax;
pub mod language_def;
pub mod type_system;
pub mod type_equiv;
pub mod eir;
pub mod lexer;
pub mod ast;
pub mod parser;
pub mod type_checker;
pub mod dsl;
pub mod backend;
pub mod optimizer;
pub mod semantic;
pub mod wasm;
pub mod loops;
pub mod licm;

verus! {

} // verus!
