use vstd::prelude::*;

pub mod ast;
pub mod text;
pub mod lexer;
pub mod grammar;
pub mod parser;
pub mod semantics;
pub mod interpreter;

verus! {

} // verus!
