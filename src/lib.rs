//! A lexer and parser for the REDLINE language, with the token stream and the
//! syntax tree each stated as a function of the input and proved.
use vstd::prelude::*;

pub mod text;
pub mod ast;
pub mod token;
pub mod lexer;
pub mod grammar;
pub mod parser;
pub mod laws;
pub mod brackets;

verus! {

broadcast use vstd::std_specs::vec::group_vec_axioms;

} // verus!
