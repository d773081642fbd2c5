use vstd::prelude::*;

pub mod answers;
pub mod assoc;
pub mod ast;
pub mod grammar;
pub mod laws;
pub mod memory;
pub mod modules;
pub mod parser;
pub mod runner;
pub mod semantics;
pub mod value;

verus! {
} // verus!
