use vstd::prelude::*;

pub mod text;
pub mod table;
pub mod numbers;
pub mod assembler;
pub mod hack_tables;
pub mod hack_cpu;
pub mod args;
pub mod tokenizer;
pub mod writer;
pub mod symbol;
pub mod compile;
pub mod compile_model;
pub mod compile_shapes;

verus! {

} // verus!
