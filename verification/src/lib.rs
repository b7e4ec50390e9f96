use vstd::prelude::*;

pub mod allocator;
pub mod array;
pub mod ast;
pub mod bits;
pub mod branches;
pub mod bytearray;
pub mod cli;
pub mod closure;
pub mod dict;
pub mod codegen;
pub mod gc;
pub mod heap;
pub mod host;
pub mod ids;
pub mod insns;
pub mod lexer;
pub mod methods;
pub mod object;
pub mod parser;
pub mod paths;
pub mod runtime;
pub mod str;
pub mod symbols;
pub mod utils;
pub mod value;
pub mod vm;

verus! {

} // verus!
