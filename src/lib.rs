//! A compiler for Runefiles, the descriptions of tinyML pipelines: the
//! parser, the tensor shape model, the dependency path resolver, the
//! lowering to a checked pipeline graph, and the generators of the package
//! manifest and of the pipeline source.
use vstd::prelude::*;

pub mod text;
pub mod shape;
pub mod ast;
pub mod deps;
pub mod manifest;
pub mod lower;
pub mod codegen;
pub mod builtins;
pub mod parser;
pub mod compile;

verus! {

} // verus!
