use vstd::prelude::*;

pub mod codegen;
pub mod component_set;
pub mod parse;
pub mod resolve;

verus! {

} // verus!
