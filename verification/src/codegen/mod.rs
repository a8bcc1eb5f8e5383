pub mod ast_codegen;
pub mod component_set;
pub mod crate_paths;
pub mod entry;
pub mod manager;
pub mod system;
pub mod traits;

use vstd::prelude::*;

verus! {

/// The code generator.
pub struct Codegen;

} // verus!
