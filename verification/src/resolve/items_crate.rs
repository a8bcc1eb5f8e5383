use vstd::prelude::*;

verus! {

/// A dependency of a resolved crate: its crate index and its alias.
#[derive(Debug)]
pub struct ItemsCrateDependency {
    pub cr_idx: usize,
    pub cr_alias: String,
}

/// How many items of each kind a crate defines.
#[derive(Debug, Clone, Copy, PartialEq, Eq, Structural)]
pub struct AstSymbolCounts {
    pub component_cnt: usize,
    pub global_cnt: usize,
    pub event_cnt: usize,
    pub component_set_cnt: usize,
}

} // verus!
