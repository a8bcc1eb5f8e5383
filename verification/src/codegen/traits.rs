use vstd::prelude::*;

use crate::parse::find_path::ItemPath;
use crate::resolve::items::{ItemComponent, ItemEvent};

verus! {

/// Items that give the paths of the types an engine trait is implemented for.
pub trait GetTraitTypes {
    fn get_paths(&self) -> Vec<&ItemPath>;
}

impl GetTraitTypes for Vec<ItemComponent> {
    /// The paths of the components, in order.
    fn get_paths(&self) -> (r: Vec<&ItemPath>)
        ensures
            r@.len() == self@.len(),
            forall|i: int| 0 <= i < self@.len() ==> *(#[trigger] r@[i]) == self@[i].path,
    {
        let mut r: Vec<&ItemPath> = Vec::new();
        let mut i: usize = 0;
        while i < self.len()
            invariant
                i <= self@.len(),
                r@.len() == i,
                forall|j: int| 0 <= j < i ==> *(#[trigger] r@[j]) == self@[j].path,
            decreases self@.len() - i,
        {
            r.push(&self[i].path);
            i = i + 1;
        }
        r
    }
}

impl GetTraitTypes for Vec<ItemEvent> {
    /// The paths of the events, in order.
    fn get_paths(&self) -> (r: Vec<&ItemPath>)
        ensures
            r@.len() == self@.len(),
            forall|i: int| 0 <= i < self@.len() ==> *(#[trigger] r@[i]) == self@[i].path,
    {
        let mut r: Vec<&ItemPath> = Vec::new();
        let mut i: usize = 0;
        while i < self.len()
            invariant
                i <= self@.len(),
                r@.len() == i,
                forall|j: int| 0 <= j < i ==> *(#[trigger] r@[j]) == self@[j].path,
            decreases self@.len() - i,
        {
            r.push(&self[i].path);
            i = i + 1;
        }
        r
    }
}

} // verus!
