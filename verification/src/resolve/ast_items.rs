use vstd::prelude::*;

use crate::component_set::resolve::ComponentSet;
use crate::parse::find_path::{strings_equal, strs, ItemPath};
use crate::resolve::items::{ItemComponent, ItemEvent, ItemGlobal, ItemSystem};

verus! {

/// A trait declared for the engine, with the index of the global that
/// backs it.
#[derive(Debug)]
pub struct Trait {
    pub path: ItemPath,
    pub g_idx: usize,
}

/// An event type.
#[derive(Debug)]
pub struct Event {
    pub path: ItemPath,
}

/// A dependency of a crate: its crate index and the alias it is used by.
#[derive(Debug)]
pub struct Dependency {
    pub cr_idx: usize,
    pub cr_alias: String,
}

/// A crate after resolution: where it is, its name and index, the items it
/// defines, and its dependencies.
#[derive(Debug)]
pub struct ItemsCrate {
    pub dir: String,
    pub cr_name: String,
    pub cr_idx: usize,
    pub components: Vec<ItemComponent>,
    pub globals: Vec<ItemGlobal>,
    pub traits: Vec<Trait>,
    pub events: Vec<Event>,
    pub systems: Vec<ItemSystem>,
    pub dependencies: Vec<Dependency>,
    pub component_sets: Vec<ComponentSet>,
}

/// The position of the first path of `paths`, from `k` on, equal to `p`
/// (with `whole`), or with the same segments (without).
pub open spec fn first_path(paths: Seq<ItemPath>, p: ItemPath, whole: bool, k: int) -> Option<int>
    decreases paths.len() - k,
{
    if k < 0 || k >= paths.len() {
        None
    } else if strs(paths[k].path@) == strs(p.path@) && (!whole || paths[k].cr_idx == p.cr_idx) {
        Some(k)
    } else {
        first_path(paths, p, whole, k + 1)
    }
}

fn same_path(a: &ItemPath, b: &ItemPath, whole: bool) -> (r: bool)
    ensures
        r == (strs(a.path@) == strs(b.path@) && (!whole || a.cr_idx == b.cr_idx)),
{
    (!whole || a.cr_idx == b.cr_idx) && strings_equal(&a.path, &b.path)
}

impl ItemsCrate {
    /// A crate with no name, no items and no dependencies.
    pub fn new() -> (r: Self)
        ensures
            r.dir@.len() == 0,
            r.cr_name@.len() == 0,
            r.cr_idx == 0,
            r.components@.len() == 0,
            r.globals@.len() == 0,
            r.traits@.len() == 0,
            r.events@.len() == 0,
            r.systems@.len() == 0,
            r.dependencies@.len() == 0,
            r.component_sets@.len() == 0,
    {
        Self {
            dir: String::new(),
            cr_name: String::new(),
            cr_idx: 0,
            components: Vec::new(),
            globals: Vec::new(),
            traits: Vec::new(),
            events: Vec::new(),
            systems: Vec::new(),
            dependencies: Vec::new(),
            component_sets: Vec::new(),
        }
    }

    /// The first component with path `p`, and its index.
    pub fn find_component(&self, p: &ItemPath) -> (r: Option<(usize, &ItemComponent)>)
        ensures
            match first_path(self.components@.map_values(|c: ItemComponent| c.path), *p, true, 0) {
                Some(i) => r matches Some((j, c)) && j == i && *c == self.components@[i],
                None => r is None,
            },
    {
        let ghost ps = self.components@.map_values(|c: ItemComponent| c.path);
        let mut i: usize = 0;
        while i < self.components.len()
            invariant
                i <= self.components@.len(),
                ps == self.components@.map_values(|c: ItemComponent| c.path),
                first_path(ps, *p, true, 0) == first_path(ps, *p, true, i as int),
            decreases self.components@.len() - i,
        {
            if same_path(&self.components[i].path, p, true) {
                return Some((i, &self.components[i]));
            }
            i = i + 1;
        }
        None
    }

    /// The first global with path `p`, and its index.
    pub fn find_global(&self, p: &ItemPath) -> (r: Option<(usize, &ItemGlobal)>)
        ensures
            match first_path(self.globals@.map_values(|g: ItemGlobal| g.path), *p, true, 0) {
                Some(i) => r matches Some((j, g)) && j == i && *g == self.globals@[i],
                None => r is None,
            },
    {
        let ghost ps = self.globals@.map_values(|g: ItemGlobal| g.path);
        let mut i: usize = 0;
        while i < self.globals.len()
            invariant
                i <= self.globals@.len(),
                ps == self.globals@.map_values(|g: ItemGlobal| g.path),
                first_path(ps, *p, true, 0) == first_path(ps, *p, true, i as int),
            decreases self.globals@.len() - i,
        {
            if same_path(&self.globals[i].path, p, true) {
                return Some((i, &self.globals[i]));
            }
            i = i + 1;
        }
        None
    }

    /// The first trait whose path has the segments of `p` (in any crate),
    /// and its index.
    pub fn find_trait(&self, p: &ItemPath) -> (r: Option<(usize, &Trait)>)
        ensures
            match first_path(self.traits@.map_values(|t: Trait| t.path), *p, false, 0) {
                Some(i) => r matches Some((j, t)) && j == i && *t == self.traits@[i],
                None => r is None,
            },
    {
        let ghost ps = self.traits@.map_values(|t: Trait| t.path);
        let mut i: usize = 0;
        while i < self.traits.len()
            invariant
                i <= self.traits@.len(),
                ps == self.traits@.map_values(|t: Trait| t.path),
                first_path(ps, *p, false, 0) == first_path(ps, *p, false, i as int),
            decreases self.traits@.len() - i,
        {
            if same_path(&self.traits[i].path, p, false) {
                return Some((i, &self.traits[i]));
            }
            i = i + 1;
        }
        None
    }

    /// The first event with path `p`, and its index.
    pub fn find_event(&self, p: &ItemPath) -> (r: Option<(usize, &Event)>)
        ensures
            match first_path(self.events@.map_values(|e: Event| e.path), *p, true, 0) {
                Some(i) => r matches Some((j, e)) && j == i && *e == self.events@[i],
                None => r is None,
            },
    {
        let ghost ps = self.events@.map_values(|e: Event| e.path);
        let mut i: usize = 0;
        while i < self.events.len()
            invariant
                i <= self.events@.len(),
                ps == self.events@.map_values(|e: Event| e.path),
                first_path(ps, *p, true, 0) == first_path(ps, *p, true, i as int),
            decreases self.events@.len() - i,
        {
            if same_path(&self.events[i].path, p, true) {
                return Some((i, &self.events[i]));
            }
            i = i + 1;
        }
        None
    }

    /// The first entity set with path `p`, and its index.
    pub fn find_component_set(&self, p: &ItemPath) -> (r: Option<(usize, &ComponentSet)>)
        ensures
            match first_path(self.component_sets@.map_values(|c: ComponentSet| c.path), *p, true, 0) {
                Some(i) => r matches Some((j, c)) && j == i && *c == self.component_sets@[i],
                None => r is None,
            },
    {
        let ghost ps = self.component_sets@.map_values(|c: ComponentSet| c.path);
        let mut i: usize = 0;
        while i < self.component_sets.len()
            invariant
                i <= self.component_sets@.len(),
                ps == self.component_sets@.map_values(|c: ComponentSet| c.path),
                first_path(ps, *p, true, 0) == first_path(ps, *p, true, i as int),
            decreases self.component_sets@.len() - i,
        {
            if same_path(&self.component_sets[i].path, p, true) {
                return Some((i, &self.component_sets[i]));
            }
            i = i + 1;
        }
        None
    }
}

} // verus!
