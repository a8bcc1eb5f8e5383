use vstd::prelude::*;

use crate::component_set::resolve::ComponentSet;
use crate::parse::find_path::ItemPath;
use crate::parse::symbol::{ComponentSymbol, GlobalSymbol, Symbol, SymbolType};
use crate::resolve::function_arg::FnArg;

verus! {

/// A component type, and whether it was declared as a singleton.
#[derive(Debug)]
pub struct ItemComponent {
    pub path: ItemPath,
    pub is_singleton: bool,
}

/// A global, and whether it was declared constant.
#[derive(Debug)]
pub struct ItemGlobal {
    pub path: ItemPath,
    pub is_const: bool,
}

/// An event, and the state whose enter or exit event it is, if any.
#[derive(Debug)]
pub struct ItemEvent {
    pub path: ItemPath,
    pub state: Option<usize>,
}

/// A system function: its path, its arguments, and whether it is an init
/// system.
#[derive(Debug)]
pub struct ItemSystem {
    pub path: ItemPath,
    pub args: Vec<FnArg>,
    pub is_init: bool,
}

/// All items found in the crates.
#[derive(Debug)]
pub struct Items {
    pub components: Vec<ItemComponent>,
    pub globals: Vec<ItemGlobal>,
    pub events: Vec<ItemEvent>,
    pub component_sets: Vec<ComponentSet>,
    pub systems: Vec<ItemSystem>,
}

impl Items {
    pub fn new() -> (r: Self)
        ensures
            r.components@.len() == 0,
            r.globals@.len() == 0,
            r.events@.len() == 0,
            r.component_sets@.len() == 0,
            r.systems@.len() == 0,
    {
        Self {
            components: Vec::new(),
            globals: Vec::new(),
            events: Vec::new(),
            component_sets: Vec::new(),
            systems: Vec::new(),
        }
    }

    /// Records a component; returns its symbol, which points at it by index.
    pub fn add_component(&mut self, comp: ItemComponent) -> (r: Symbol)
        ensures
            final(self).components@ == old(self).components@.push(comp),
            r.kind == (SymbolType::Component(ComponentSymbol { idx: old(self).components@.len() as usize, is_singleton: comp.is_singleton })),
            r.path@ == comp.path.path@,
            r.public,
            final(self).globals == old(self).globals,
            final(self).events == old(self).events,
            final(self).component_sets == old(self).component_sets,
            final(self).systems == old(self).systems,
    {
        let is_singleton = comp.is_singleton;
        let path = comp.path.path.clone();
        self.components.push(comp);
        Symbol {
            kind: SymbolType::Component(ComponentSymbol { idx: self.components.len() - 1, is_singleton }),
            path,
            public: true,
        }
    }

    /// Records a global; returns its symbol.
    pub fn add_global(&mut self, global: ItemGlobal) -> (r: Symbol)
        ensures
            final(self).globals@ == old(self).globals@.push(global),
            r.kind == (SymbolType::Global(GlobalSymbol { idx: old(self).globals@.len() as usize })),
            r.path@ == global.path.path@,
            r.public,
            final(self).components == old(self).components,
            final(self).events == old(self).events,
            final(self).component_sets == old(self).component_sets,
            final(self).systems == old(self).systems,
    {
        let path = global.path.path.clone();
        self.globals.push(global);
        Symbol {
            kind: SymbolType::Global(GlobalSymbol { idx: self.globals.len() - 1 }),
            path,
            public: true,
        }
    }

    /// Records an event; returns its symbol.
    pub fn add_event(&mut self, event: ItemEvent) -> (r: Symbol)
        ensures
            final(self).events@ == old(self).events@.push(event),
            r.kind == SymbolType::Event(old(self).events@.len() as usize),
            r.path@ == event.path.path@,
            r.public,
            final(self).components == old(self).components,
            final(self).globals == old(self).globals,
            final(self).component_sets == old(self).component_sets,
            final(self).systems == old(self).systems,
    {
        let path = event.path.path.clone();
        self.events.push(event);
        Symbol { kind: SymbolType::Event(self.events.len() - 1), path, public: true }
    }

    /// Records an entity set; returns its symbol.
    pub fn add_component_set(&mut self, cs: ComponentSet) -> (r: Symbol)
        ensures
            final(self).component_sets@ == old(self).component_sets@.push(cs),
            r.kind == SymbolType::ComponentSet(old(self).component_sets@.len() as usize),
            r.path@ == cs.path.path@,
            r.public,
            final(self).components == old(self).components,
            final(self).globals == old(self).globals,
            final(self).events == old(self).events,
            final(self).systems == old(self).systems,
    {
        let sym = Symbol {
            kind: SymbolType::ComponentSet(self.component_sets.len()),
            path: cs.path.path.clone(),
            public: true,
        };
        self.component_sets.push(cs);
        sym
    }

    /// Records a system; returns its symbol.
    pub fn add_system(&mut self, sys: ItemSystem) -> (r: Symbol)
        ensures
            final(self).systems@ == old(self).systems@.push(sys),
            r.kind == SymbolType::System(old(self).systems@.len() as usize),
            r.path@ == sys.path.path@,
            r.public,
            final(self).components == old(self).components,
            final(self).globals == old(self).globals,
            final(self).events == old(self).events,
            final(self).component_sets == old(self).component_sets,
    {
        let sym = Symbol {
            kind: SymbolType::System(self.systems.len()),
            path: sys.path.path.clone(),
            public: true,
        };
        self.systems.push(sys);
        sym
    }
}

} // verus!
