use vstd::prelude::*;

use crate::parse::find_path::strs;
use crate::resolve::paths::{Crate, CratePath};

verus! {

/// A component known to the resolver: its index among all components, and
/// whether it was declared as a singleton.
#[derive(Clone, Copy, Debug, PartialEq, Eq, Structural)]
pub struct ComponentSymbol {
    pub idx: usize,
    pub is_singleton: bool,
}

/// A global (or a trait backed by a global) known to the resolver: its index
/// among all globals.
#[derive(Clone, Copy, Debug, PartialEq, Eq, Structural)]
pub struct GlobalSymbol {
    pub idx: usize,
}

/// The engine items whose paths are fixed.
#[derive(Clone, Copy, Debug, PartialEq, Eq, Structural)]
pub enum HardcodedSymbol {
    // Macros crate
    ComponentMacro,
    GlobalMacro,
    EventMacro,
    StateMacro,
    SystemMacro,
    // Engine crate
    ComponentsMacro,
    Entities,
}

/// The crate, the modules and the identifier of each hardcoded symbol.
pub open spec fn hardcoded_location(sym: HardcodedSymbol) -> (Crate, Seq<Seq<char>>, Seq<char>) {
    match sym {
        HardcodedSymbol::ComponentMacro => (Crate::Macros, Seq::empty(), "component"@),
        HardcodedSymbol::GlobalMacro => (Crate::Macros, Seq::empty(), "global"@),
        HardcodedSymbol::EventMacro => (Crate::Macros, Seq::empty(), "event"@),
        HardcodedSymbol::StateMacro => (Crate::Macros, Seq::empty(), "state"@),
        HardcodedSymbol::SystemMacro => (Crate::Macros, Seq::empty(), "system"@),
        HardcodedSymbol::ComponentsMacro => (Crate::Engine, Seq::empty(), "components"@),
        HardcodedSymbol::Entities => (Crate::Engine, seq!["ecs"@, "systems"@], "Entities"@),
    }
}

/// The name of each hardcoded symbol.
pub open spec fn hardcoded_name(sym: HardcodedSymbol) -> Seq<char> {
    match sym {
        HardcodedSymbol::ComponentMacro => "ComponentMacro"@,
        HardcodedSymbol::GlobalMacro => "GlobalMacro"@,
        HardcodedSymbol::EventMacro => "EventMacro"@,
        HardcodedSymbol::StateMacro => "StateMacro"@,
        HardcodedSymbol::SystemMacro => "SystemMacro"@,
        HardcodedSymbol::ComponentsMacro => "ComponentsMacro"@,
        HardcodedSymbol::Entities => "Entities"@,
    }
}

impl HardcodedSymbol {
    /// The symbol's name.
    pub fn name(&self) -> (r: &'static str)
        ensures
            r@ == hardcoded_name(*self),
    {
        match self {
            HardcodedSymbol::ComponentMacro => "ComponentMacro",
            HardcodedSymbol::GlobalMacro => "GlobalMacro",
            HardcodedSymbol::EventMacro => "EventMacro",
            HardcodedSymbol::StateMacro => "StateMacro",
            HardcodedSymbol::SystemMacro => "SystemMacro",
            HardcodedSymbol::ComponentsMacro => "ComponentsMacro",
            HardcodedSymbol::Entities => "Entities",
        }
    }

    /// Where the symbol is defined.
    pub fn get_path(&self) -> (r: CratePath)
        ensures
            r.cr == hardcoded_location(*self).0,
            strs(r.path@) == hardcoded_location(*self).1,
            r.ident@ == hardcoded_location(*self).2,
    {
        let (cr, ident) = match self {
            HardcodedSymbol::ComponentMacro => (Crate::Macros, "component"),
            HardcodedSymbol::GlobalMacro => (Crate::Macros, "global"),
            HardcodedSymbol::EventMacro => (Crate::Macros, "event"),
            HardcodedSymbol::StateMacro => (Crate::Macros, "state"),
            HardcodedSymbol::SystemMacro => (Crate::Macros, "system"),
            HardcodedSymbol::ComponentsMacro => (Crate::Engine, "components"),
            HardcodedSymbol::Entities => (Crate::Engine, "Entities"),
        };
        let mut path: Vec<String> = Vec::new();
        if let HardcodedSymbol::Entities = self {
            path.push(String::from_str("ecs"));
            path.push(String::from_str("systems"));
        }
        assert(strs(path@) =~= hardcoded_location(*self).1);
        CratePath { cr, path, ident: String::from_str(ident) }
    }
}

/// What a symbol names.
#[derive(Clone, Copy, Debug, PartialEq, Eq, Structural)]
pub enum SymbolType {
    Component(ComponentSymbol),
    Global(GlobalSymbol),
    Trait(GlobalSymbol),
    Event(usize),
    State(usize),
    System(usize),
    ComponentSet(usize),
    Hardcoded(HardcodedSymbol),
}

/// The word that names each kind of symbol in messages.
pub open spec fn kind_name(kind: SymbolType) -> Seq<char> {
    match kind {
        SymbolType::Component(_) => "Component"@,
        SymbolType::Global(_) => "Global"@,
        SymbolType::Trait(_) => "Trait"@,
        SymbolType::Event(_) => "Event"@,
        SymbolType::State(_) => "State"@,
        SymbolType::System(_) => "System"@,
        SymbolType::ComponentSet(_) => "ComponentSet"@,
        SymbolType::Hardcoded(_) => "Hardcoded Path"@,
    }
}

impl SymbolType {
    /// The word that names this kind of symbol in messages.
    pub fn name(&self) -> (r: &'static str)
        ensures
            r@ == kind_name(*self),
    {
        match self {
            SymbolType::Component(_) => "Component",
            SymbolType::Global(_) => "Global",
            SymbolType::Trait(_) => "Trait",
            SymbolType::Event(_) => "Event",
            SymbolType::State(_) => "State",
            SymbolType::System(_) => "System",
            SymbolType::ComponentSet(_) => "ComponentSet",
            SymbolType::Hardcoded(_) => "Hardcoded Path",
        }
    }
}

/// A named item: what it is, and its full path.
#[derive(Debug)]
pub struct Symbol {
    pub kind: SymbolType,
    pub path: Vec<String>,
    pub public: bool,
}

} // verus!
