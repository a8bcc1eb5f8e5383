use parser::parse::ast_crate::{AstCrate, AstMod, AstModType};
use parser::parse::ast_mod::{ItemKind, ParsedItem};
use parser::parse::attributes::AstAttribute;
use parser::parse::symbol::{ComponentSymbol, GlobalSymbol, HardcodedSymbol, Symbol, SymbolType};
use parser::resolve::function_arg::SigInput;
use parser::resolve::item_macros::{find_item_macros, find_system_fns};
use parser::resolve::items::Items;

fn s(v: &[&str]) -> Vec<String> {
    v.iter().map(|x| x.to_string()).collect()
}

fn crates() -> Vec<AstCrate> {
    let root = AstMod::new(0, s(&["crate"]), "crate".to_string(), AstModType::Main);
    let game = AstCrate { idx: 0, name: "game".to_string(), main: 0, mods: vec![root], deps: vec![(1, "macros".to_string())] };
    let mut mroot = AstMod::new(0, s(&["crate"]), "crate".to_string(), AstModType::Lib);
    for (h, name) in [
        (HardcodedSymbol::ComponentMacro, "component"),
        (HardcodedSymbol::GlobalMacro, "global"),
        (HardcodedSymbol::EventMacro, "event"),
        (HardcodedSymbol::StateMacro, "state"),
        (HardcodedSymbol::SystemMacro, "system"),
    ] {
        mroot.add_symbol(Symbol { kind: SymbolType::Hardcoded(h), path: s(&["crate", name]), public: true });
    }
    let macros = AstCrate { idx: 1, name: "macros".to_string(), main: 0, mods: vec![mroot], deps: vec![] };
    vec![game, macros]
}

fn kept_item(kind: ItemKind, name: &str, attrs: &[&[&str]]) -> ParsedItem {
    ParsedItem {
        kind,
        ident: name.to_string(),
        path: s(&["crate", name]),
        attrs: attrs.iter().map(|p| AstAttribute { path: s(p), args: vec![] }).collect(),
        inputs: vec![],
    }
}

fn kept() -> Vec<ParsedItem> {
    vec![
        kept_item(ItemKind::Enum, "E", &[&["macros", "event"]]),
        kept_item(ItemKind::Struct, "A", &[&["other"], &["macros", "component"]]),
        kept_item(ItemKind::Struct, "G", &[&["macros", "global"]]),
        kept_item(ItemKind::Struct, "S", &[&["macros", "state"]]),
        kept_item(ItemKind::Fn, "f", &[&["macros", "component"]]),
        kept_item(ItemKind::Struct, "Sys", &[&["macros", "system"]]),
    ]
}

#[test]
fn item_macros_found_structs_first() {
    let crates = crates();
    let found = find_item_macros(&kept(), &crates[0].mods[0], &crates[0], &crates, 16).unwrap();
    assert_eq!(found, vec![
        (1, 1, HardcodedSymbol::ComponentMacro),
        (2, 0, HardcodedSymbol::GlobalMacro),
        (3, 0, HardcodedSymbol::StateMacro),
        (0, 0, HardcodedSymbol::EventMacro),
    ]);
    assert!(find_item_macros(&kept(), &crates[0].mods[0], &crates[0], &crates, 0).is_none());
}

#[test]
fn module_items_recorded_with_symbols() {
    let crates = crates();
    let flags = vec![vec![false], vec![false, true], vec![true], vec![false], vec![false], vec![false]];
    let mut items = Items::new();
    let (syms, states) = items
        .resolve_module_items(&kept(), &flags, &crates[0].mods[0], &crates[0], &crates, 16)
        .unwrap();
    assert_eq!(items.components.len(), 1);
    assert!(items.components[0].is_singleton);
    assert_eq!(items.components[0].path.path, s(&["crate", "A"]));
    assert_eq!(items.globals.len(), 1);
    assert!(items.globals[0].is_const);
    assert_eq!(items.events.len(), 1);
    assert_eq!(items.events[0].path.path, s(&["crate", "E"]));
    assert_eq!(syms.len(), 3);
    assert_eq!(syms[0].kind, SymbolType::Component(ComponentSymbol { idx: 0, is_singleton: true }));
    assert_eq!(syms[1].kind, SymbolType::Global(GlobalSymbol { idx: 0 }));
    assert_eq!(syms[2].kind, SymbolType::Event(0));
    assert_eq!(syms[2].path, s(&["crate", "E"]));
    assert_eq!(states, vec![3]);
}

#[test]
fn system_functions_found_and_recorded() {
    let crates = crates();
    let mut run = kept_item(ItemKind::Fn, "run", &[&["other"], &["macros", "system"]]);
    run.inputs = vec![];
    let mut bad = kept_item(ItemKind::Fn, "bad", &[&["macros", "system"]]);
    bad.inputs = vec![SigInput::Receiver];
    let kept = vec![
        kept_item(ItemKind::Struct, "Sys", &[&["macros", "system"]]),
        run,
        kept_item(ItemKind::Fn, "plain", &[&["macros", "component"]]),
        bad,
    ];
    let m = &crates[0].mods[0];
    let found = find_system_fns(&kept, m, &crates[0], &crates, 16).unwrap();
    assert_eq!(found, vec![(1, 1), (3, 0)]);
    let flags = vec![vec![false], vec![false, true], vec![false], vec![false]];
    let mut items = Items::new();
    let (syms, errs) = items.add_found_systems(&kept, &found, &flags, m, &crates[0], &crates);
    assert_eq!(items.systems.len(), 1);
    assert!(items.systems[0].is_init);
    assert!(items.systems[0].args.is_empty());
    assert_eq!(items.systems[0].path.path, s(&["crate", "run"]));
    assert_eq!(syms.len(), 1);
    assert_eq!(syms[0].kind, SymbolType::System(0));
    assert_eq!(errs, vec!["In system: 'crate::bad':".to_string(), "Cannot use self in function".to_string()]);
}
