use parser::component_set::grammar::AstComponentSet;
use parser::component_set::labels::ComponentSetLabels;
use parser::component_set::parse::{AstComponentSetItem, AstLabelItem, GenericArg, LabelOp, TypeShape};
use parser::component_set::resolve::{ComponentSet, ComponentSetItem, LabelItem};
use parser::parse::ast_crate::{AstCrate, AstMod, AstModType, AstUse, ModError};
use parser::parse::find_path::{resolve_path, resolve_path_bounded, resolve_path_from_crate, resolve_path_from_crate_bounded, ItemPath, ResolveError};
use parser::parse::match_symbol::MatchSymbol;
use parser::parse::symbol::{ComponentSymbol, GlobalSymbol, HardcodedSymbol, Symbol, SymbolType};
use parser::resolve::function_arg::{FnArg, FnArgType, SigInput};
use parser::resolve::items::{ItemComponent, ItemEvent, ItemGlobal, ItemSystem, Items};

fn s(v: &[&str]) -> Vec<String> {
    v.iter().map(|x| x.to_string()).collect()
}

fn symbol(kind: SymbolType, path: &[&str]) -> Symbol {
    Symbol { kind, path: s(path), public: true }
}

fn comp(idx: usize, is_singleton: bool) -> SymbolType {
    SymbolType::Component(ComponentSymbol { idx, is_singleton })
}

/// Crate 0 (`game`): the root module defines `Pos` and the set `Movers`,
/// uses `physics::Vel` as `Vel` and everything of the dependency `engine`;
/// its child module `physics` defines `Vel` and the global `Time`.
/// Crate 1 (`engine`): the root defines `Thing`, the trait `Render` and
/// `Entities`.
fn world() -> Vec<AstCrate> {
    let mut root = AstMod::new(0, s(&["crate"]), "crate".to_string(), AstModType::Main);
    root.mods = vec![1];
    root.add_symbol(symbol(comp(0, false), &["crate", "Pos"]));
    root.add_symbol(symbol(SymbolType::ComponentSet(0), &["crate", "Movers"]));
    root.uses.push(AstUse::from(s(&["crate", "physics"]), "Vel".to_string(), false).unwrap());
    root.uses.push(AstUse { ident: "*".to_string(), first: "engine".to_string(), path: s(&["engine"]), public: false });
    let mut physics = AstMod::new(1, s(&["crate", "physics"]), "physics".to_string(), AstModType::File);
    physics.add_symbol(symbol(comp(1, true), &["crate", "physics", "Vel"]));
    physics.add_symbol(symbol(SymbolType::Global(GlobalSymbol { idx: 0 }), &["crate", "physics", "Time"]));
    let game = AstCrate { idx: 0, name: "game".to_string(), main: 0, mods: vec![root, physics], deps: vec![(1, "engine".to_string())] };

    let mut eroot = AstMod::new(0, s(&["crate"]), "crate".to_string(), AstModType::Lib);
    eroot.add_symbol(symbol(comp(2, false), &["crate", "Thing"]));
    eroot.add_symbol(symbol(SymbolType::Trait(GlobalSymbol { idx: 1 }), &["crate", "Render"]));
    eroot.add_symbol(symbol(SymbolType::Hardcoded(HardcodedSymbol::Entities), &["crate", "Entities"]));
    eroot.add_symbol(symbol(SymbolType::Event(3), &["crate", "Tick"]));
    let engine = AstCrate { idx: 1, name: "engine".to_string(), main: 0, mods: vec![eroot], deps: vec![] };
    vec![game, engine]
}

fn resolve_kind(crates: &Vec<AstCrate>, path: &[&str]) -> Result<SymbolType, String> {
    let cr = &crates[0];
    let m = &cr.mods[0];
    resolve_path(s(path), m, cr, crates).map(|sym| sym.kind).map_err(|e| e.message())
}

#[test]
fn resolves_local_use_child_and_dependency_paths() {
    let crates = world();
    assert_eq!(resolve_kind(&crates, &["Pos"]), Ok(comp(0, false)));
    assert_eq!(resolve_kind(&crates, &["Vel"]), Ok(comp(1, true)));
    assert_eq!(resolve_kind(&crates, &["physics", "Vel"]), Ok(comp(1, true)));
    assert_eq!(resolve_kind(&crates, &["crate", "physics", "Time"]), Ok(SymbolType::Global(GlobalSymbol { idx: 0 })));
    assert_eq!(resolve_kind(&crates, &["engine", "Thing"]), Ok(comp(2, false)));
    assert_eq!(resolve_kind(&crates, &["Thing"]), Ok(comp(2, false)));
}

#[test]
fn unresolved_paths() {
    let crates = world();
    assert_eq!(resolve_kind(&crates, &["Nope"]), Err("Could not resolve path: Nope".to_string()));
    assert_eq!(resolve_kind(&crates, &[]), Err("Empty resolve path: ".to_string()));
    assert_eq!(
        resolve_kind(&crates, &["crate", "physics"]),
        Err("Could not resolve path: crate::physics".to_string())
    );
    assert_eq!(
        resolve_kind(&crates, &["crate", "Pos", "x"]),
        Err("Could not resolve path: crate::Pos".to_string())
    );
    let cr = &crates[0];
    let r = resolve_path_from_crate(s(&["engine", "Render"]), cr, &crates).map(|sym| sym.path.clone());
    assert_eq!(r.unwrap(), s(&["crate", "Render"]));
    match resolve_path_from_crate(s(&["other", "X"]), cr, &crates) {
        Err(ResolveError::Unresolved(p)) => assert_eq!(p, s(&["other", "X"])),
        other => panic!("unexpected {:?}", other.map(|sym| sym.path.clone())),
    }
}

#[test]
fn expect_symbol_kinds() {
    let crates = world();
    let cr = &crates[0];
    let m = &cr.mods[0];
    let r = resolve_path(s(&["Pos"]), m, cr, &crates).expect_component();
    assert_eq!(r.map(|(_, c)| c.idx).unwrap(), 0);
    let r = resolve_path(s(&["Pos"]), m, cr, &crates).expect_global();
    assert_eq!(r.map(|_| ()).unwrap_err().message(), "Expected Global but found Component");
    let r = resolve_path(s(&["Thing"]), m, cr, &crates).expect_hardcoded(HardcodedSymbol::Entities);
    assert_eq!(r.map(|_| ()).unwrap_err().message(), "Expected Hardcoded Symbol but found Component");
    let r = resolve_path(s(&["engine", "Entities"]), m, cr, &crates).expect_hardcoded(HardcodedSymbol::SystemMacro);
    assert_eq!(r.map(|_| ()).unwrap_err().message(), "Expected Hardcoded Symbol: 'Entities' but found Hardcoded Path");
    let r = resolve_path(s(&["Nope"]), m, cr, &crates).expect_event();
    assert_eq!(r.map(|_| ()).unwrap_err().message(), "Could not resolve path: Nope");
}

#[test]
fn crate_mod_lookup() {
    let mut crates = world();
    assert_eq!(crates[0].find_mod(&s(&["crate", "physics"])).unwrap().name, "physics");
    assert!(matches!(crates[0].find_mod(&s(&["crate", "x"])), Err(ModError::NoModAtPath(_))));
    assert!(matches!(crates[0].get_mod(5), Err(ModError::NoMod(5))));
    assert_eq!(crates[0].get_main_mod().unwrap().idx, 0);
    crates[0].add_symbol(symbol(SymbolType::Event(7), &["crate", "physics", "Hit"])).unwrap();
    assert_eq!(crates[0].mods[1].symbols.len(), 3);
    assert!(crates[0].add_symbol(symbol(SymbolType::Event(8), &["crate", "nowhere", "Hit"])).is_err());
}

fn item(not: bool, path: &[&str]) -> AstLabelItem {
    AstLabelItem::Item { not, ty: s(path) }
}

#[test]
fn label_items_resolve_to_components() {
    let crates = world();
    let cr = &crates[0];
    let m = &cr.mods[0];
    let ast = AstLabelItem::Expression { op: LabelOp::Or, items: vec![item(false, &["Pos"]), item(true, &["Vel"])] };
    let l = LabelItem::resolve(ast, m, cr, &crates).unwrap();
    assert_eq!(l.to_string(), "(0 || !1)");
    let ast = AstLabelItem::Expression {
        op: LabelOp::And,
        items: vec![item(false, &["Nope"]), item(false, &["physics", "Time"])],
    };
    let errs = LabelItem::resolve(ast, m, cr, &crates).unwrap_err();
    let msgs: Vec<String> = errs.iter().map(|e| e.message()).collect();
    assert_eq!(msgs, vec!["Could not resolve path: Nope".to_string(), "Expected Component but found Global".to_string()]);
}

#[test]
fn component_set_resolution() {
    let crates = world();
    let cr = &crates[0];
    let m = &cr.mods[0];
    let pos = AstComponentSetItem::from("pos".to_string(), &TypeShape::Reference {
        mutable: true,
        elem: Box::new(TypeShape::Path { path: s(&["Pos"]), generics: None }),
    }).unwrap();
    let vel = AstComponentSetItem::from("vel".to_string(), &TypeShape::Path {
        path: s(&["Option"]),
        generics: Some(vec![GenericArg::Type(TypeShape::Path { path: s(&["Vel"]), generics: None })]),
    }).unwrap();
    let cs = AstComponentSet { ident: "Movers".to_string(), args: vec![pos, vel], labels: Some(item(false, &["Pos"])) };
    let (set, warnings) = ComponentSet::resolve(cs, m, cr, &crates).unwrap();
    assert_eq!(set.path, ItemPath::new(0, s(&["crate", "Movers"])));
    assert_eq!(set.args.len(), 2);
    assert_eq!(set.args[0].ty, "Pos");
    assert!(matches!(set.labels, Some(ComponentSetLabels::Constant(true))));
    assert_eq!(warnings, vec!["Label expression is always true".to_string()]);
    assert_eq!(set.first_arg().map(|a| a.var.clone()), Some("pos".to_string()));
    assert!(!set.has_singleton());

    let lone = AstComponentSetItem::from("v".to_string(), &TypeShape::Path { path: s(&["Vel"]), generics: None }).unwrap();
    let cs = AstComponentSet { ident: "Vels".to_string(), args: vec![lone], labels: Some(item(true, &["Pos"])) };
    let (set, warnings) = ComponentSet::resolve(cs, m, cr, &crates).unwrap();
    assert!(warnings.is_empty());
    assert!(set.has_singleton());
    assert_eq!(set.first_arg_label().map(|l| l.comp.idx), Some(1));
    match &set.labels {
        Some(ComponentSetLabels::Expression(e)) => {
            assert_eq!(e.false_symbols.len(), 1);
            assert_eq!(e.false_symbols[0].comp.idx, 0);
        }
        _ => panic!("expected an expression"),
    }

    let bad = AstComponentSetItem::from("t".to_string(), &TypeShape::Path { path: s(&["physics", "Time"]), generics: None }).unwrap();
    let cs = AstComponentSet { ident: "Bad".to_string(), args: vec![bad], labels: Some(item(false, &["Gone"])) };
    let errs = ComponentSet::resolve(cs, m, cr, &crates).unwrap_err();
    let msgs: Vec<String> = errs.iter().map(|e| e.message()).collect();
    assert_eq!(msgs, vec!["Expected Component but found Global".to_string(), "Could not resolve path: Gone".to_string()]);

    let it = AstComponentSetItem::from("p".to_string(), &TypeShape::Path { path: s(&["Pos"]), generics: None }).unwrap();
    let r: ComponentSetItem = ComponentSetItem::resolve(it, m, cr, &crates).unwrap();
    assert_eq!(r.sym.comp.idx, 0);
}

fn path_ty(p: &[&str]) -> TypeShape {
    TypeShape::Path { path: s(p), generics: None }
}

#[test]
fn system_argument_types() {
    let crates = world();
    let cr = &crates[0];
    let m = &cr.mods[0];
    let arg = |t: TypeShape| FnArg::parse_type(&t, m, cr, &crates);
    let a = arg(TypeShape::Reference { mutable: true, elem: Box::new(path_ty(&["physics", "Time"])) }).unwrap();
    assert_eq!((a.ty, a.ref_cnt, a.is_mut), (FnArgType::Global(0), 1, true));
    let a = arg(path_ty(&["engine", "Tick"])).unwrap();
    assert_eq!(a.ty, FnArgType::Event(3));
    let a = arg(path_ty(&["Movers"])).unwrap();
    assert_eq!(a.ty, FnArgType::Entities { idx: 0, is_vec: false });
    let a = arg(TypeShape::Path {
        path: s(&["engine", "Entities"]),
        generics: Some(vec![GenericArg::Type(path_ty(&["Movers"]))]),
    }).unwrap();
    assert_eq!(a.ty, FnArgType::Entities { idx: 0, is_vec: true });
    let a = arg(TypeShape::TraitObject { bounds: vec![Some(s(&["engine", "Render"])), None], text: "dyn engine::Render + 'static".to_string() }).unwrap();
    assert_eq!(a.ty, FnArgType::Global(1));

    assert_eq!(arg(path_ty(&["Pos"])).unwrap_err(), vec!["Invalid argument type: crate::Pos".to_string()]);
    assert_eq!(arg(path_ty(&["engine", "Entities"])).unwrap_err(), vec!["Invalid argument type: crate::Entities".to_string()]);
    assert_eq!(
        arg(TypeShape::TraitObject { bounds: vec![Some(s(&["Send"])), Some(s(&["Sync"]))], text: "dyn Send + Sync".to_string() }).unwrap_err(),
        vec!["Trait arguments may only have one trait type: dyn Send + Sync".to_string()]
    );
    assert_eq!(arg(TypeShape::Other("[u8; 4]".to_string())).unwrap_err(), vec!["Invalid argument type: [u8; 4]".to_string()]);
    assert_eq!(arg(path_ty(&["Gone"])).unwrap_err(), vec!["Could not resolve path: Gone".to_string()]);

    let inputs = vec![SigInput::Receiver, SigInput::Typed(path_ty(&["Movers"])), SigInput::Typed(path_ty(&["Pos"]))];
    let errs = FnArg::parse(&inputs, &"update".to_string(), m, cr, &crates).unwrap_err();
    assert_eq!(errs, vec![
        "In system: 'crate::update':".to_string(),
        "Cannot use self in function".to_string(),
        "Invalid argument type: crate::Pos".to_string(),
    ]);
    let inputs = vec![SigInput::Typed(path_ty(&["Movers"]))];
    assert_eq!(FnArg::parse(&inputs, &"update".to_string(), m, cr, &crates).unwrap().len(), 1);
}

#[test]
fn items_hand_out_indices_in_order() {
    let mut items = Items::new();
    let a = items.add_component(ItemComponent { path: ItemPath::new(0, s(&["crate", "A"])), is_singleton: false });
    let b = items.add_component(ItemComponent { path: ItemPath::new(1, s(&["crate", "B"])), is_singleton: true });
    assert_eq!(a.kind, comp(0, false));
    assert_eq!(b.kind, comp(1, true));
    assert_eq!(b.path, s(&["crate", "B"]));
    assert!(b.public);
    let g = items.add_global(ItemGlobal { path: ItemPath::new(0, s(&["crate", "G"])), is_const: true });
    assert_eq!(g.kind, SymbolType::Global(GlobalSymbol { idx: 0 }));
    items.add_event(ItemEvent { path: ItemPath::new(0, s(&["crate", "E0"])), state: None });
    let e = items.add_event(ItemEvent { path: ItemPath::new(0, s(&["crate", "E1"])), state: Some(2) });
    assert_eq!(e.kind, SymbolType::Event(1));
    let sys = items.add_system(ItemSystem { path: ItemPath::new(0, s(&["crate", "f"])), args: Vec::new(), is_init: false });
    assert_eq!(sys.kind, SymbolType::System(0));
    assert_eq!(sys.path, s(&["crate", "f"]));
    let set = ComponentSet { path: ItemPath::new(0, s(&["crate", "S"])), args: Vec::new(), labels: None };
    let cs = items.add_component_set(set);
    assert_eq!(cs.kind, SymbolType::ComponentSet(0));
    assert_eq!(items.components.len(), 2);
    assert_eq!(items.globals.len(), 1);
    assert_eq!(items.events.len(), 2);
    assert_eq!(items.systems.len(), 1);
    assert_eq!(items.component_sets.len(), 1);
}

#[test]
fn label_expressions_are_written_back() {
    let e = AstLabelItem::Expression {
        op: LabelOp::And,
        items: vec![
            AstLabelItem::Item { not: true, ty: s(&["a", "B"]) },
            AstLabelItem::Expression {
                op: LabelOp::Or,
                items: vec![AstLabelItem::Item { not: false, ty: s(&["C"]) }, AstLabelItem::Item { not: false, ty: s(&["D"]) }],
            },
        ],
    };
    assert_eq!(e.to_string(), "(!a::B && (C || D))");
    assert_eq!(AstLabelItem::Expression { op: LabelOp::Or, items: vec![] }.to_string(), "()");
}

#[test]
fn bounded_resolution_stops_when_steps_run_out() {
    let crates = world();
    let cr = &crates[0];
    let m = &cr.mods[0];
    assert!(resolve_path_bounded(s(&["Thing"]), m, cr, &crates, 0).is_none());
    assert!(resolve_path_bounded(s(&["Thing"]), m, cr, &crates, 1).is_none());
    let found = resolve_path_bounded(s(&["Thing"]), m, cr, &crates, 50).unwrap().map(|sym| sym.kind).map_err(|e| e.message());
    assert_eq!(found, Ok(comp(2, false)));
    let abs = resolve_path_from_crate_bounded(s(&["engine", "Tick"]), cr, &crates, 50).unwrap().map(|sym| sym.kind).map_err(|e| e.message());
    assert_eq!(abs, Ok(SymbolType::Event(3)));
    // a module whose glob `use` names its own crate root loops without a bound
    let mut looping = AstMod::new(0, s(&["crate"]), "crate".to_string(), AstModType::Main);
    looping.uses.push(AstUse { ident: "X".to_string(), first: "crate".to_string(), path: s(&["crate", "X"]), public: false });
    let lone = AstCrate { idx: 0, name: "lone".to_string(), main: 0, mods: vec![looping], deps: vec![] };
    let lone_crates = vec![lone];
    assert!(resolve_path_bounded(s(&["X"]), &lone_crates[0].mods[0], &lone_crates[0], &lone_crates, 200).is_none());
}
