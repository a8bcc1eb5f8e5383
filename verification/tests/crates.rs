use parser::codegen::ast_codegen::GetPostOrder;
use parser::codegen::crate_paths::{is_acyclic, CratePaths, Crates, CratesError};
use parser::codegen::entry::{code_file, entry_codegen_plan, events_plan, index_file_text, namespace_layout};
use parser::resolve::constants::{component_set_var, component_var, event_var, event_variant, global_var};
use parser::parse::find_path::ItemPath;
use parser::parse::symbol::{HardcodedSymbol, SymbolType};
use parser::resolve::paths::{Crate, CratePath};
use parser::parse::ast_crate::{resolve_local_uses, AstCrate, AstMod, AstModType, AstUse, FoundDependency, NewMod};
use parser::resolve::ast_items::{Dependency, Event, ItemsCrate, Trait};
use parser::resolve::items::{ItemComponent, ItemEvent, ItemGlobal};
use parser::resolve::parse_macro_call::{parse_macro_calls, update_macro_calls, MacroCalls, ParseMacroCall};

fn s(v: &[&str]) -> Vec<String> {
    v.iter().map(|x| x.to_string()).collect()
}

fn krate(idx: usize, deps: &[(usize, &str)]) -> AstCrate {
    AstCrate {
        idx,
        name: format!("c{idx}"),
        main: 0,
        mods: vec![AstMod::new(0, s(&["crate"]), "crate".to_string(), AstModType::Lib)],
        deps: deps.iter().map(|(i, a)| (*i, a.to_string())).collect(),
    }
}

/// 0 -> 1 (alias "long_engine_name"), 0 -> 2 ("b"), 2 -> 1 ("e"), 1 -> 3 ("m")
fn graph() -> Vec<AstCrate> {
    vec![
        krate(0, &[(1, "long_engine_name"), (2, "b")]),
        krate(1, &[(3, "m")]),
        krate(2, &[(1, "e")]),
        krate(3, &[]),
    ]
}

#[test]
fn paths_from_the_entry_crate() {
    let paths = CratePaths::new(&graph());
    assert_eq!(paths.get_path(0, 0), Some(s(&["crate"])));
    // a direct dependency is named by its alias
    assert_eq!(paths.get_path(0, 1), Some(s(&["long_engine_name"])));
    assert_eq!(paths.get_path(0, 2), Some(s(&["b"])));
    // the shortest path in bytes wins: b::_engine::e::_engine::m is shorter
    // than long_engine_name::_engine::m
    assert_eq!(paths.get_path(0, 3), Some(s(&["b", "_engine", "e", "_engine", "m"])));
    // out of range
    assert_eq!(paths.get_path(0, 9), None);
    assert_eq!(paths.get_path(9, 0), None);
}

#[test]
fn rows_filled_during_the_search() {
    let paths = CratePaths::new(&graph());
    // crate 2's row was filled while looking for crate 3
    assert_eq!(paths.get_path(2, 3), Some(s(&["e", "_engine", "m"])));
    assert_eq!(paths.get_path(2, 0), None);
}

#[test]
fn unreachable_crate_has_no_path() {
    let crates = vec![krate(0, &[]), krate(1, &[])];
    let paths = CratePaths::new(&crates);
    assert_eq!(paths.get_path(0, 1), None);
    assert_eq!(paths.prepend_path(0, 1, &s(&["x"])), None);
}

#[test]
fn prepend_replaces_crate() {
    let paths = CratePaths::new(&graph());
    assert_eq!(paths.prepend_path(0, 2, &s(&["crate", "comps", "Pos"])), Some(s(&["b", "comps", "Pos"])));
    assert_eq!(paths.prepend_path(0, 2, &s(&["comps", "Pos"])), Some(s(&["b", "comps", "Pos"])));
    assert_eq!(paths.prepend_path(0, 0, &s(&["crate", "X"])), Some(s(&["crate", "X"])));
}

fn items_crate(idx: usize, deps: &[usize]) -> ItemsCrate {
    let mut cr = ItemsCrate::new();
    cr.cr_name = format!("c{idx}");
    cr.cr_idx = idx;
    cr.dependencies = deps.iter().map(|d| Dependency { cr_idx: *d, cr_alias: format!("c{d}") }).collect();
    cr
}

#[test]
fn post_order_puts_dependencies_first() {
    let crates = vec![items_crate(0, &[1, 2]), items_crate(1, &[3]), items_crate(2, &[1, 3]), items_crate(3, &[])];
    assert_eq!(crates.get_post_order(), vec![3, 1, 2, 0]);
    let mut list = vec![3];
    crates.get_post_order_impl(&mut list, 2);
    assert_eq!(list, vec![3, 1, 2]);
    let single = vec![items_crate(0, &[])];
    assert_eq!(single.get_post_order(), vec![0]);
}

#[test]
fn dependency_indices() {
    let dirs = s(&["/a", "/b"]);
    let deps = vec![
        FoundDependency { name: "b".to_string(), path: "../b".to_string(), dir: "/b".to_string() },
        FoundDependency { name: "c".to_string(), path: "../c".to_string(), dir: "/c".to_string() },
        FoundDependency { name: "a".to_string(), path: "..".to_string(), dir: "/a".to_string() },
        FoundDependency { name: "d".to_string(), path: "d".to_string(), dir: "/d".to_string() },
    ];
    let (idxs, new_deps) = AstCrate::get_crate_dependencies(&dirs, deps);
    assert_eq!(idxs, vec![(1, "b".to_string()), (2, "c".to_string()), (0, "a".to_string()), (3, "d".to_string())]);
    assert_eq!(new_deps, s(&["../c", "d"]));
}

fn new_mod(name: &str, mods: Vec<NewMod>) -> NewMod {
    NewMod { name: name.to_string(), mods, uses: Vec::new(), symbols: Vec::new() }
}

#[test]
fn add_mod_numbers_children_first() {
    let mut root = AstMod::new(0, s(&["crate"]), "crate".to_string(), AstModType::Lib);
    let tree = new_mod("a", vec![new_mod("b", vec![new_mod("c", Vec::new())]), new_mod("d", Vec::new())]);
    let mods = root.add_mod(5, tree);
    let names: Vec<&str> = mods.iter().map(|m| m.name.as_str()).collect();
    assert_eq!(names, vec!["c", "b", "d", "a"]);
    let idxs: Vec<usize> = mods.iter().map(|m| m.idx).collect();
    assert_eq!(idxs, vec![5, 6, 7, 8]);
    assert_eq!(root.mods, vec![8]);
    assert_eq!(mods[3].mods, vec![6, 7]);
    assert_eq!(mods[1].mods, vec![5]);
    assert_eq!(mods[0].path, s(&["crate", "a", "b", "c"]));
    assert_eq!(mods[3].ty, AstModType::Internal);
}

#[test]
fn crates_store_the_entry_row_at_the_main_crate() {
    let crates = Crates::new(graph(), [0, 1, 3]).unwrap();
    assert_eq!(crates.get_crate_index(Crate::Engine), 1);
    assert_eq!(crates.get_crate_index(Crate::Macros), 3);
    assert_eq!(crates.get_crate_path(0, 3), Some(s(&["b", "_engine", "e", "_engine", "m"])));
    assert_eq!(crates.get_named_crate_path(0, Crate::Engine), Some(s(&["long_engine_name"])));
    assert_eq!(crates.get_crate_path(2, 3), Some(s(&["e", "_engine", "m"])));
    assert_eq!(crates.get_crates().len(), 4);
    assert_eq!(crates.get(2).map(|c| c.idx), Some(2));
    assert!(crates.get(4).is_none());
    assert_eq!(crates.get_crate(Crate::Macros).map(|c| c.idx), Ok(3));
    assert!(matches!(Crates::new(graph(), [7, 1, 3]), Err(CratesError::NoCrate(7))));
}

#[test]
fn crate_paths_skip_blocked_crates() {
    let crates = Crates::new(graph(), [0, 1, 3]).unwrap();
    let paths = crates.get_crate_paths(0, [3]).unwrap();
    assert_eq!(paths.iter().map(|(i, _)| *i).collect::<Vec<_>>(), vec![0, 1, 2]);
    assert_eq!(paths[1].1, s(&["long_engine_name"]));
    // crate 1's row was filled during the search: it names only itself
    // among the crates that are not blocked
    assert_eq!(crates.get_crate_paths(1, [3]), Ok(vec![(1, s(&["crate"]))]));
    assert_eq!(crates.get_crate_paths(9, [3]), Err(CratesError::NoCrate(9)));
    assert_eq!(crates.iter_except([1, 3]), vec![0, 2]);
}

#[test]
fn item_paths_through_crates() {
    let crates = Crates::new(graph(), [0, 1, 3]).unwrap();
    let item = ItemPath::new(2, s(&["crate", "comps", "Pos"]));
    assert_eq!(crates.get_item_path(0, &item), Ok(s(&["b", "comps", "Pos"])));
    let far = ItemPath::new(0, s(&["X"]));
    assert_eq!(crates.get_item_path(3, &far), Err("No path from crate 3 to crate 0".to_string()));
    let fixed = CratePath { cr: Crate::Engine, path: s(&["ecs"]), ident: "Entities".to_string() };
    assert_eq!(crates.get_path(0, &fixed), Ok(s(&["long_engine_name", "ecs", "Entities"])));
}

#[test]
fn hardcoded_symbols_go_to_their_crate() {
    let mut crates = Crates::new(graph(), [0, 1, 3]).unwrap();
    assert_eq!(AstCrate::add_hardcoded_symbol(&mut crates, HardcodedSymbol::ComponentMacro), Ok(()));
    let macros = crates.get_crate(Crate::Macros).unwrap();
    assert_eq!(macros.mods[0].symbols.len(), 1);
    assert_eq!(macros.mods[0].symbols[0].kind, SymbolType::Hardcoded(HardcodedSymbol::ComponentMacro));
    assert_eq!(macros.mods[0].symbols[0].path, s(&["crate", "component"]));
    // Entities lives in crate::ecs::systems, a module the engine crate lacks
    assert_eq!(AstCrate::add_hardcoded_symbol(&mut crates, HardcodedSymbol::Entities), Ok(()));
    assert!(crates.get_crate(Crate::Engine).unwrap().mods[0].symbols.is_empty());
    let mut bad = Crates::new(graph(), [0, 1, 8]).unwrap();
    assert_eq!(AstCrate::add_hardcoded_symbol(&mut bad, HardcodedSymbol::SystemMacro), Err(CratesError::NoCrate(8)));
    if let Some(c) = crates.get_mut(2) {
        c.name = "renamed".to_string();
    }
    assert_eq!(crates.get(2).unwrap().name, "renamed");
}

#[test]
fn items_crate_lookups() {
    let mut cr = ItemsCrate::new();
    assert!(cr.cr_name.is_empty() && cr.components.is_empty() && cr.dependencies.is_empty());
    cr.components.push(ItemComponent { path: ItemPath::new(0, s(&["crate", "A"])), is_singleton: false });
    cr.components.push(ItemComponent { path: ItemPath::new(1, s(&["crate", "A"])), is_singleton: true });
    cr.globals.push(ItemGlobal { path: ItemPath::new(0, s(&["crate", "G"])), is_const: false });
    cr.traits.push(Trait { path: ItemPath::new(0, s(&["crate", "T"])), g_idx: 0 });
    cr.events.push(Event { path: ItemPath::new(2, s(&["crate", "E"])) });
    let (i, c) = cr.find_component(&ItemPath::new(1, s(&["crate", "A"]))).unwrap();
    assert_eq!(i, 1);
    assert!(c.is_singleton);
    assert!(cr.find_component(&ItemPath::new(2, s(&["crate", "A"]))).is_none());
    assert_eq!(cr.find_global(&ItemPath::new(0, s(&["crate", "G"]))).map(|(i, _)| i), Some(0));
    // traits are matched by their segments alone
    assert_eq!(cr.find_trait(&ItemPath::new(5, s(&["crate", "T"]))).map(|(_, t)| t.g_idx), Some(0));
    assert_eq!(cr.find_event(&ItemPath::new(2, s(&["crate", "E"]))).map(|(i, _)| i), Some(0));
    assert!(cr.find_event(&ItemPath::new(0, s(&["crate", "E"]))).is_none());
    assert!(cr.find_component_set(&ItemPath::new(0, s(&["crate", "S"]))).is_none());
}

#[derive(Debug, PartialEq)]
struct Tag(&'static str);

impl ParseMacroCall for Tag {
    fn update_mod(&self, m: &mut AstMod) {
        m.name.push_str(self.0);
    }
}

fn calls(tags: Vec<&'static str>, mods: Vec<MacroCalls<Tag>>) -> MacroCalls<Tag> {
    MacroCalls { calls: tags.into_iter().map(Tag).collect(), mods }
}

#[test]
fn macro_calls_follow_the_module_tree() {
    let mut cr = krate(0, &[]);
    let mut root = AstMod::new(0, s(&["crate"]), "".to_string(), AstModType::Lib);
    root.mods = vec![1, 2];
    cr.mods = vec![
        root,
        AstMod::new(1, s(&["crate", "a"]), "".to_string(), AstModType::Internal),
        AstMod::new(2, s(&["crate", "b"]), "".to_string(), AstModType::Internal),
    ];
    let tree = calls(
        vec!["r"],
        vec![calls(vec!["x"], vec![]), calls(vec!["y", "z"], vec![]), calls(vec!["lost"], vec![])],
    );
    let out = update_macro_calls(tree, &mut cr, 0);
    assert_eq!(out, vec![Tag("r"), Tag("x"), Tag("y"), Tag("z")]);
    assert_eq!(cr.mods[0].name, "r");
    assert_eq!(cr.mods[1].name, "x");
    assert_eq!(cr.mods[2].name, "yz");
    let empty: MacroCalls<Tag> = parse_macro_calls(&ItemPath::new(0, s(&["m"])), &cr.mods[0], &cr, &vec![]);
    assert!(empty.calls.is_empty() && empty.mods.is_empty());
}

#[test]
fn named_crates_are_found_by_directory() {
    let dirs = s(&["/game", "/engine", "/macros"]);
    assert_eq!(AstCrate::named_crate_indices(&dirs, &"/engine".to_string(), &"/macros".to_string()), Ok([0, 1, 2]));
    assert_eq!(
        AstCrate::named_crate_indices(&dirs, &"/missing".to_string(), &"/gone".to_string()),
        Err("Could not find engine crate: '/missing'".to_string())
    );
    assert_eq!(
        AstCrate::named_crate_indices(&dirs, &"/engine".to_string(), &"/gone".to_string()),
        Err("Could not find macros crate: '/gone'".to_string())
    );
}

#[test]
fn entry_plan_lists_items_crate_by_crate() {
    let mut a = ItemsCrate::new();
    a.cr_idx = 0;
    a.components.push(ItemComponent { path: ItemPath::new(0, s(&["crate", "Pos"])), is_singleton: false });
    a.events.push(Event { path: ItemPath::new(0, s(&["crate", "ev", "Hit"])) });
    let mut b = ItemsCrate::new();
    b.cr_idx = 1;
    b.components.push(ItemComponent { path: ItemPath::new(1, s(&["crate", "Cam"])), is_singleton: true });
    b.globals.push(ItemGlobal { path: ItemPath::new(1, s(&["crate", "Clock"])), is_const: false });
    b.events.push(Event { path: ItemPath::new(1, s(&["crate", "Quit"])) });
    b.events.push(Event { path: ItemPath::new(1, s(&["crate", "Tick"])) });
    let plan = entry_codegen_plan(&vec![a, b], &vec![s(&["crate"]), s(&["engine", "_engine"])]);
    assert_eq!(plan.components.len(), 2);
    assert_eq!(plan.components[1].ty, s(&["engine", "_engine", "Cam"]));
    assert_eq!(plan.components[1].var, "c1");
    assert!(plan.components[1].is_singleton);
    assert_eq!((plan.components[1].cr_idx, plan.components[1].idx), (1, 0));
    assert_eq!(plan.globals[0].var, "g0");
    assert_eq!(plan.events.len(), 3);
    assert_eq!(plan.events[0].ty, s(&["crate", "ev", "Hit"]));
    assert_eq!(plan.events[2].variant, "E2");
    assert_eq!(plan.events[2].var, "e2");
    assert_eq!((plan.events[2].cr_idx, plan.events[2].idx), (1, 1));
    assert_eq!(component_var(12), "c12");
    assert_eq!(global_var(3), "g3");
    assert_eq!(event_var(0), "e0");
    assert_eq!(event_variant(7), "E7");
    assert_eq!(component_set_var(4), "cs4");
}

#[test]
fn acyclic_graphs_are_recognised() {
    assert!(is_acyclic(&graph()));
    assert!(is_acyclic(&vec![]));
    let cycle = vec![krate(0, &[(1, "a")]), krate(1, &[(2, "b")]), krate(2, &[(0, "c")])];
    assert!(!is_acyclic(&cycle));
    let self_loop = vec![krate(0, &[(0, "me")])];
    assert!(!is_acyclic(&self_loop));
    let missing = vec![krate(0, &[(5, "gone")])];
    assert!(!is_acyclic(&missing));
}

#[test]
fn local_uses_start_from_child_modules() {
    let mut uses = vec![
        AstUse::from(s(&["foo", "inner"]), "Bar".to_string(), true).unwrap(),
        AstUse::from(s(&["engine"]), "Thing".to_string(), false).unwrap(),
    ];
    let children = vec![s(&["crate", "other"]), s(&["crate", "foo"])];
    resolve_local_uses(&mut uses, &children);
    assert_eq!(uses[0].path, s(&["crate", "foo", "inner", "Bar"]));
    assert_eq!(uses[0].ident, "Bar");
    assert_eq!(uses[0].first, "foo");
    assert!(uses[0].public);
    assert_eq!(uses[1].path, s(&["engine", "Thing"]));
}

#[test]
fn event_manager_plan_names_each_event() {
    let crates = Crates::new(graph(), [0, 1, 3]).unwrap();
    let events = vec![
        ItemEvent { path: ItemPath::new(0, s(&["crate", "Hit"])), state: None },
        ItemEvent { path: ItemPath::new(2, s(&["crate", "ev", "Quit"])), state: None },
    ];
    let plan = events_plan(0, &events, &crates).unwrap();
    assert_eq!(plan.len(), 2);
    assert_eq!((plan[0].var.as_str(), plan[0].variant.as_str()), ("e0", "E0"));
    assert_eq!(plan[0].ty, s(&["crate", "Hit"]));
    assert_eq!(plan[1].ty, s(&["b", "ev", "Quit"]));
    assert_eq!(plan[1].variant, "E1");
    let bad = vec![ItemEvent { path: ItemPath::new(0, s(&["crate", "X"])), state: None }];
    assert_eq!(events_plan(3, &bad, &crates).unwrap_err(), s(&["No path from crate 3 to crate 0"]));
}

#[test]
fn generated_modules_and_index() {
    let crates = Crates::new(graph(), [0, 1, 3]).unwrap();
    assert_eq!(namespace_layout(&crates), vec![(0, true), (1, false), (2, false)]);
    let crates = Crates::new(graph(), [0, 2, 1]).unwrap();
    assert_eq!(namespace_layout(&crates), vec![(0, true), (2, false), (3, false)]);
    assert_eq!(code_file(3), "3.rs");
    let entries = vec![("/a".to_string(), "/out/0.rs".to_string()), ("/b".to_string(), "/out/1.rs".to_string())];
    assert_eq!(index_file_text(&entries), "/a\t/out/0.rs\n/b\t/out/1.rs");
    assert_eq!(index_file_text(&vec![]), "");
}

#[test]
fn namespace_mod_reexports_dependencies() {
    let root = AstMod::new(1, vec!["crate".to_string()], "crate".to_string(), AstModType::Main);
    let child = AstMod::new(0, vec!["crate".to_string(), "a".to_string()], "a".to_string(), AstModType::File);
    let mut cr = AstCrate {
        idx: 0,
        name: "game".to_string(),
        main: 1,
        mods: vec![child, root],
        deps: vec![(2, "engine".to_string()), (3, "macros".to_string())],
    };
    cr.add_namespace_mod().unwrap();
    assert_eq!(cr.mods.len(), 3);
    assert_eq!(cr.mods[1].mods, vec![2]);
    let ns = &cr.mods[2];
    assert_eq!(ns.idx, 2);
    assert_eq!(ns.name, "_engine");
    assert_eq!(ns.path, vec!["crate".to_string(), "_engine".to_string()]);
    assert!(matches!(ns.ty, AstModType::Internal));
    assert_eq!(ns.uses.len(), 2);
    assert_eq!(ns.uses[1].ident, "macros");
    assert_eq!(ns.uses[1].first, "macros");
    assert_eq!(ns.uses[1].path, vec!["macros".to_string()]);
    assert!(ns.uses[1].public);

    let mut broken = AstCrate { idx: 0, name: "x".to_string(), main: 5, mods: Vec::new(), deps: Vec::new() };
    assert!(broken.add_namespace_mod().is_err());
    assert!(broken.mods.is_empty());
}
