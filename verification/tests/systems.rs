use parser::codegen::system::System;
use parser::component_set::labels::{ComponentSetLabels, LabelSymbol, LabelsExpression};
use parser::component_set::resolve::{ComponentSet, ComponentSetItem, LabelItem};
use parser::parse::find_path::ItemPath;
use parser::parse::symbol::ComponentSymbol;
use parser::resolve::function_arg::{ComponentRefTracker, FnArg, FnArgType, FnArgs};
use parser::resolve::items::{ItemComponent, ItemEvent, ItemGlobal, ItemSystem, Items};

fn s(v: &[&str]) -> Vec<String> {
    v.iter().map(|x| x.to_string()).collect()
}

fn path(v: &[&str]) -> ItemPath {
    ItemPath::new(0, s(v))
}

fn lsym(idx: usize, is_singleton: bool) -> LabelSymbol {
    LabelSymbol { comp: ComponentSymbol { idx, is_singleton } }
}

fn set_item(var: &str, idx: usize, is_singleton: bool, is_mut: bool) -> ComponentSetItem {
    ComponentSetItem { var: var.to_string(), ty: format!("C{idx}"), sym: lsym(idx, is_singleton), ref_cnt: 1, is_mut, is_opt: false }
}

/// Components: Pos (0), Vel (1), Camera (2, singleton). Globals: Time (0),
/// Config (1, constant). Events: Tick (0). Sets: Movers (0) = &mut Pos,
/// &Vel; Readers (1) = &Pos; Cam (2) = &Camera; Labeled (3) = &Vel with
/// labels leaving the singleton Camera false.
fn items() -> Items {
    let mut items = Items::new();
    items.components.push(ItemComponent { path: path(&["crate", "Pos"]), is_singleton: false });
    items.components.push(ItemComponent { path: path(&["crate", "Vel"]), is_singleton: false });
    items.components.push(ItemComponent { path: path(&["crate", "Camera"]), is_singleton: true });
    items.globals.push(ItemGlobal { path: path(&["crate", "Time"]), is_const: false });
    items.globals.push(ItemGlobal { path: path(&["crate", "Config"]), is_const: true });
    items.events.push(ItemEvent { path: path(&["crate", "Tick"]), state: None });
    items.component_sets.push(ComponentSet {
        path: path(&["crate", "Movers"]),
        args: vec![set_item("p", 0, false, true), set_item("v", 1, false, false)],
        labels: None,
    });
    items.component_sets.push(ComponentSet { path: path(&["crate", "Readers"]), args: vec![set_item("p", 0, false, false)], labels: None });
    items.component_sets.push(ComponentSet { path: path(&["crate", "Cam"]), args: vec![set_item("c", 2, true, false)], labels: None });
    items.component_sets.push(ComponentSet {
        path: path(&["crate", "Labeled"]),
        args: vec![set_item("v", 1, false, false)],
        labels: Some(ComponentSetLabels::Expression(LabelsExpression {
            labels: LabelItem::Item { not: true, sym: lsym(2, true) },
            true_symbols: vec![],
            false_symbols: vec![lsym(2, true)],
            unknown_symbols: vec![],
        })),
    });
    items
}

fn arg(ty: FnArgType, ref_cnt: usize, is_mut: bool) -> FnArg {
    FnArg { ty, is_mut, ref_cnt }
}

fn system(args: Vec<FnArg>, is_init: bool) -> ItemSystem {
    ItemSystem { path: path(&["crate", "sys"]), args, is_init }
}

#[test]
fn valid_system() {
    let sys = system(vec![
        arg(FnArgType::Event(0), 1, false),
        arg(FnArgType::Global(0), 1, true),
        arg(FnArgType::Entities { idx: 0, is_vec: true }, 0, false),
        arg(FnArgType::Entities { idx: 2, is_vec: false }, 0, false),
    ], false);
    match sys.validate(&items()) {
        Ok(FnArgs::System { event, globals, component_sets }) => {
            assert_eq!((event.arg_idx, event.idx), (0, 0));
            assert_eq!(globals.len(), 1);
            assert_eq!((globals[0].arg_idx, globals[0].idx, globals[0].is_mut), (1, 0, true));
            assert_eq!(component_sets.len(), 2);
            assert_eq!((component_sets[1].arg_idx, component_sets[1].idx, component_sets[1].is_vec), (3, 2, false));
        }
        _ => panic!("expected a valid system"),
    }
}

#[test]
fn system_errors() {
    let sys = system(vec![
        arg(FnArgType::Global(1), 1, true),
        arg(FnArgType::Global(1), 0, false),
        arg(FnArgType::Entities { idx: 0, is_vec: true }, 0, false),
        arg(FnArgType::Entities { idx: 1, is_vec: true }, 0, false),
        arg(FnArgType::Entities { idx: 0, is_vec: true }, 0, false),
    ], false);
    let errs = match sys.validate(&items()) {
        Err(e) => e,
        Ok(_) => panic!("expected errors"),
    };
    assert_eq!(errs, vec![
        "\nIn system: 'crate::sys':".to_string(),
        "Type should be taken immutably: \"&mut Global 1\"".to_string(),
        "Type should be taken by single reference: \"Global 1\"".to_string(),
        "Duplicate global: Global 1".to_string(),
        "System must specify an event".to_string(),
        "Multiple mutable references to 'crate::Pos'".to_string(),
        "Mutable and immutable references to 'crate::Pos'".to_string(),
        "\tMutable references in 'crate::Movers', 'crate::Movers'".to_string(),
        "\tImmutable references in 'crate::Readers'".to_string(),
    ]);
}

#[test]
fn entity_set_needs_singleton() {
    let sys = system(vec![
        arg(FnArgType::Event(0), 1, false),
        arg(FnArgType::Event(0), 1, false),
        arg(FnArgType::Entities { idx: 3, is_vec: false }, 1, false),
        arg(FnArgType::Entities { idx: 9, is_vec: false }, 0, false),
        arg(FnArgType::Global(5), 1, false),
    ], false);
    let errs = match sys.validate(&items()) {
        Err(e) => e,
        Ok(_) => panic!("expected errors"),
    };
    assert_eq!(errs, vec![
        "\nIn system: 'crate::sys':".to_string(),
        "Multiple events specified: &Event 0".to_string(),
        "In entity set argument: crate::Labeled {".to_string(),
        "\tEntity set must contain singletons or be wrapped with Entities<>".to_string(),
        "\t\tThese singleton are included as labels but must be false: crate::Camera".to_string(),
        "}".to_string(),
        "Type should be taken by borrow: \"&Entities 3\"".to_string(),
        "Invalid component set index: 9".to_string(),
        "Invalid Global index: 5".to_string(),
    ]);
}

#[test]
fn init_systems_take_only_globals() {
    let ok = system(vec![arg(FnArgType::Global(0), 1, false)], true);
    match ok.validate(&items()) {
        Ok(FnArgs::Init { globals }) => assert_eq!(globals.len(), 1),
        _ => panic!("expected an init system"),
    }
    let bad = system(vec![arg(FnArgType::Event(0), 1, false), arg(FnArgType::Entities { idx: 0, is_vec: true }, 0, false)], true);
    match bad.validate(&items()) {
        Err(errs) => assert_eq!(errs, vec![
            "\nIn system: 'crate::sys':".to_string(),
            "Init systems may not contain Event 0: &Event 0".to_string(),
            "Init systems may not contain Vec<Entities> 0: Vec<Entities> 0".to_string(),
        ]),
        Ok(_) => panic!("expected errors"),
    }
}

#[test]
fn ref_tracker_messages() {
    let t = ComponentRefTracker::new().with_ref("A".to_string(), false).with_ref("B".to_string(), false);
    assert_eq!(t.validate("C".to_string()), Ok(()));
    let mut t = ComponentRefTracker::new();
    t.add_ref("A".to_string(), true);
    assert_eq!(t.validate("C".to_string()), Ok(()));
    t.add_ref("B".to_string(), false);
    assert_eq!(t.validate("C".to_string()), Err(vec![
        "Mutable and immutable references to 'C'".to_string(),
        "\tMutable references in 'A'".to_string(),
        "\tImmutable references in 'B'".to_string(),
    ]));
}

#[test]
fn argument_text() {
    assert_eq!(arg(FnArgType::Entities { idx: 12, is_vec: false }, 2, true).to_string(), "&&mut Entities 12");
    assert_eq!(FnArgType::Global(305).to_string(), "Global 305");
}

#[test]
fn check_labels_simplifies_label_sets() {
    let mut sys = System::new();
    sys.c_args = vec![(0, 1)];
    sys.and_labels = vec![(0, 2), (0, 1)];
    sys.or_labels = vec![vec![(0, 1), (0, 5)], vec![(0, 3), (0, 4)], vec![]];
    sys.nor_labels = vec![(0, 4)];
    sys.nand_labels = vec![vec![(0, 4), (0, 6)], vec![(0, 2), (0, 7)]];
    sys.check_labels();
    // The components leave the AND set.
    assert_eq!(sys.and_labels, vec![(0, 2)]);
    // The first OR set is met by a component, the last is empty; the second
    // loses its NOR member.
    assert_eq!(sys.or_labels, vec![vec![(0, 3)]]);
    // The first NAND set is broken by the NOR set; the second loses its AND
    // member.
    assert_eq!(sys.nand_labels, vec![vec![(0, 7)]]);
    assert_eq!(sys.nor_labels, vec![(0, 4)]);
    assert_eq!(sys.c_args, vec![(0, 1)]);
}

#[test]
fn new_system_has_no_arguments() {
    let sys = System::new();
    assert!(sys.c_args.is_empty() && sys.and_labels.is_empty() && sys.or_labels.is_empty());
    assert!(sys.event.is_none());
    assert!(!sys.is_vec && !sys.is_init);
}

#[test]
fn manager_runs_init_and_event_systems() {
    let mut items = items();
    items.systems.push(system(vec![arg(FnArgType::Global(0), 1, false)], true));
    items.systems.push(system(vec![
        arg(FnArgType::Event(0), 1, false),
        arg(FnArgType::Entities { idx: 1, is_vec: true }, 0, false),
    ], false));
    items.systems.push(system(vec![arg(FnArgType::Global(0), 1, false)], false));
    items.systems.push(system(vec![], true));
    let plan = parser::codegen::manager::manager_plan(&items);
    assert_eq!(plan.init_systems, vec![0, 3]);
    assert_eq!(plan.systems, vec![1]);
    assert_eq!(plan.system_events, vec![0]);
    assert!(plan.errs.is_empty());
}
