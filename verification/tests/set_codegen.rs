use parser::component_set::codegen::{unique_key_positions, KeysInit, KeysPlan};
use parser::component_set::labels::{ComponentSetLabels, LabelSymbol, LabelsExpression};
use parser::component_set::resolve::{ComponentSet, ComponentSetItem, LabelItem};
use parser::parse::find_path::ItemPath;
use parser::parse::symbol::ComponentSymbol;
use parser::resolve::function_arg::ComponentSetFnArg;

fn lsym(idx: usize, is_singleton: bool) -> LabelSymbol {
    LabelSymbol { comp: ComponentSymbol { idx, is_singleton } }
}

fn item(idx: usize, is_singleton: bool, is_opt: bool) -> ComponentSetItem {
    ComponentSetItem { var: format!("c{idx}"), ty: format!("C{idx}"), sym: lsym(idx, is_singleton), ref_cnt: 1, is_mut: false, is_opt }
}

fn set(args: Vec<ComponentSetItem>, labels: Option<ComponentSetLabels>) -> ComponentSet {
    ComponentSet { path: ItemPath::new(0, vec!["crate".to_string(), "S".to_string()]), args, labels }
}

#[test]
fn unique_keys_first_of_each_in_key_order() {
    assert_eq!(unique_key_positions(&vec![5, 2, 5, 9, 2, 1]), vec![5, 1, 0, 3]);
    assert_eq!(unique_key_positions(&vec![]), Vec::<usize>::new());
    assert_eq!(unique_key_positions(&vec![3, 3, 3]), vec![0]);
}

#[test]
fn unique_args_by_component() {
    let cs = set(vec![item(4, false, false), item(1, false, true), item(4, false, true)], None);
    assert_eq!(cs.unique_arg_positions(), vec![1, 0]);
}

#[test]
fn keys_never_when_labels_false() {
    let cs = set(vec![item(1, false, false), item(2, true, true)], Some(ComponentSetLabels::Constant(false)));
    assert!(matches!(cs.keys_plan(), KeysPlan::Empty { single: true }));
    let cs = set(vec![item(1, false, false)], Some(ComponentSetLabels::Constant(false)));
    assert!(matches!(cs.keys_plan(), KeysPlan::Empty { single: false }));
}

#[test]
fn keys_from_first_argument_or_all_entities() {
    let cs = set(vec![item(3, false, true), item(1, false, false)], Some(ComponentSetLabels::Constant(true)));
    match cs.keys_plan() {
        KeysPlan::Filtered { init, filter } => {
            assert_eq!(init, KeysInit::Keys(1));
            assert!(filter.is_none());
        }
        _ => panic!("expected keys"),
    }
    let cs = set(vec![item(3, false, true)], None);
    match cs.keys_plan() {
        KeysPlan::Filtered { init, filter } => {
            assert_eq!(init, KeysInit::AllEntities);
            assert!(filter.is_none());
        }
        _ => panic!("expected keys"),
    }
}

#[test]
fn keys_from_singleton_label_with_filter() {
    let labels = ComponentSetLabels::Expression(LabelsExpression {
        labels: LabelItem::Item { not: false, sym: lsym(6, true) },
        true_symbols: vec![lsym(6, true)],
        false_symbols: vec![lsym(2, false)],
        unknown_symbols: vec![lsym(8, false)],
    });
    let cs = set(vec![item(1, false, false)], Some(labels));
    match cs.keys_plan() {
        KeysPlan::Filtered { init, filter } => {
            assert_eq!(init, KeysInit::Singleton(6));
            assert_eq!(filter, Some(vec![6, 2, 8]));
        }
        _ => panic!("expected keys"),
    }
}

#[test]
fn build_sets_copies_and_singletons() {
    let args = vec![
        ComponentSetFnArg { arg_idx: 0, idx: 2, is_vec: false },
        ComponentSetFnArg { arg_idx: 1, idx: 0, is_vec: true },
        ComponentSetFnArg { arg_idx: 2, idx: 2, is_vec: false },
        ComponentSetFnArg { arg_idx: 3, idx: 1, is_vec: false },
    ];
    let plan = ComponentSet::build_sets_plan(&args, &vec![true, true, true, false]);
    assert_eq!(plan.built, vec![1, 3, 0]);
    assert_eq!(plan.copies, vec![true, false, false, false]);
    assert_eq!(plan.singletons, vec![0]);
}
