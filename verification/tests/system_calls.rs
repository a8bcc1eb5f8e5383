use parser::codegen::system::{CallArg, CallBody, CallTrigger, ContainerArg, ContainerItem, LabelArg, LabelType, System, SystemArg};
use parser::component_set::codegen::ValsPlan;
use parser::component_set::labels::LabelSymbol;
use parser::component_set::resolve::{ComponentSet, ComponentSetItem};
use parser::parse::find_path::ItemPath;
use parser::parse::symbol::ComponentSymbol;
use parser::resolve::function_arg::ComponentSetFnArg;

fn item(idx: usize, is_singleton: bool, is_opt: bool) -> ComponentSetItem {
    ComponentSetItem {
        var: format!("c{idx}"),
        ty: format!("C{idx}"),
        sym: LabelSymbol { comp: ComponentSymbol { idx, is_singleton } },
        ref_cnt: 1,
        is_mut: false,
        is_opt,
    }
}

fn set(args: Vec<ComponentSetItem>) -> ComponentSet {
    ComponentSet { path: ItemPath::new(0, vec!["crate".to_string(), "S".to_string()]), args, labels: None }
}

#[test]
fn vals_plan_single_and_list() {
    let cs = set(vec![item(5, true, false), item(2, false, true), item(5, true, true)]);
    let one = ComponentSetFnArg { arg_idx: 0, idx: 0, is_vec: false };
    let ValsPlan { single, has_first_arg, unique, required } = cs.vals_plan(&one);
    assert!(single);
    assert!(has_first_arg);
    assert_eq!(unique, vec![1, 0]);
    assert_eq!(required, vec![0]);
    let list = ComponentSetFnArg { arg_idx: 0, idx: 0, is_vec: true };
    assert!(!cs.vals_plan(&list).single);
    let opt_only = set(vec![item(3, false, true)]);
    let plan = opt_only.vals_plan(&one);
    assert!(!plan.single && !plan.has_first_arg);
    assert!(plan.required.is_empty());
}

#[test]
fn system_from_arguments() {
    let args = vec![
        SystemArg::EntityId,
        SystemArg::Component((0, 1)),
        SystemArg::Global((0, 2)),
        SystemArg::Event((1, 0)),
        SystemArg::Label(LabelType::And, vec![LabelArg::Component((0, 3)), LabelArg::Component((0, 3))]),
        SystemArg::Label(LabelType::Or, vec![LabelArg::Component((0, 4)), LabelArg::Component((0, 5))]),
        SystemArg::Trait((0, 0)),
    ];
    let (sys, call) = System::from_args(args, false).unwrap();
    assert_eq!(sys.c_args, vec![(0, 1)]);
    assert_eq!(sys.g_args, vec![(0, 2), (0, 0)]);
    assert_eq!(sys.event, Some((1, 0)));
    assert_eq!(sys.and_labels, vec![(0, 3)]);
    assert_eq!(sys.or_labels, vec![vec![(0, 4), (0, 5)]]);
    assert!(!sys.is_vec && !sys.is_init);
    assert_eq!(call.len(), 7);
    assert!(matches!(call[1], CallArg::Component((0, 1))));
    assert!(matches!(call[4], CallArg::Label));
    assert!(matches!(call[6], CallArg::Global((0, 0))));
    match sys.call_plan().body {
        CallBody::Each { components } => assert_eq!(components, vec![(0, 1)]),
        _ => panic!("expected a call per entity"),
    }
    assert!(matches!(sys.call_plan().trigger, CallTrigger::Event((1, 0))));
}

#[test]
fn system_from_container() {
    let args = vec![
        SystemArg::Component((0, 9)),
        SystemArg::Container(vec![
            ContainerItem::EntityId,
            ContainerItem::Component((0, 1), true),
            ContainerItem::Component((0, 2), false),
        ]),
    ];
    let (sys, _) = System::from_args(args, true).unwrap();
    assert!(sys.is_vec && sys.is_init);
    assert_eq!(sys.c_args, vec![(0, 1), (0, 2)]);
    assert_eq!(sys.v_types, vec![ContainerArg::EntityId, ContainerArg::Component(0, 1, true), ContainerArg::Component(0, 2, false)]);
    let plan = sys.call_plan();
    assert!(matches!(plan.trigger, CallTrigger::Init));
    match plan.body {
        CallBody::Collect { first, first_pos, first_mut, width, intersect, comp_positions } => {
            assert_eq!(first, (0, 1));
            assert_eq!((first_pos, first_mut, width), (1, true, 3));
            assert_eq!(intersect, vec![((0, 2), 2, false)]);
            assert_eq!(comp_positions, vec![1, 2]);
        }
        _ => panic!("expected a collected call"),
    }
}

#[test]
fn system_from_errors() {
    let args = vec![
        SystemArg::Label(LabelType::Nor, vec![LabelArg::Other("u32".to_string())]),
        SystemArg::Container(vec![ContainerItem::Other("f32".to_string())]),
        SystemArg::Unknown("&String".to_string()),
    ];
    let errs = System::from_args(args, false).unwrap_err();
    assert_eq!(errs, vec![
        "Label expects Component type, found: u32".to_string(),
        "Container expects Component or Entity ID type, found: f32".to_string(),
        "Argument: \"&String\" is not a known type".to_string(),
    ]);
}

#[test]
fn direct_call_without_components() {
    let (sys, _) = System::from_args(vec![SystemArg::Global((0, 0))], true).unwrap();
    assert!(matches!(sys.call_plan().body, CallBody::Direct));
}
