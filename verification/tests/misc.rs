use parser::codegen::system::LabelType;
use parser::parse::ast_crate::{AstModType, AstUse, DirType};
use parser::parse::attributes::{eval_cfg_args, get_attributes, get_attributes_if_active, parse_attr_args, AstAttribute, AttrMeta, Attribute, CfgPredicate, EcsAttribute};
use parser::parse::tokens::{Delimiter, TokenTree};
use parser::parse::cargo_toml::{cargo_dependencies, parse_cargo_toml, CargoTomlError, TomlValue};
use parser::parse::find_path::{join_strings, resolve_error, ItemPath};
use parser::parse::symbol::HardcodedSymbol;
use parser::resolve::paths::{Crate, CratePath};
use parser::resolve::util::{usize_to_string, CombineMsgs, ToMsgsResult};

fn s(v: &[&str]) -> Vec<String> {
    v.iter().map(|x| x.to_string()).collect()
}

#[test]
fn item_paths_join() {
    let p = ItemPath::new(3, s(&["crate", "a", "B"]));
    assert_eq!(p.to_string(), "crate::a::B");
    assert_eq!(p.cr_idx, 3);
    assert_eq!(ItemPath::default().to_string(), "");
    assert_eq!(resolve_error(s(&["x", "y"])), "Could not resolve path: x::y");
    assert_eq!(join_strings(&s(&["a"]), ", "), "a");
    assert_eq!(join_strings(&s(&[]), ", "), "");
}

#[test]
fn combining_messages() {
    let all_ok: Vec<Result<u8, String>> = vec![Ok(1), Ok(2)];
    assert_eq!(all_ok.combine_msgs(), Ok(vec![1, 2]));
    let some_err: Vec<Result<u8, String>> = vec![Ok(1), Err("a".to_string()), Ok(3), Err("b".to_string())];
    assert_eq!(some_err.combine_msgs(), Err(s(&["a", "b"])));
    let lists: Vec<Result<u8, Vec<String>>> = vec![Err(s(&["a", "b"])), Ok(2), Err(s(&["c"]))];
    assert_eq!(lists.combine_msgs(), Err(s(&["a", "b", "c"])));
    let empty_errs: Vec<Result<u8, Vec<String>>> = vec![Ok(1), Err(vec![])];
    assert_eq!(empty_errs.combine_msgs(), Ok(vec![1]));
    let r: Result<u8, String> = Err("e".to_string());
    assert_eq!(r.to_msg_vec(), Err(s(&["e"])));
    let r: Result<u8, String> = Ok(4);
    assert_eq!(r.to_msg_vec(), Ok(4));
}

#[test]
fn decimal_numbers() {
    assert_eq!(usize_to_string(0), "0");
    assert_eq!(usize_to_string(7), "7");
    assert_eq!(usize_to_string(1200), "1200");
    assert_eq!(usize_to_string(usize::MAX), usize::MAX.to_string());
}

#[test]
fn attribute_names() {
    assert_eq!(EcsAttribute::from("component".to_string()), Some(EcsAttribute::Component));
    assert_eq!(EcsAttribute::from("global".to_string()), Some(EcsAttribute::Global));
    assert_eq!(EcsAttribute::from("system".to_string()), Some(EcsAttribute::System));
    assert_eq!(EcsAttribute::from("event".to_string()), Some(EcsAttribute::Event));
    assert_eq!(EcsAttribute::from("Event".to_string()), None);
}

#[test]
fn label_types() {
    assert_eq!(LabelType::from("&"), LabelType::And);
    assert_eq!(LabelType::from("ll|x"), LabelType::Or);
    assert_eq!(LabelType::from("l!&"), LabelType::Nand);
    assert_eq!(LabelType::from("!|"), LabelType::Nor);
}

fn feature(f: &str) -> CfgPredicate {
    CfgPredicate::Equal("feature".to_string(), f.to_string())
}

#[test]
fn cfg_predicates() {
    let features = s(&["a", "b"]);
    assert_eq!(eval_cfg_args(&feature("a"), &features), Some(true));
    assert_eq!(eval_cfg_args(&feature("c"), &features), Some(false));
    assert_eq!(eval_cfg_args(&CfgPredicate::Equal("target_os".to_string(), "linux".to_string()), &features), None);
    assert_eq!(eval_cfg_args(&CfgPredicate::Is("test".to_string()), &features), None);
    assert_eq!(eval_cfg_args(&CfgPredicate::Not(Box::new(feature("c"))), &features), Some(true));
    assert_eq!(eval_cfg_args(&CfgPredicate::Not(Box::new(CfgPredicate::Is("x".to_string()))), &features), None);
    assert_eq!(eval_cfg_args(&CfgPredicate::Any(vec![feature("c"), CfgPredicate::Is("x".to_string())]), &features), Some(false));
    assert_eq!(eval_cfg_args(&CfgPredicate::Any(vec![feature("c"), feature("b")]), &features), Some(true));
    assert_eq!(eval_cfg_args(&CfgPredicate::All(vec![feature("a"), CfgPredicate::Is("x".to_string())]), &features), Some(true));
    assert_eq!(eval_cfg_args(&CfgPredicate::All(vec![feature("a"), feature("c")]), &features), Some(false));
    assert_eq!(eval_cfg_args(&CfgPredicate::All(vec![]), &features), Some(true));
}

fn ecs(path: &[&str]) -> Attribute {
    Attribute::Ecs(AstAttribute { path: s(path), args: vec![] })
}

#[test]
fn active_attributes() {
    let features = s(&["a"]);
    let r = get_attributes_if_active(vec![ecs(&["component"]), Attribute::Cfg(feature("a")), ecs(&["global"])], &features).unwrap();
    assert_eq!(r.iter().map(|a| a.path.join("::")).collect::<Vec<_>>(), s(&["component", "global"]));
    assert!(get_attributes_if_active(vec![ecs(&["component"]), Attribute::Cfg(feature("z"))], &features).is_none());
    // the last decidable cfg wins
    assert!(get_attributes_if_active(vec![Attribute::Cfg(feature("z")), Attribute::Cfg(feature("a"))], &features).is_some());
    assert!(get_attributes_if_active(vec![Attribute::Cfg(feature("z")), Attribute::Cfg(CfgPredicate::Is("x".to_string()))], &features).is_some());
}

#[test]
fn manifest_dependencies() {
    let text = r#"
[package]
name = "game"

[dependencies]
engine = { path = "../engine", dependency = true }
macros = { path = "../engine/macros" }
rand = "0.8"
sdl = { version = "1", dependency = true }
"#;
    assert_eq!(parse_cargo_toml(text), Ok(vec![("engine".to_string(), "../engine".to_string())]));
    assert_eq!(parse_cargo_toml("[package]\nname = \"x\"\n"), Err(CargoTomlError::NoDependencies));
    assert_eq!(parse_cargo_toml("dependencies = 3\n"), Err(CargoTomlError::NotTable));
    assert_eq!(parse_cargo_toml("[dependencies\n"), Err(CargoTomlError::Parse));
    assert_eq!(CargoTomlError::NotTable.message(), "Could not convert 'dependencies' section to a table");
    let doc = TomlValue::Table(vec![(
        "dependencies".to_string(),
        TomlValue::Table(vec![(
            "x".to_string(),
            TomlValue::Table(vec![
                ("path".to_string(), TomlValue::String("p".to_string())),
                ("dependency".to_string(), TomlValue::Boolean(false)),
            ]),
        )]),
    )]);
    assert_eq!(cargo_dependencies(&doc), Ok(vec![("x".to_string(), "p".to_string())]));
}

#[test]
fn module_files_and_types() {
    assert_eq!(DirType::Main.to_file(), "main.rs");
    assert_eq!(DirType::Lib.to_file(), "lib.rs");
    assert_eq!(DirType::Mod.to_file(), "mod.rs");
    assert_eq!(AstModType::from(DirType::Lib), AstModType::Lib);
    assert_eq!(AstModType::from(DirType::Mod), AstModType::Mod);
    let u = AstUse::from(s(&["crate", "a"]), "B".to_string(), true).unwrap();
    assert_eq!((u.ident.as_str(), u.first.as_str(), u.public), ("B", "crate", true));
    assert_eq!(u.path, s(&["crate", "a", "B"]));
    assert!(AstUse::from(vec![], "B".to_string(), false).is_none());
}

#[test]
fn hardcoded_paths() {
    let p = HardcodedSymbol::SystemMacro.get_path();
    assert_eq!(p.cr, Crate::Macros);
    assert_eq!(p.full_path(), s(&["crate", "system"]));
    let p = HardcodedSymbol::Entities.get_path();
    assert_eq!(p.cr, Crate::Engine);
    assert_eq!(p.get_ident(), "Entities");
    assert_eq!(p.full_path(), s(&["crate", "ecs", "systems", "Entities"]));
    let c = CratePath { cr: Crate::Main, path: s(&["_engine"]), ident: "AddEvent".to_string() };
    assert_eq!(c.full_path(), s(&["crate", "_engine", "AddEvent"]));
}

#[test]
fn attribute_from_path() {
    match Attribute::from(s(&["cfg"])) {
        Attribute::Cfg(CfgPredicate::Is(k)) => assert_eq!(k, ""),
        other => panic!("unexpected {:?}", other),
    }
    match Attribute::from(s(&["hyperfold", "component"])) {
        Attribute::Ecs(a) => {
            assert_eq!(a.path, s(&["hyperfold", "component"]));
            assert!(a.args.is_empty());
        }
        other => panic!("unexpected {:?}", other),
    }
}

fn list(text: &str, tokens: Vec<TokenTree>) -> AttrMeta {
    AttrMeta::List { text: text.to_string(), tokens }
}

#[test]
fn attribute_arguments_are_read() {
    let group = TokenTree::Group { delim: Delimiter::Parenthesis, stream: vec![TokenTree::Ident("Singleton".to_string())] };
    let attr = parse_attr_args(Attribute::from(s(&["component"])), list("component (Singleton)", vec![TokenTree::Ident("component".to_string()), group]));
    match attr {
        Ok(Attribute::Ecs(a)) => assert_eq!(format!("{:?}", a.args), format!("{:?}", vec![TokenTree::Ident("Singleton".to_string())])),
        other => panic!("unexpected {:?}", other),
    }
    let features = s(&["a"]);
    let cfg = parse_attr_args(Attribute::from(s(&["cfg"])), list("cfg (all (feature = \"a\" , not (feature = \"b\")))", Vec::new()));
    match cfg {
        Ok(Attribute::Cfg(c)) => {
            assert_eq!(eval_cfg_args(&c, &features), Some(true));
            assert_eq!(eval_cfg_args(&c, &s(&["a", "b"])), Some(false));
        }
        other => panic!("unexpected {:?}", other),
    }
    let bad = parse_attr_args(Attribute::from(s(&["cfg"])), list("cfg (feature = )", Vec::new()));
    match bad {
        Err(e) => assert_eq!(e, "Could not parse cfg_str"),
        other => panic!("unexpected {:?}", other),
    }
    match parse_attr_args(Attribute::from(s(&["system"])), AttrMeta::Path) {
        Ok(Attribute::Ecs(a)) => assert!(a.args.is_empty()),
        other => panic!("unexpected {:?}", other),
    }
}

#[test]
fn attributes_collect_errors() {
    let ok = get_attributes(vec![(s(&["global"]), AttrMeta::Path), (s(&["cfg"]), list("cfg (feature = \"x\")", Vec::new()))]).unwrap();
    assert_eq!(ok.len(), 2);
    assert_eq!(get_attributes_if_active(ok, &s(&["y"])).map(|v| v.len()), None);
    let errs = get_attributes(vec![
        (s(&["cfg"]), list("cfg (", Vec::new())),
        (s(&["global"]), AttrMeta::Path),
        (s(&["cfg"]), list("nonsense", Vec::new())),
    ]);
    assert_eq!(errs.unwrap_err(), s(&["Could not parse cfg_str", "Could not parse cfg_str"]));
}
