use parser::parse::ast_crate::AstModType;
use parser::parse::ast_mod::{flatten_mod, parse_mod, read_mod, FileItem, ItemKind, ModEntry, ModParseError};
use parser::parse::attributes::AttrMeta;
use parser::parse::tokens::TokenTree;

fn s(v: &[&str]) -> Vec<String> {
    v.iter().map(|x| x.to_string()).collect()
}

const SOURCE: &str = r#"
#[component]
pub struct Position { x: i32 }

pub struct Plain;

#[system(on_start)]
fn start() {}

#[cfg(feature = "never")]
#[global]
struct Hidden;

mod inner {
    #[event]
    enum Ping { A }
    mod deeper {}
}

mod other;

#[cfg(not(feature = "never"))]
mod shown;

#[cfg(feature = "never")]
mod gone;

impl Position {}
"#;

#[test]
fn module_items_and_children() {
    let m = parse_mod(SOURCE, s(&["crate"]), AstModType::Main).unwrap();
    assert_eq!(m.name, "crate");
    assert_eq!(m.path, s(&["crate"]));
    assert!(matches!(m.ty, AstModType::Main));
    assert!(m.errs.is_empty());
    assert_eq!(m.items.len(), 2);

    assert_eq!(m.items[0].kind, ItemKind::Struct);
    assert_eq!(m.items[0].ident, "Position");
    assert_eq!(m.items[0].path, s(&["crate", "Position"]));
    assert_eq!(m.items[0].attrs.len(), 1);
    assert_eq!(m.items[0].attrs[0].path, s(&["component"]));
    assert!(m.items[0].attrs[0].args.is_empty());

    assert_eq!(m.items[1].kind, ItemKind::Fn);
    assert_eq!(m.items[1].ident, "start");
    assert_eq!(m.items[1].attrs[0].path, s(&["system"]));
    let args = &m.items[1].attrs[0].args;
    assert_eq!(args.len(), 1);
    assert!(matches!(&args[0], TokenTree::Ident(i) if i == "on_start"));

    assert_eq!(m.mods.len(), 3);
    match &m.mods[0] {
        ModEntry::Inline(inner) => {
            assert_eq!(inner.name, "inner");
            assert_eq!(inner.path, s(&["crate", "inner"]));
            assert!(matches!(inner.ty, AstModType::Internal));
            assert_eq!(inner.items.len(), 1);
            assert_eq!(inner.items[0].kind, ItemKind::Enum);
            assert_eq!(inner.items[0].path, s(&["crate", "inner", "Ping"]));
            assert_eq!(inner.mods.len(), 1);
            match &inner.mods[0] {
                ModEntry::Inline(d) => {
                    assert_eq!(d.path, s(&["crate", "inner", "deeper"]));
                    assert!(d.items.is_empty() && d.mods.is_empty());
                }
                ModEntry::File(_) => panic!("deeper is written inline"),
            }
        }
        ModEntry::File(_) => panic!("inner is written inline"),
    }
    assert!(matches!(&m.mods[1], ModEntry::File(p) if *p == s(&["crate", "other"])));
    assert!(matches!(&m.mods[2], ModEntry::File(p) if *p == s(&["crate", "shown"])));
}

#[test]
fn module_attribute_errors_are_kept() {
    let m = parse_mod("#[cfg(??)]\n#[component]\nstruct A;\n", s(&["crate", "a"]), AstModType::File).unwrap();
    assert_eq!(m.name, "a");
    assert!(m.items.is_empty());
    assert_eq!(m.errs, s(&["Could not parse cfg_str"]));
}

#[test]
fn module_text_that_is_not_rust() {
    assert_eq!(parse_mod("fn (", s(&["crate"]), AstModType::Lib).unwrap_err(), ModParseError::Syntax);
}

#[test]
fn module_with_empty_path() {
    assert_eq!(parse_mod("struct A;", Vec::new(), AstModType::Lib).unwrap_err(), ModParseError::EmptyPath);
    assert_eq!(parse_mod("fn (", Vec::new(), AstModType::Lib).unwrap_err(), ModParseError::Syntax);
}

#[test]
fn module_tree_numbered_children_first() {
    let m = parse_mod(SOURCE, s(&["crate"]), AstModType::Main).unwrap();
    let flat = flatten_mod(m, 4);
    assert_eq!(flat.len(), 3);
    assert_eq!(flat[0].module.idx, 4);
    assert_eq!(flat[0].module.path, s(&["crate", "inner", "deeper"]));
    assert!(flat[0].module.mods.is_empty());
    assert_eq!(flat[1].module.idx, 5);
    assert_eq!(flat[1].module.name, "inner");
    assert_eq!(flat[1].module.mods, vec![4]);
    assert_eq!(flat[1].items.len(), 1);
    assert_eq!(flat[1].items[0].ident, "Ping");
    assert_eq!(flat[2].module.idx, 6);
    assert_eq!(flat[2].module.path, s(&["crate"]));
    assert!(matches!(flat[2].module.ty, AstModType::Main));
    assert_eq!(flat[2].module.mods, vec![5]);
    assert_eq!(flat[2].items.len(), 2);
}

#[test]
fn module_read_from_items() {
    let items = vec![
        FileItem::Named { kind: ItemKind::Struct, name: "A".to_string(), attrs: vec![(s(&["component"]), AttrMeta::Path)], inputs: vec![] },
        FileItem::Named { kind: ItemKind::Fn, name: "plain".to_string(), attrs: vec![], inputs: vec![] },
        FileItem::Mod { name: "m".to_string(), attrs: vec![], content: Some(vec![FileItem::Other]) },
        FileItem::Mod {
            name: "f".to_string(),
            attrs: vec![(s(&["cfg"]), AttrMeta::List { text: "cfg(feature = \"x\")".to_string(), tokens: vec![] })],
            content: None,
        },
        FileItem::Other,
    ];
    let m = read_mod(items, s(&["crate", "lib"]), AstModType::Mod).unwrap();
    assert_eq!(m.name, "lib");
    assert_eq!(m.items.len(), 1);
    assert_eq!(m.items[0].path, s(&["crate", "lib", "A"]));
    assert_eq!(m.mods.len(), 1);
    assert!(matches!(&m.mods[0], ModEntry::Inline(c) if c.path == s(&["crate", "lib", "m"]) && c.items.is_empty()));
    assert!(m.errs.is_empty());
    assert_eq!(read_mod(vec![], vec![], AstModType::Mod).unwrap_err(), ModParseError::EmptyPath);
}
