use parser::component_set::grammar::AstComponentSet;
use parser::component_set::parse::{AstComponentSetItem, AstLabelItem, Expression, GenericArg, LabelOp, TypeShape};
use parser::parse::tokens::{Delimiter, TokenTree};

fn id(s: &str) -> TokenTree {
    TokenTree::Ident(s.to_string())
}

fn p(ch: char) -> TokenTree {
    TokenTree::Punct { ch, joint: false }
}

fn pj(ch: char) -> TokenTree {
    TokenTree::Punct { ch, joint: true }
}

fn and() -> Vec<TokenTree> {
    vec![pj('&'), p('&')]
}

fn or() -> Vec<TokenTree> {
    vec![pj('|'), p('|')]
}

fn group(stream: Vec<TokenTree>) -> TokenTree {
    TokenTree::Group { delim: Delimiter::Parenthesis, stream }
}

fn cat(parts: Vec<Vec<TokenTree>>) -> Vec<TokenTree> {
    parts.into_iter().flatten().collect()
}

fn text(item: &AstLabelItem) -> String {
    match item {
        AstLabelItem::Item { not, ty } => format!("{}{}", if *not { "!" } else { "" }, ty.join("::")),
        AstLabelItem::Expression { op, items } => {
            let sep = match op {
                LabelOp::And => " && ",
                LabelOp::Or => " || ",
            };
            format!("({})", items.iter().map(text).collect::<Vec<_>>().join(sep))
        }
    }
}

fn parse_labels(tokens: Vec<TokenTree>) -> Result<String, String> {
    Expression::parse(&tokens).and_then(|e| e.to_item(false)).map(|i| text(&i))
}

#[test]
fn and_binds_tighter_than_or() {
    // a && b || c
    let ts = cat(vec![vec![id("a")], and(), vec![id("b")], or(), vec![id("c")]]);
    assert_eq!(parse_labels(ts), Ok("((a && b) || c)".to_string()));
    // a || b && c
    let ts = cat(vec![vec![id("a")], or(), vec![id("b")], and(), vec![id("c")]]);
    assert_eq!(parse_labels(ts), Ok("(a || (b && c))".to_string()));
}

#[test]
fn same_operator_is_flattened() {
    // a && (b && c) && d
    let inner = cat(vec![vec![id("b")], and(), vec![id("c")]]);
    let ts = cat(vec![vec![id("a")], and(), vec![group(inner)], and(), vec![id("d")]]);
    assert_eq!(parse_labels(ts), Ok("(a && b && c && d)".to_string()));
}

#[test]
fn negated_group_uses_de_morgan() {
    // !(a || !b)
    let inner = cat(vec![vec![id("a")], or(), vec![p('!'), id("b")]]);
    let ts = vec![p('!'), group(inner)];
    assert_eq!(parse_labels(ts), Ok("(!a && b)".to_string()));
    // !!a
    assert_eq!(parse_labels(vec![p('!'), p('!'), id("a")]), Ok("a".to_string()));
}

#[test]
fn paths_in_labels() {
    // crate::comps::Pos || ::x::Y
    let ts = vec![
        id("crate"), pj(':'), p(':'), id("comps"), pj(':'), p(':'), id("Pos"),
        pj('|'), p('|'),
        pj(':'), p(':'), id("x"), pj(':'), p(':'), id("Y"),
    ];
    assert_eq!(parse_labels(ts), Ok("(crate::comps::Pos || x::Y)".to_string()));
}

#[test]
fn label_errors() {
    assert_eq!(parse_labels(vec![p('&')]), Err("Expected label type".to_string()));
    assert_eq!(parse_labels(vec![id("a"), p('+'), id("b")]), Err("Expected Op: '||' or '&&'".to_string()));
    assert_eq!(parse_labels(cat(vec![vec![id("a")], and()])), Err("Expected label type".to_string()));
    assert_eq!(parse_labels(vec![id("a"), pj(':'), p(':')]), Err("Expected label type".to_string()));
}

#[test]
fn label_op_and_item_parse() {
    let ts = cat(vec![and(), or()]);
    assert_eq!(LabelOp::parse(&ts, 0), Ok(LabelOp::And));
    assert_eq!(LabelOp::parse(&ts, 2), Ok(LabelOp::Or));
    assert!(LabelOp::parse(&ts, 1).is_err());
    let ts = vec![p('!'), id("a"), id("b")];
    let (item, end) = AstLabelItem::parse(&ts, 0).unwrap();
    assert_eq!(text(&item), "!a");
    assert_eq!(end, 2);
}

fn ty_path(segs: &[&str]) -> TypeShape {
    TypeShape::Path { path: segs.iter().map(|s| s.to_string()).collect(), generics: None }
}

fn option_of(t: TypeShape) -> TypeShape {
    TypeShape::Path { path: vec!["Option".to_string()], generics: Some(vec![GenericArg::Type(t)]) }
}

fn reference(mutable: bool, t: TypeShape) -> TypeShape {
    TypeShape::Reference { mutable, elem: Box::new(t) }
}

#[test]
fn component_set_item_from_types() {
    let i = AstComponentSetItem::from("pos".to_string(), &reference(true, ty_path(&["crate", "Pos"]))).unwrap();
    assert_eq!(i.var, "pos");
    assert_eq!(i.ty.path, vec!["crate".to_string(), "Pos".to_string()]);
    assert_eq!((i.ref_cnt, i.is_mut, i.is_opt), (1, true, false));

    let i = AstComponentSetItem::from("v".to_string(), &option_of(reference(false, ty_path(&["Vel"])))).unwrap();
    assert_eq!((i.ref_cnt, i.is_mut, i.is_opt), (1, false, true));

    let err = |t: TypeShape| AstComponentSetItem::from("x".to_string(), &t).unwrap_err();
    assert_eq!(err(reference(false, option_of(ty_path(&["A"])))), "Optional arguments may not be taken by reference");
    assert_eq!(err(option_of(option_of(ty_path(&["A"])))), "Cannot nest Option<>");
    assert_eq!(err(ty_path(&["Option"])), "Missing generics after Option<>");
    assert_eq!(
        err(TypeShape::Path { path: vec!["Option".to_string()], generics: Some(vec![]) }),
        "Multiple generics after Option<>"
    );
    assert_eq!(
        err(TypeShape::Path { path: vec!["Option".to_string()], generics: Some(vec![GenericArg::Other]) }),
        "Expected type generic"
    );
    assert_eq!(err(TypeShape::Other("(A, B)".to_string())), "Invalid argument type");
}

#[test]
fn component_set_declaration() {
    // labels(a && !b), Movers, pos: &mut Pos, vel: Option<&'a Vel>,
    let labels = cat(vec![vec![id("a")], and(), vec![p('!'), id("b")]]);
    let ts = vec![
        id("labels"), group(labels), p(','), id("Movers"),
        p(','), id("pos"), p(':'), p('&'), id("mut"), id("Pos"),
        p(','), id("vel"), p(':'), id("Option"), p('<'), p('&'), pj('\''), id("a"), id("Vel"), p('>'),
        p(','),
    ];
    let cs = AstComponentSet::parse(&ts).unwrap();
    assert_eq!(cs.ident, "Movers");
    assert_eq!(text(cs.labels.as_ref().unwrap()), "(a && !b)");
    assert_eq!(cs.args.len(), 2);
    assert_eq!(cs.args[0].var, "pos");
    assert_eq!((cs.args[0].ref_cnt, cs.args[0].is_mut, cs.args[0].is_opt), (1, true, false));
    assert_eq!(cs.args[1].var, "vel");
    assert_eq!(cs.args[1].ty.path, vec!["Vel".to_string()]);
    assert_eq!((cs.args[1].ref_cnt, cs.args[1].is_mut, cs.args[1].is_opt), (1, false, true));
}

#[test]
fn component_set_without_labels() {
    let ts = vec![id("Players"), p(','), id("p"), p(':'), p('&'), id("Player")];
    let cs = AstComponentSet::parse(&ts).unwrap();
    assert_eq!(cs.ident, "Players");
    assert!(cs.labels.is_none());
    assert_eq!(cs.args.len(), 1);
    // empty labels
    let ts = vec![id("labels"), group(vec![]), p(','), id("Empty")];
    let cs = AstComponentSet::parse(&ts).unwrap();
    assert!(cs.labels.is_none());
    assert_eq!(cs.args.len(), 0);
}

#[test]
fn component_set_errors() {
    let err = |ts: Vec<TokenTree>| AstComponentSet::parse(&ts).unwrap_err();
    assert_eq!(err(vec![p(',')]), "Expected ident");
    assert_eq!(err(vec![id("labels"), id("x")]), "Expected parentheses after labels");
    assert_eq!(err(vec![id("labels"), group(vec![id("a")]), id("x")]), "Expected ',' after label expression");
    assert_eq!(err(vec![id("labels"), group(vec![id("a")]), p(','), p(',')]), "Expected ident after label expression");
    assert_eq!(err(vec![id("S"), p(','), p(':')]), "Expected variable name");
    assert_eq!(err(vec![id("S"), p(','), id("x"), id("y")]), "Expected ':'");
    assert_eq!(err(vec![id("S"), p(','), id("x"), p(':'), p(',')]), "Expected variable type");
    assert_eq!(err(vec![id("S"), id("T")]), "unexpected token");
    assert_eq!(err(vec![id("S"), p(','), id("x"), p(':'), p('&'), id("Option"), p('<'), id("A"), p('>')]),
        "Optional arguments may not be taken by reference");
}
