use parser::component_set::labels::{ComponentSetLabels, LabelSymbol, LabelsExpression, MustBe, TruthMap};
use parser::component_set::parse::LabelOp;
use parser::component_set::resolve::LabelItem;
use parser::parse::symbol::ComponentSymbol;

fn sym(idx: usize) -> LabelSymbol {
    LabelSymbol { comp: ComponentSymbol { idx, is_singleton: false } }
}

fn label_var(not: bool, idx: usize) -> LabelItem {
    LabelItem::Item { not, sym: sym(idx) }
}

fn truth(pairs: &[(usize, bool)]) -> TruthMap {
    let mut t = TruthMap::new();
    for (i, v) in pairs {
        t.insert(sym(*i), *v);
    }
    t
}

fn expect_expression(actual: ComponentSetLabels, labels: &str, trues: Vec<usize>, falses: Vec<usize>, unknowns: Vec<usize>) {
    match actual {
        ComponentSetLabels::Expression(LabelsExpression { labels: l, true_symbols, false_symbols, unknown_symbols }) => {
            assert_eq!(l.to_string(), labels);
            assert_eq!(true_symbols, trues.into_iter().map(sym).collect::<Vec<_>>());
            assert_eq!(false_symbols, falses.into_iter().map(sym).collect::<Vec<_>>());
            assert_eq!(unknown_symbols, unknowns.into_iter().map(sym).collect::<Vec<_>>());
        }
        ComponentSetLabels::Constant(v) => panic!("expected an expression, got the constant {v}"),
    }
}

fn expect_constant(actual: ComponentSetLabels, expected: bool) {
    match actual {
        ComponentSetLabels::Constant(v) => assert_eq!(v, expected),
        ComponentSetLabels::Expression(e) => panic!("expected a constant, got {}", e.labels.to_string()),
    }
}

// (1 && (0 || !1 || !0))
fn labels_one() -> LabelItem {
    LabelItem::Expression {
        op: LabelOp::And,
        items: vec![
            label_var(false, 1),
            LabelItem::Expression {
                op: LabelOp::Or,
                items: vec![label_var(false, 0), label_var(true, 1), label_var(true, 0)],
            },
        ],
    }
}

#[test]
fn test_labels() {
    let labels = labels_one();
    assert_eq!(labels.to_string(), "(1 && (0 || !1 || !0))");
    expect_expression(labels.evaluate_labels(truth(&[])), "(1 && (0 || !0))", vec![1], vec![], vec![0]);
    expect_expression(labels_one().evaluate_labels(truth(&[(0, true)])), "(1)", vec![1], vec![], vec![]);
}

#[test]
fn test_labels2() {
    // 0 && ((1) || !0 || !1) && 1
    let labels = LabelItem::Expression {
        op: LabelOp::And,
        items: vec![
            label_var(false, 0),
            LabelItem::Expression {
                op: LabelOp::Or,
                items: vec![label_var(false, 1), label_var(true, 0), label_var(true, 1)],
            },
            label_var(false, 1),
        ],
    };
    expect_expression(labels.evaluate_labels(truth(&[(0, true)])), "(1)", vec![1], vec![], vec![]);
}

#[test]
fn constant_labels() {
    // 0 && !0 is never true
    let never = LabelItem::Expression { op: LabelOp::And, items: vec![label_var(false, 0), label_var(true, 0)] };
    expect_constant(never.evaluate_labels(truth(&[])), false);
    // 0 || !0 is not reduced: 0 stays unknown
    let either = LabelItem::Expression { op: LabelOp::Or, items: vec![label_var(false, 0), label_var(true, 0)] };
    expect_expression(either.evaluate_labels(truth(&[])), "((0 || !0))", vec![], vec![], vec![0]);
    // with 0 known, it is a constant
    let either = LabelItem::Expression { op: LabelOp::Or, items: vec![label_var(false, 0), label_var(true, 0)] };
    expect_constant(either.evaluate_labels(truth(&[(0, false)])), true);
    // 2 with 2 known false
    expect_constant(label_var(false, 2).evaluate_labels(truth(&[(2, false)])), false);
    expect_constant(label_var(false, 2).evaluate_labels(truth(&[(2, true)])), true);
}

#[test]
fn single_label_forces_its_symbol() {
    expect_expression(label_var(true, 3).evaluate_labels(truth(&[])), "(!3)", vec![], vec![3], vec![]);
}

#[test]
fn get_symbols_reports_requirements() {
    let labels = labels_one();
    match labels.get_symbols(&truth(&[])) {
        parser::component_set::labels::ExpressionResult::Expression { symbols, .. } => {
            assert_eq!(symbols.get(&sym(1)), Some(MustBe::Value(true)));
            assert_eq!(symbols.get(&sym(0)), Some(MustBe::Unknown));
        }
        parser::component_set::labels::ExpressionResult::Literal(v) => panic!("unexpected literal {v}"),
    }
    match labels_one().get_symbols(&truth(&[(1, false)])) {
        parser::component_set::labels::ExpressionResult::Literal(v) => assert!(!v),
        _ => panic!("expected a literal"),
    }
}

#[test]
fn iter_symbols_in_order() {
    let e = LabelsExpression {
        labels: label_var(false, 0),
        true_symbols: vec![sym(0), sym(4)],
        false_symbols: vec![sym(2)],
        unknown_symbols: vec![sym(7)],
    };
    assert_eq!(e.iter_symbols(), vec![sym(0), sym(4), sym(2), sym(7)]);
    let l = ComponentSetLabels::Expression(e);
    assert_eq!(l.first_true_symbol(), Some(&sym(0)));
    assert_eq!(ComponentSetLabels::Constant(true).first_true_symbol(), None);
}

#[test]
fn negate_op() {
    let mut op = LabelOp::And;
    op.negate();
    assert_eq!(op, LabelOp::Or);
    op.negate();
    assert_eq!(op, LabelOp::And);
}

#[test]
fn requirements_and_labels_are_written_back() {
    assert_eq!(MustBe::Value(true).to_string(), "True");
    assert_eq!(MustBe::Value(false).to_string(), "False");
    assert_eq!(MustBe::Unknown.to_string(), "Unknown");
    assert_eq!(ComponentSetLabels::Constant(false).to_string(), "false");
    assert_eq!(ComponentSetLabels::Constant(true).to_string(), "true");
    let labels = LabelItem::Expression { op: LabelOp::And, items: vec![label_var(false, 1), label_var(true, 0)] };
    let e = ComponentSetLabels::Expression(LabelsExpression {
        labels,
        true_symbols: vec![sym(1)],
        false_symbols: vec![sym(0)],
        unknown_symbols: vec![],
    });
    assert_eq!(e.to_string(), "(1 && !0)");
}

#[test]
fn label_types_numbered_by_first_appearance() {
    use_indexed_labels();
}

fn use_indexed_labels() {
    let leaf = |not: bool, t: &str| parser::component_set::parse::AstLabelItem::Item { not, ty: vec![t.to_string()] };
    let expr = parser::component_set::parse::AstLabelItem::Expression {
        op: LabelOp::And,
        items: vec![
            leaf(false, "A"),
            parser::component_set::parse::AstLabelItem::Expression { op: LabelOp::Or, items: vec![leaf(true, "B"), leaf(false, "A")] },
        ],
    };
    let mut comps = vec![vec!["Z".to_string()]];
    let r = parser::codegen::component_set::get_labels(&expr, &mut comps);
    assert_eq!(comps, vec![vec!["Z".to_string()], vec!["A".to_string()], vec!["B".to_string()]]);
    match r {
        parser::codegen::component_set::IndexedLabel::Expression { op, items } => {
            assert_eq!(op, LabelOp::And);
            assert!(matches!(items[0], parser::codegen::component_set::IndexedLabel::Item { not: false, component: 1 }));
            match &items[1] {
                parser::codegen::component_set::IndexedLabel::Expression { op, items } => {
                    assert_eq!(*op, LabelOp::Or);
                    assert!(matches!(items[0], parser::codegen::component_set::IndexedLabel::Item { not: true, component: 2 }));
                    assert!(matches!(items[1], parser::codegen::component_set::IndexedLabel::Item { not: false, component: 1 }));
                }
                _ => panic!("expected an expression"),
            }
        }
        _ => panic!("expected an expression"),
    }
}

#[test]
fn fixed_leaves_true_then_false() {
    // (!1 && 0 && (2 || 3))
    let labels = LabelItem::Expression {
        op: LabelOp::And,
        items: vec![
            label_var(true, 1),
            label_var(false, 0),
            LabelItem::Expression { op: LabelOp::Or, items: vec![label_var(false, 2), label_var(false, 3)] },
        ],
    };
    match labels.evaluate_labels(truth(&[])) {
        ComponentSetLabels::Expression(e) => {
            assert_eq!(e.true_symbols, vec![sym(0)]);
            assert_eq!(e.false_symbols, vec![sym(1)]);
            assert_eq!(e.labels.to_string(), "(0 && !1 && (2 || 3))");
        }
        ComponentSetLabels::Constant(v) => panic!("expected an expression, got the constant {v}"),
    }
}
