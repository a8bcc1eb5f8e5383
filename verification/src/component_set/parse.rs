use vstd::prelude::*;

use crate::parse::find_path::{ItemPath, lemma_strs_index, strs};

verus! {

/// The two binary operators of a label expression.
#[derive(Eq, PartialEq, Copy, Clone, Debug, Structural)]
pub enum LabelOp {
    And,
    Or,
}

impl LabelOp {
    /// The dual operator (De Morgan).
    pub open spec fn dual(self) -> LabelOp {
        match self {
            LabelOp::And => LabelOp::Or,
            LabelOp::Or => LabelOp::And,
        }
    }

    /// Replaces the operator by its dual: `&&` becomes `||` and `||` becomes `&&`.
    pub fn negate(&mut self)
        ensures
            *final(self) == old(self).dual(),
    {
        *self = match self {
            LabelOp::And => LabelOp::Or,
            LabelOp::Or => LabelOp::And,
        }
    }
}

} // verus!

verus! {

/// The mathematical form of a parsed label expression: a (possibly negated)
/// type path, or an operator applied to a list of sub-expressions.
pub enum SpecAst {
    Leaf { not: bool, ty: Seq<Seq<char>> },
    Node { op: LabelOp, items: Seq<SpecAst> },
}

/// `&&` is true on no operands, `||` false.
pub open spec fn unit(op: LabelOp) -> bool {
    op == LabelOp::And
}

pub open spec fn apply(op: LabelOp, x: bool, y: bool) -> bool {
    match op {
        LabelOp::And => x && y,
        LabelOp::Or => x || y,
    }
}

impl SpecAst {
    /// The value of the expression when every label type `t` has the value `a(t)`.
    pub open spec fn eval(self, a: spec_fn(Seq<Seq<char>>) -> bool) -> bool
        decreases self,
    {
        match self {
            SpecAst::Leaf { not, ty } => a(ty) != not,
            SpecAst::Node { op, items } => eval_list(op, items, a),
        }
    }

    /// The negation by De Morgan's laws: leaves flip, operators swap.
    pub open spec fn negation(self) -> SpecAst
        decreases self,
    {
        match self {
            SpecAst::Leaf { not, ty } => SpecAst::Leaf { not: !not, ty },
            SpecAst::Node { op, items } => SpecAst::Node { op: op.dual(), items: negate_list(items) },
        }
    }
}

/// `op` applied to the values of all expressions in `items`.
pub open spec fn eval_list(op: LabelOp, items: Seq<SpecAst>, a: spec_fn(Seq<Seq<char>>) -> bool) -> bool
    decreases items,
{
    if items.len() == 0 {
        unit(op)
    } else {
        apply(op, eval_list(op, items.drop_last(), a), items.last().eval(a))
    }
}

/// The negation of each expression.
pub open spec fn negate_list(items: Seq<SpecAst>) -> Seq<SpecAst>
    decreases items,
{
    if items.len() == 0 {
        Seq::empty()
    } else {
        negate_list(items.drop_last()).push(items.last().negation())
    }
}

/// A parsed label expression.
#[derive(Debug)]
pub enum AstLabelItem {
    Item { not: bool, ty: Vec<String> },
    Expression { op: LabelOp, items: Vec<AstLabelItem> },
}

impl AstLabelItem {
    pub open spec fn view(self) -> SpecAst
        decreases self,
    {
        match self {
            AstLabelItem::Item { not, ty } => SpecAst::Leaf { not, ty: strs(ty@) },
            AstLabelItem::Expression { op, items } => SpecAst::Node { op, items: views(items@) },
        }
    }
}

/// The mathematical forms of a list of expressions.
pub open spec fn views(items: Seq<AstLabelItem>) -> Seq<SpecAst>
    decreases items,
{
    if items.len() == 0 {
        Seq::empty()
    } else {
        views(items.drop_last()).push(items.last().view())
    }
}

pub proof fn lemma_views_push(items: Seq<AstLabelItem>, x: AstLabelItem)
    ensures
        views(items.push(x)) == views(items).push(x.view()),
{
    assert(items.push(x).drop_last() == items);
}

pub proof fn lemma_views_concat(a: Seq<AstLabelItem>, b: Seq<AstLabelItem>)
    ensures
        views(a + b) == views(a) + views(b),
    decreases b.len(),
{
    if b.len() == 0 {
        assert(a + b == a);
        assert(views(a) + views(b) == views(a));
    } else {
        lemma_views_concat(a, b.drop_last());
        assert((a + b).drop_last() == a + b.drop_last());
        assert(views(a) + views(b) == (views(a) + views(b.drop_last())).push(b.last().view()));
    }
}

impl AstLabelItem {
    /// The expression negated by De Morgan's laws.
    pub fn negated(self) -> (r: Self)
        ensures
            r.view() == self.view().negation(),
        decreases self,
    {
        match self {
            AstLabelItem::Item { not, ty } => AstLabelItem::Item { not: !not, ty },
            AstLabelItem::Expression { op, items } => {
                let ghost all = items@;
                let mut new_items: Vec<AstLabelItem> = Vec::new();
                let mut new_op = op;
                new_op.negate();
                for item in it: items
                    invariant
                        it.seq() == all,
                        self == (AstLabelItem::Expression { op, items: self->items }),
                        self->items@ == all,
                        views(new_items@) == negate_list(views(all.take(it.index() as int))),
                {
                    let ghost i = it.index() as int;
                    proof {
                        assert(all.take(i + 1) == all.take(i).push(item));
                        lemma_views_push(all.take(i), item);
                        let vs = views(all.take(i));
                        assert(vs.push(item.view()).drop_last() == vs);
                        assert(decreases_to!(self => item)) by {
                            assert(item == self->items@[i]);
                        }
                    }
                    let n = item.negated();
                    proof {
                        lemma_views_push(new_items@, n);
                    }
                    new_items.push(n);
                }
                assert(all.take(all.len() as int) == all);
                AstLabelItem::Expression { op: new_op, items: new_items }
            },
        }
    }

    /// Negates the expression in place by De Morgan's laws.
    pub fn negate(&mut self)
        ensures
            final(self).view() == old(self).view().negation(),
    {
        let mut cur = AstLabelItem::Item { not: false, ty: Vec::new() };
        core::mem::swap(&mut cur, self);
        *self = cur.negated();
    }
}

} // verus!

verus! {

/// Negating an expression negates its value under every assignment.
pub proof fn law_negation_flips_value(x: SpecAst, a: spec_fn(Seq<Seq<char>>) -> bool)
    ensures
        x.negation().eval(a) == !x.eval(a),
    decreases x,
{
    match x {
        SpecAst::Leaf { .. } => {},
        SpecAst::Node { op, items } => {
            lemma_negate_list_eval(op, items, a);
        },
    }
}

proof fn lemma_negate_list_eval(op: LabelOp, items: Seq<SpecAst>, a: spec_fn(Seq<Seq<char>>) -> bool)
    ensures
        eval_list(op.dual(), negate_list(items), a) == !eval_list(op, items, a),
    decreases items,
{
    if items.len() > 0 {
        let rest = items.drop_last();
        lemma_negate_list_eval(op, rest, a);
        law_negation_flips_value(items.last(), a);
        let n = negate_list(items);
        assert(n.drop_last() == negate_list(rest));
    }
}

/// Negating twice gives back the same expression.
pub proof fn law_double_negation(x: SpecAst)
    ensures
        x.negation().negation() == x,
    decreases x,
{
    match x {
        SpecAst::Leaf { .. } => {},
        SpecAst::Node { op, items } => {
            lemma_negate_list_twice(items);
            assert(op.dual().dual() == op);
        },
    }
}

proof fn lemma_negate_list_twice(items: Seq<SpecAst>)
    ensures
        negate_list(negate_list(items)) == items,
    decreases items,
{
    if items.len() > 0 {
        let rest = items.drop_last();
        lemma_negate_list_twice(rest);
        law_double_negation(items.last());
        let n = negate_list(items);
        assert(n.drop_last() == negate_list(rest));
        assert(negate_list(n) =~= items);
    }
}

} // verus!

verus! {

pub proof fn lemma_views_index(items: Seq<AstLabelItem>)
    ensures
        views(items).len() == items.len(),
        forall|i: int| 0 <= i < items.len() ==> #[trigger] views(items)[i] == items[i].view(),
    decreases items.len(),
{
    if items.len() > 0 {
        lemma_views_index(items.drop_last());
    }
}

/// The part an item contributes to the flattened items of an `op` expression:
/// its own items if it is an `op` expression, else itself.
pub open spec fn spliced(x: SpecAst, op: LabelOp) -> Seq<SpecAst> {
    match x {
        SpecAst::Node { op: o, items } => if o == op { items } else { seq![x] },
        _ => seq![x],
    }
}

/// The items with each sub-expression under the same operator spliced in.
pub open spec fn flat(items: Seq<SpecAst>, op: LabelOp) -> Seq<SpecAst>
    decreases items.len(),
{
    if items.len() == 0 {
        Seq::empty()
    } else {
        flat(items.drop_last(), op) + spliced(items.last(), op)
    }
}

/// A single item stays as it is; several items become one flattened `op`
/// expression.
pub open spec fn group(items: Seq<SpecAst>, op: LabelOp) -> SpecAst {
    if items.len() == 1 {
        items[0]
    } else {
        SpecAst::Node { op, items: flat(items, op) }
    }
}

/// The first `k` operators read with `&&` binding tighter than `||`: the
/// finished `&&` groups, and the group still open.
pub open spec fn split(first: SpecAst, noops: Seq<SpecAst>, ops: Seq<LabelOp>, k: int) -> (Seq<SpecAst>, Seq<SpecAst>)
    decreases k,
{
    if k <= 0 {
        (Seq::empty(), seq![first])
    } else {
        let (ors, ands) = split(first, noops, ops, k - 1);
        if ops[k - 1] == LabelOp::And {
            (ors, ands.push(noops[k - 1]))
        } else {
            (ors.push(group(ands, LabelOp::And)), seq![noops[k - 1]])
        }
    }
}

/// A label expression as written: one item, or a first item followed by
/// operator / item pairs (extra items or operators are ignored).
#[derive(Debug)]
pub enum Expression {
    Item(AstLabelItem),
    Expr { first: AstLabelItem, noops: Vec<AstLabelItem>, ops: Vec<LabelOp> },
}

pub open spec fn pair_count(noops: Seq<AstLabelItem>, ops: Seq<LabelOp>) -> int {
    if noops.len() < ops.len() { noops.len() as int } else { ops.len() as int }
}

/// The expression tree that `to_item` builds.
pub open spec fn expression_tree(e: Expression) -> SpecAst {
    match e {
        Expression::Item(i) => i.view(),
        Expression::Expr { first, noops, ops } => {
            let (ors, ands) = split(first.view(), views(noops@), ops@, pair_count(noops@, ops@));
            group(ors.push(group(ands, LabelOp::And)), LabelOp::Or)
        },
    }
}

/// The value of the expression as written, `&&` binding tighter than `||`:
/// the value of the finished `||` part and of the open `&&` group after `k`
/// operators.
pub open spec fn infix_state(first: SpecAst, noops: Seq<SpecAst>, ops: Seq<LabelOp>, k: int, a: spec_fn(Seq<Seq<char>>) -> bool) -> (bool, bool)
    decreases k,
{
    if k <= 0 {
        (false, first.eval(a))
    } else {
        let (o, c) = infix_state(first, noops, ops, k - 1, a);
        if ops[k - 1] == LabelOp::And {
            (o, c && noops[k - 1].eval(a))
        } else {
            (o || c, noops[k - 1].eval(a))
        }
    }
}

/// The value of a written expression, `&&` binding tighter than `||`.
pub open spec fn infix_value(e: Expression, a: spec_fn(Seq<Seq<char>>) -> bool) -> bool {
    match e {
        Expression::Item(i) => i.view().eval(a),
        Expression::Expr { first, noops, ops } => {
            let (o, c) = infix_state(first.view(), views(noops@), ops@, pair_count(noops@, ops@), a);
            o || c
        },
    }
}

/// One item as it is, or several combined under `op`, with the
/// sub-expressions under the same operator spliced in.
fn get_item(items: Vec<AstLabelItem>, op: LabelOp) -> (r: AstLabelItem)
    requires
        items@.len() > 0,
    ensures
        r.view() == group(views(items@), op),
{
    proof {
        lemma_views_index(items@);
    }
    if items.len() == 1 {
        let mut items = items;
        return items.remove(0);
    }
    let ghost all = items@;
    let mut out: Vec<AstLabelItem> = Vec::new();
    for item in it: items
        invariant
            it.seq() == all,
            views(out@) == flat(views(all.take(it.index() as int)), op),
    {
        let ghost i = it.index() as int;
        proof {
            assert(all.take(i + 1) == all.take(i).push(item));
            lemma_views_push(all.take(i), item);
            let vs = views(all.take(i));
            assert(vs.push(item.view()).drop_last() == vs);
        }
        match item {
            AstLabelItem::Item { not, ty } => {
                let x = AstLabelItem::Item { not, ty };
                proof {
                    lemma_views_push(out@, x);
                }
                out.push(x);
            },
            AstLabelItem::Expression { op: e_op, items: e_items } => {
                if e_op == op {
                    let mut e_items = e_items;
                    proof {
                        lemma_views_concat(out@, e_items@);
                    }
                    out.append(&mut e_items);
                } else {
                    let x = AstLabelItem::Expression { op: e_op, items: e_items };
                    proof {
                        lemma_views_push(out@, x);
                    }
                    out.push(x);
                }
            },
        }
    }
    assert(all.take(all.len() as int) == all);
    AstLabelItem::Expression { op, items: out }
}

impl Expression {
    /// Builds the expression tree, `&&` binding tighter than `||`, negated
    /// when `neg` is set.
    pub fn to_item(self, neg: bool) -> (r: Result<AstLabelItem, String>)
        ensures
            r matches Ok(x) && x.view() == if neg { expression_tree(self).negation() } else { expression_tree(self) },
    {
        let mut item = match self {
            Expression::Item(i) => i,
            Expression::Expr { first, noops, ops } => {
                let ghost f = first.view();
                let ghost ns = views(noops@);
                let n = if noops.len() < ops.len() { noops.len() } else { ops.len() };
                let ghost orig = noops@;
                let mut noops = noops;
                noops.truncate(n);
                let ghost kept = noops@;
                proof {
                    lemma_views_index(kept);
                    lemma_views_index(orig);
                    assert(kept == orig.subrange(0, n as int));
                }
                let mut ors: Vec<AstLabelItem> = Vec::new();
                let mut ands: Vec<AstLabelItem> = vec![first];
                proof {
                    assert(ands@ == seq![].push(ands@[0]));
                    lemma_views_push(seq![], ands@[0]);
                    assert(views(ors@) == Seq::<SpecAst>::empty());
                }
                let mut k: usize = 0;
                for item in it: noops
                    invariant
                        it.seq() == kept,
                        k == it.index(),
                        n == kept.len(),
                        n <= ops@.len(),
                        views(kept).len() == kept.len(),
                        forall|j: int| 0 <= j < n ==> #[trigger] views(kept)[j] == ns[j],
                        ns.len() >= n,
                        ands@.len() > 0,
                        (views(ors@), views(ands@)) == split(f, ns, ops@, k as int),
                {
                    let op = ops[k];
                    proof {
                        lemma_views_index(kept);
                        assert(it.seq()[k as int] == item);
                        assert(views(kept)[k as int] == kept[k as int].view());
                        assert(views(kept)[k as int] == ns[k as int]);
                        assert(item.view() == ns[k as int]);
                    }
                    match op {
                        LabelOp::And => {
                            proof {
                                lemma_views_push(ands@, item);
                            }
                            ands.push(item);
                        },
                        LabelOp::Or => {
                            let done = ands;
                            let g = get_item(done, LabelOp::And);
                            proof {
                                lemma_views_push(ors@, g);
                            }
                            ors.push(g);
                            ands = vec![item];
                            proof {
                                assert(views(ands@) == seq![item.view()]) by {
                                    assert(ands@ == seq![].push(item));
                                    lemma_views_push(seq![], item);
                                }
                            }
                        },
                    }
                    k = k + 1;
                }
                let g = get_item(ands, LabelOp::And);
                proof {
                    lemma_views_push(ors@, g);
                }
                ors.push(g);
                get_item(ors, LabelOp::Or)
            },
        };
        if neg {
            item.negate();
        }
        Ok(item)
    }
}

} // verus!

verus! {

proof fn lemma_eval_list_single(op: LabelOp, x: SpecAst, a: spec_fn(Seq<Seq<char>>) -> bool)
    ensures
        eval_list(op, seq![x], a) == x.eval(a),
{
    assert(seq![x].drop_last() == Seq::<SpecAst>::empty());
    assert(eval_list(op, Seq::<SpecAst>::empty(), a) == unit(op));
}

proof fn lemma_eval_list_concat(op: LabelOp, x: Seq<SpecAst>, y: Seq<SpecAst>, a: spec_fn(Seq<Seq<char>>) -> bool)
    ensures
        eval_list(op, x + y, a) == apply(op, eval_list(op, x, a), eval_list(op, y, a)),
    decreases y.len(),
{
    if y.len() == 0 {
        assert(x + y == x);
    } else {
        lemma_eval_list_concat(op, x, y.drop_last(), a);
        assert((x + y).drop_last() == x + y.drop_last());
        assert((x + y).last() == y.last());
    }
}

proof fn lemma_flat_eval(items: Seq<SpecAst>, op: LabelOp, a: spec_fn(Seq<Seq<char>>) -> bool)
    ensures
        eval_list(op, flat(items, op), a) == eval_list(op, items, a),
    decreases items.len(),
{
    if items.len() > 0 {
        let rest = items.drop_last();
        let x = items.last();
        lemma_flat_eval(rest, op, a);
        lemma_eval_list_concat(op, flat(rest, op), spliced(x, op), a);
        match x {
            SpecAst::Node { op: o, items: its } => {
                if o != op {
                    lemma_eval_list_single(op, x, a);
                }
                assert(eval_list(op, spliced(x, op), a) == x.eval(a));
            },
            _ => {
                lemma_eval_list_single(op, x, a);
                assert(eval_list(op, spliced(x, op), a) == x.eval(a));
            },
        }
        assert(flat(items, op) == flat(rest, op) + spliced(x, op));
        assert(eval_list(op, items, a) == apply(op, eval_list(op, rest, a), x.eval(a)));
    }
}

proof fn lemma_group_eval(items: Seq<SpecAst>, op: LabelOp, a: spec_fn(Seq<Seq<char>>) -> bool)
    requires
        items.len() > 0,
    ensures
        group(items, op).eval(a) == eval_list(op, items, a),
{
    if items.len() == 1 {
        assert(items == seq![items[0]]);
        lemma_eval_list_single(op, items[0], a);
    } else {
        lemma_flat_eval(items, op, a);
    }
}

proof fn lemma_split_eval(first: SpecAst, noops: Seq<SpecAst>, ops: Seq<LabelOp>, k: int, a: spec_fn(Seq<Seq<char>>) -> bool)
    ensures
        split(first, noops, ops, k).1.len() > 0,
        eval_list(LabelOp::Or, split(first, noops, ops, k).0, a) == infix_state(first, noops, ops, k, a).0,
        eval_list(LabelOp::And, split(first, noops, ops, k).1, a) == infix_state(first, noops, ops, k, a).1,
    decreases k,
{
    if k <= 0 {
        lemma_eval_list_single(LabelOp::And, first, a);
        assert(eval_list(LabelOp::Or, Seq::<SpecAst>::empty(), a) == false);
    } else {
        lemma_split_eval(first, noops, ops, k - 1, a);
        let (ors, ands) = split(first, noops, ops, k - 1);
        if ops[k - 1] == LabelOp::And {
            assert(ands.push(noops[k - 1]).drop_last() == ands);
        } else {
            lemma_group_eval(ands, LabelOp::And, a);
            assert(ors.push(group(ands, LabelOp::And)).drop_last() == ors);
            lemma_eval_list_single(LabelOp::And, noops[k - 1], a);
        }
    }
}

/// The tree that `to_item` builds has the value of the written expression
/// read with `&&` binding tighter than `||`, under every assignment.
pub proof fn law_expression_tree_value(e: Expression, a: spec_fn(Seq<Seq<char>>) -> bool)
    ensures
        expression_tree(e).eval(a) == infix_value(e, a),
{
    match e {
        Expression::Item(_) => {},
        Expression::Expr { first, noops, ops } => {
            let k = pair_count(noops@, ops@);
            let (ors, ands) = split(first.view(), views(noops@), ops@, k);
            lemma_split_eval(first.view(), views(noops@), ops@, k, a);
            lemma_group_eval(ands, LabelOp::And, a);
            let all = ors.push(group(ands, LabelOp::And));
            lemma_group_eval(all, LabelOp::Or, a);
            assert(all.drop_last() == ors);
        },
    }
}

} // verus!

verus! {

/// The tree of a written expression given by its parts.
pub open spec fn tree_of(first: SpecAst, noops: Seq<SpecAst>, ops: Seq<LabelOp>) -> SpecAst {
    let n = if noops.len() < ops.len() { noops.len() as int } else { ops.len() as int };
    let (ors, ands) = split(first, noops, ops, n);
    group(ors.push(group(ands, LabelOp::And)), LabelOp::Or)
}

pub proof fn lemma_tree_of(e: Expression)
    ensures
        expression_tree(e) == match e {
            Expression::Item(i) => tree_of(i.view(), Seq::empty(), Seq::empty()),
            Expression::Expr { first, noops, ops } => tree_of(first.view(), views(noops@), ops@),
        },
{
    match e {
        Expression::Item(i) => {
            let (ors, ands) = split(i.view(), Seq::empty(), Seq::empty(), 0);
            assert(ors == Seq::<SpecAst>::empty());
            assert(ands == seq![i.view()]);
            assert(ors.push(group(ands, LabelOp::And)) == seq![i.view()]);
        },
        Expression::Expr { first, noops, ops } => {
            lemma_views_index(noops@);
        },
    }
}

} // verus!

verus! {

/// The shape of a written Rust type: a path with the generic arguments of
/// its last segment, a reference, a trait object (for each of its bounds the
/// trait's path, or none for a bound that is not a trait, such as a
/// lifetime; and the type as written), or anything else (as written).
#[derive(Debug)]
pub enum TypeShape {
    Path { path: Vec<String>, generics: Option<Vec<GenericArg>> },
    Reference { mutable: bool, elem: Box<TypeShape> },
    TraitObject { bounds: Vec<Option<Vec<String>>>, text: String },
    Other(String),
}

/// A generic argument: a type, or anything else (a lifetime, a constant, ...).
#[derive(Debug)]
pub enum GenericArg {
    Type(TypeShape),
    Other,
}

/// The mathematical form of a written type.
pub enum SpecType {
    Path { path: Seq<Seq<char>>, generics: Option<Seq<SpecGeneric>> },
    Reference { mutable: bool, elem: Box<SpecType> },
    TraitObject { traits: Seq<Seq<Seq<char>>>, text: Seq<char> },
    Other(Seq<char>),
}

pub enum SpecGeneric {
    Type(SpecType),
    Other,
}

/// The paths of the bounds that are traits, in order.
pub open spec fn trait_paths(bounds: Seq<Option<Vec<String>>>) -> Seq<Seq<Seq<char>>>
    decreases bounds.len(),
{
    if bounds.len() == 0 {
        Seq::empty()
    } else {
        let r = trait_paths(bounds.drop_last());
        match bounds.last() {
            Some(p) => r.push(strs(p@)),
            None => r,
        }
    }
}

/// The bounds of a trait object that are traits, in order.
pub fn trait_bounds(bounds: &Vec<Option<Vec<String>>>) -> (r: Vec<Vec<String>>)
    ensures
        r@.map_values(|t: Vec<String>| strs(t@)) == trait_paths(bounds@),
{
    let mut r: Vec<Vec<String>> = Vec::new();
    let mut i: usize = 0;
    while i < bounds.len()
        invariant
            i <= bounds@.len(),
            r@.map_values(|t: Vec<String>| strs(t@)) == trait_paths(bounds@.take(i as int)),
        decreases bounds@.len() - i,
    {
        assert(bounds@.take(i + 1).drop_last() == bounds@.take(i as int));
        match &bounds[i] {
            Some(p) => {
                let ghost before = r@;
                let q = p.clone();
                assert(q@ =~= p@);
                r.push(q);
                assert(r@.map_values(|t: Vec<String>| strs(t@)) =~= before.map_values(|t: Vec<String>| strs(t@)).push(strs(q@)));
            },
            None => {},
        }
        i = i + 1;
    }
    assert(bounds@.take(bounds@.len() as int) == bounds@);
    r
}

impl TypeShape {
    pub open spec fn view(self) -> SpecType
        decreases self,
    {
        match self {
            TypeShape::Path { path, generics } => SpecType::Path {
                path: strs(path@),
                generics: match generics {
                    Some(g) => Some(generic_views(g@)),
                    None => None,
                },
            },
            TypeShape::Reference { mutable, elem } => SpecType::Reference { mutable, elem: Box::new((*elem).view()) },
            TypeShape::TraitObject { bounds, text } => SpecType::TraitObject {
                traits: trait_paths(bounds@),
                text: text@,
            },
            TypeShape::Other(text) => SpecType::Other(text@),
        }
    }
}

impl GenericArg {
    pub open spec fn view(self) -> SpecGeneric
        decreases self,
    {
        match self {
            GenericArg::Type(t) => SpecGeneric::Type(t.view()),
            GenericArg::Other => SpecGeneric::Other,
        }
    }
}

pub open spec fn generic_views(g: Seq<GenericArg>) -> Seq<SpecGeneric>
    decreases g,
{
    if g.len() == 0 {
        Seq::empty()
    } else {
        generic_views(g.drop_last()).push(g.last().view())
    }
}

pub proof fn lemma_generic_views(g: Seq<GenericArg>)
    ensures
        generic_views(g).len() == g.len(),
        forall|i: int| 0 <= i < g.len() ==> #[trigger] generic_views(g)[i] == g[i].view(),
    decreases g.len(),
{
    if g.len() > 0 {
        lemma_generic_views(g.drop_last());
    }
}

/// How many references a type is nested in, at most.
pub open spec fn ref_depth(ty: SpecType) -> nat
    decreases ty,
{
    match ty {
        SpecType::Reference { elem, .. } => 1 + ref_depth(*elem),
        SpecType::Path { generics: Some(g), .. } =>
            if g.len() == 1 && g[0] is Type { ref_depth(g[0]->Type_0) } else { 0 },
        _ => 0,
    }
}

/// What an entity-set argument of type `ty` takes: the component path, the
/// number of references, mutability and optionality; or why it is invalid.
pub open spec fn item_shape(ty: SpecType) -> Result<(Seq<Seq<char>>, nat, bool, bool), Seq<char>>
    decreases ty,
{
    match ty {
        SpecType::Path { path, generics } => {
            if path == seq!["Option"@] {
                match generics {
                    None => Err("Missing generics after Option<>"@),
                    Some(g) => if g.len() == 1 {
                        match g[0] {
                            SpecGeneric::Type(t) => match item_shape(t) {
                                Ok((p, n, m, o)) => if o { Err("Cannot nest Option<>"@) } else { Ok((p, n, m, true)) },
                                Err(e) => Err(e),
                            },
                            SpecGeneric::Other => Err("Expected type generic"@),
                        }
                    } else {
                        Err("Multiple generics after Option<>"@)
                    },
                }
            } else {
                Ok((path, 0, false, false))
            }
        },
        SpecType::Reference { mutable, elem } => match item_shape(*elem) {
            Ok((p, n, m, o)) => if o {
                Err("Optional arguments may not be taken by reference"@)
            } else {
                Ok((p, n + 1, m || mutable, o))
            },
            Err(e) => Err(e),
        },
        SpecType::TraitObject { .. } => Err("Invalid argument type"@),
        SpecType::Other(_) => Err("Invalid argument type"@),
    }
}

proof fn lemma_shape_depth(ty: SpecType)
    ensures
        item_shape(ty) matches Ok((p, n, m, o)) ==> n <= ref_depth(ty),
    decreases ty,
{
    match ty {
        SpecType::Reference { elem, .. } => lemma_shape_depth(*elem),
        SpecType::Path { generics: Some(g), .. } => {
            if g.len() == 1 && g[0] is Type {
                lemma_shape_depth(g[0]->Type_0);
            }
        },
        _ => {},
    }
}

/// A component of an entity set as written: its variable, the component
/// path, references, mutability and optionality.
#[derive(Debug)]
pub struct AstComponentSetItem {
    pub var: String,
    pub ty: ItemPath,
    pub ref_cnt: usize,
    pub is_mut: bool,
    pub is_opt: bool,
}

impl AstComponentSetItem {
    /// The entity-set argument `var` of type `ty`.
    pub fn from(var: String, ty: &TypeShape) -> (r: Result<Self, String>)
        requires
            ref_depth(ty.view()) < usize::MAX,
        ensures
            match item_shape(ty.view()) {
                Ok((p, n, m, o)) => r matches Ok(i) && i.var == var && i.ty.cr_idx == 0
                    && strs(i.ty.path@) == p && i.ref_cnt == n && i.is_mut == m && i.is_opt == o,
                Err(e) => r matches Err(msg) && msg@ == e,
            },
        decreases ty,
    {
        match ty {
            TypeShape::Path { path, generics } => {
                let is_option = path.len() == 1 && path[0] == String::from_str("Option");
                proof {
                    assert(is_option == (strs(path@) == seq!["Option"@])) by {
                        lemma_strs_index(path@);
                        if strs(path@) == seq!["Option"@] {
                            assert(strs(path@)[0] == path@[0]@);
                        }
                        if is_option {
                            assert(strs(path@) =~= seq!["Option"@]);
                        }
                    }
                }
                if is_option {
                    match generics {
                        None => Err(String::from_str("Missing generics after Option<>")),
                        Some(g) => {
                            proof {
                                lemma_generic_views(g@);
                            }
                            if g.len() == 1 {
                                match &g[0] {
                                    GenericArg::Type(t) => {
                                        let i = Self::from(var, t);
                                        match i {
                                            Ok(i) => if i.is_opt {
                                                Err(String::from_str("Cannot nest Option<>"))
                                            } else {
                                                let mut i = i;
                                                i.is_opt = true;
                                                Ok(i)
                                            },
                                            Err(e) => Err(e),
                                        }
                                    },
                                    GenericArg::Other => Err(String::from_str("Expected type generic")),
                                }
                            } else {
                                Err(String::from_str("Multiple generics after Option<>"))
                            }
                        },
                    }
                } else {
                    let p = path.clone();
                    assert(p@ =~= path@);
                    Ok(Self { var, ty: ItemPath { cr_idx: 0, path: p }, ref_cnt: 0, is_mut: false, is_opt: false })
                }
            },
            TypeShape::Reference { mutable, elem } => {
                proof {
                    lemma_shape_depth((**elem).view());
                }
                let i = Self::from(var, elem);
                match i {
                    Ok(i) => if i.is_opt {
                        Err(String::from_str("Optional arguments may not be taken by reference"))
                    } else {
                        let mut i = i;
                        i.ref_cnt = i.ref_cnt + 1;
                        i.is_mut = i.is_mut || *mutable;
                        Ok(i)
                    },
                    Err(e) => Err(e),
                }
            },
            TypeShape::TraitObject { .. } => Err(String::from_str("Invalid argument type")),
            TypeShape::Other(_) => Err(String::from_str("Invalid argument type")),
        }
    }
}

} // verus!
