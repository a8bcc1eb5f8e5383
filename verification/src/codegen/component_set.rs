use vstd::prelude::*;

use crate::component_set::parse::{AstLabelItem, LabelOp, SpecAst, lemma_views_push, views};
use crate::parse::find_path::{strings_equal, strs};

verus! {

/// A label expression whose leaves name components by their position in a
/// list of component types.
#[derive(Debug)]
pub enum IndexedLabel {
    Item { not: bool, component: usize },
    Expression { op: LabelOp, items: Vec<IndexedLabel> },
}

/// The mathematical form of an indexed label expression.
pub enum SpecIndexed {
    Leaf { not: bool, component: usize },
    Node { op: LabelOp, items: Seq<SpecIndexed> },
}

impl IndexedLabel {
    pub open spec fn view(self) -> SpecIndexed
        decreases self,
    {
        match self {
            IndexedLabel::Item { not, component } => SpecIndexed::Leaf { not, component },
            IndexedLabel::Expression { op, items } => SpecIndexed::Node { op, items: indexed_views(items@) },
        }
    }
}

pub open spec fn indexed_views(v: Seq<IndexedLabel>) -> Seq<SpecIndexed>
    decreases v,
{
    if v.len() == 0 {
        Seq::empty()
    } else {
        indexed_views(v.drop_last()).push(v.last().view())
    }
}

/// A list of component types as paths.
pub open spec fn path_views(v: Seq<Vec<String>>) -> Seq<Seq<Seq<char>>> {
    v.map_values(|p: Vec<String>| strs(p@))
}

/// The position of the first type of `comps` equal to `ty`, from `k` on.
pub open spec fn position_of(comps: Seq<Seq<Seq<char>>>, ty: Seq<Seq<char>>, k: int) -> Option<int>
    decreases comps.len() - k,
{
    if k < 0 || k >= comps.len() {
        None
    } else if comps[k] == ty {
        Some(k)
    } else {
        position_of(comps, ty, k + 1)
    }
}

/// The position of `ty` in `comps`, added at the end when it is not there
/// yet, and the list afterwards.
pub open spec fn intern(comps: Seq<Seq<Seq<char>>>, ty: Seq<Seq<char>>) -> (usize, Seq<Seq<Seq<char>>>) {
    match position_of(comps, ty, 0) {
        Some(i) => (i as usize, comps),
        None => (comps.len() as usize, comps.push(ty)),
    }
}

/// A label expression with each type replaced by its position in the list
/// of component types, which grows with each new type met, leaves read left
/// to right.
pub open spec fn label_indexed(x: SpecAst, comps: Seq<Seq<Seq<char>>>) -> (SpecIndexed, Seq<Seq<Seq<char>>>)
    decreases x,
{
    match x {
        SpecAst::Leaf { not, ty } => {
            let (i, c) = intern(comps, ty);
            (SpecIndexed::Leaf { not, component: i }, c)
        },
        SpecAst::Node { op, items } => {
            let (v, c) = list_indexed(items, comps);
            (SpecIndexed::Node { op, items: v }, c)
        },
    }
}

pub open spec fn list_indexed(items: Seq<SpecAst>, comps: Seq<Seq<Seq<char>>>) -> (Seq<SpecIndexed>, Seq<Seq<Seq<char>>>)
    decreases items,
{
    if items.len() == 0 {
        (Seq::empty(), comps)
    } else {
        let (v, c) = list_indexed(items.drop_last(), comps);
        let (x, c2) = label_indexed(items.last(), c);
        (v.push(x), c2)
    }
}

fn intern_path(comps: &mut Vec<Vec<String>>, ty: &Vec<String>) -> (r: usize)
    ensures
        (r, path_views(final(comps)@)) == intern(path_views(old(comps)@), strs(ty@)),
{
    let ghost c0 = path_views(comps@);
    let mut k: usize = 0;
    while k < comps.len()
        invariant
            k <= comps@.len(),
            c0 == path_views(comps@),
            position_of(c0, strs(ty@), 0) == position_of(c0, strs(ty@), k as int),
        decreases comps@.len() - k,
    {
        if strings_equal(&comps[k], ty) {
            return k;
        }
        k = k + 1;
    }
    let n = comps.len();
    let mut t: Vec<String> = ty.clone();
    assert(t@ =~= ty@);
    comps.push(t);
    assert(path_views(comps@) =~= c0.push(strs(ty@)));
    n
}

/// Numbers the component types of a label expression by first appearance,
/// adding the new ones to `comps`, and gives the expression over those
/// numbers.
pub fn get_labels(item: &AstLabelItem, comps: &mut Vec<Vec<String>>) -> (r: IndexedLabel)
    ensures
        (r.view(), path_views(final(comps)@)) == label_indexed(item.view(), path_views(old(comps)@)),
    decreases item,
{
    match item {
        AstLabelItem::Item { not, ty } => {
            let i = intern_path(comps, ty);
            IndexedLabel::Item { not: *not, component: i }
        },
        AstLabelItem::Expression { op, items } => {
            let ghost c0 = path_views(comps@);
            let mut out: Vec<IndexedLabel> = Vec::new();
            let mut k: usize = 0;
            proof {
                assert(views(items@.take(0)) =~= Seq::<SpecAst>::empty());
                assert(indexed_views(out@) =~= Seq::<SpecIndexed>::empty());
            }
            while k < items.len()
                invariant
                    k <= items@.len(),
                    *item == (AstLabelItem::Expression { op: *op, items: item->items }),
                    item->items@ == items@,
                    (indexed_views(out@), path_views(comps@)) == list_indexed(views(items@.take(k as int)), c0),
                decreases items@.len() - k,
            {
                proof {
                    assert(items@.take(k + 1).drop_last() == items@.take(k as int));
                    assert(items@.take(k + 1) == items@.take(k as int).push(items@[k as int]));
                    lemma_views_push(items@.take(k as int), items@[k as int]);
                    let vs = views(items@.take(k as int));
                    assert(vs.push(items@[k as int].view()).drop_last() == vs);
                    assert(decreases_to!(item => items@[k as int])) by {
                        assert(items@[k as int] == item->items@[k as int]);
                    }
                }
                let x = get_labels(&items[k], comps);
                let ghost before = out@;
                out.push(x);
                assert(indexed_views(out@) =~= indexed_views(before).push(x.view())) by {
                    assert(out@.drop_last() == before);
                }
                k = k + 1;
            }
            proof {
                assert(items@.take(items@.len() as int) == items@);
            }
            IndexedLabel::Expression { op: *op, items: out }
        },
    }
}

} // verus!
