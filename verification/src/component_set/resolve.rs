use vstd::prelude::*;

use crate::component_set::labels::{ComponentSetLabels, LabelSymbol, MustBe, SpecLabel};
use crate::component_set::grammar::AstComponentSet;
use crate::component_set::labels::TruthMap;
use crate::component_set::parse::{AstComponentSetItem, AstLabelItem, SpecAst, lemma_views_index, lemma_views_push, views};
use crate::parse::ast_crate::{AstCrate, AstMod};
use crate::parse::find_path::{ItemPath, join, join_strings, path_sep, resolution, resolvable, resolve_path, strs};
use crate::parse::match_symbol::{MatchSymbol, SymbolError, SymbolFail};
use crate::resolve::util::{decimal, usize_to_string};
use crate::parse::symbol::{ComponentSymbol, SymbolType};
use crate::component_set::parse::LabelOp;

verus! {

/// A resolved label expression: a (possibly negated) component, or an
/// operator applied to a list of sub-expressions.
#[derive(Debug)]
pub enum LabelItem {
    Item { not: bool, sym: LabelSymbol },
    Expression { op: LabelOp, items: Vec<LabelItem> },
}

impl LabelItem {
    /// The mathematical form of the expression.
    pub open spec fn spec_label(self) -> SpecLabel
        decreases self,
    {
        match self {
            LabelItem::Item { not, sym } => SpecLabel::Leaf { not, sym },
            LabelItem::Expression { op, items } => SpecLabel::Node {
                op,
                items: spec_labels(items@),
            },
        }
    }
}

/// The mathematical forms of a list of expressions.
pub open spec fn spec_labels(items: Seq<LabelItem>) -> Seq<SpecLabel>
    decreases items,
{
    if items.len() == 0 {
        Seq::empty()
    } else {
        spec_labels(items.drop_last()).push(items.last().spec_label())
    }
}

pub proof fn lemma_spec_labels(items: Seq<LabelItem>)
    ensures
        spec_labels(items).len() == items.len(),
        forall|i: int| 0 <= i < items.len() ==> #[trigger] spec_labels(items)[i] == items[i].spec_label(),
    decreases items.len(),
{
    if items.len() > 0 {
        lemma_spec_labels(items.drop_last());
    }
}

} // verus!

verus! {

/// The value behind an optional reference.
pub open spec fn deref_opt<T>(o: Option<&T>) -> Option<T> {
    match o {
        Some(x) => Some(*x),
        None => None,
    }
}

/// A component taken by an entity set: the variable that names it, the
/// written type, the resolved component, how many `&` it is taken through,
/// whether mutably, and whether it is optional (`Option<..>`).
#[derive(Debug)]
pub struct ComponentSetItem {
    pub var: String,
    pub ty: String,
    pub sym: LabelSymbol,
    pub ref_cnt: usize,
    pub is_mut: bool,
    pub is_opt: bool,
}

/// An entity set: its path, its components, and its label expression once
/// evaluated.
#[derive(Debug)]
pub struct ComponentSet {
    pub path: ItemPath,
    pub args: Vec<ComponentSetItem>,
    pub labels: Option<ComponentSetLabels>,
}

/// The first required (non-optional) argument from position `k` on, singleton
/// ones only if `singleton`.
pub open spec fn first_required(args: Seq<ComponentSetItem>, singleton: bool, k: int) -> Option<ComponentSetItem>
    decreases args.len() - k,
{
    if k < 0 || k >= args.len() {
        None
    } else if !args[k].is_opt && (!singleton || args[k].sym.comp.is_singleton) {
        Some(args[k])
    } else {
        first_required(args, singleton, k + 1)
    }
}

/// The first symbol from position `k` on, singleton ones only if `singleton`.
pub open spec fn first_symbol(syms: Seq<LabelSymbol>, singleton: bool, k: int) -> Option<LabelSymbol>
    decreases syms.len() - k,
{
    if k < 0 || k >= syms.len() {
        None
    } else if !singleton || syms[k].comp.is_singleton {
        Some(syms[k])
    } else {
        first_symbol(syms, singleton, k + 1)
    }
}

/// The first required argument, singleton ones first.
pub open spec fn spec_first_arg(args: Seq<ComponentSetItem>) -> Option<ComponentSetItem> {
    match first_required(args, true, 0) {
        Some(a) => Some(a),
        None => first_required(args, false, 0),
    }
}

/// The first symbol that the labels require true, singleton ones first.
pub open spec fn spec_first_label(labels: Option<ComponentSetLabels>) -> Option<LabelSymbol> {
    match labels {
        Some(ComponentSetLabels::Expression(e)) => match first_symbol(e.true_symbols@, true, 0) {
            Some(s) => Some(s),
            None => first_symbol(e.true_symbols@, false, 0),
        },
        _ => None,
    }
}

/// The first required argument or required-true label, a singleton taking
/// precedence; an argument wins over a label of the same kind.
pub open spec fn spec_first_arg_label(arg: Option<ComponentSetItem>, label: Option<LabelSymbol>) -> Option<LabelSymbol> {
    match (arg, label) {
        (Some(a), Some(l)) => if !a.sym.comp.is_singleton && l.comp.is_singleton { Some(l) } else { Some(a.sym) },
        (Some(a), None) => Some(a.sym),
        (None, Some(l)) => Some(l),
        (None, None) => None,
    }
}

/// The argument is required (not optional) and takes a singleton component.
pub open spec fn required_single(a: ComponentSetItem) -> bool {
    !a.is_opt && a.sym.comp.is_singleton
}

/// The argument is required and, if `singleton`, takes a singleton component.
pub open spec fn required_fits(a: ComponentSetItem, singleton: bool) -> bool {
    !a.is_opt && (!singleton || a.sym.comp.is_singleton)
}

proof fn lemma_first_required(args: Seq<ComponentSetItem>, singleton: bool, k: int)
    requires
        0 <= k,
    ensures
        first_required(args, singleton, k) matches Some(a) ==> exists|i: int| k <= i < args.len() && args[i] == a
            && required_fits(args[i], singleton) && forall|j: int| k <= j < i ==> !required_fits(#[trigger] args[j], singleton),
        first_required(args, singleton, k) is None ==> forall|i: int| k <= i < args.len() ==> !required_fits(#[trigger] args[i], singleton),
    decreases args.len() - k,
{
    if k < args.len() {
        lemma_first_required(args, singleton, k + 1);
        if !required_fits(args[k], singleton) {
            if let Some(a) = first_required(args, singleton, k + 1) {
                let i = choose|i: int| k + 1 <= i < args.len() && args[i] == a
                    && required_fits(args[i], singleton) && forall|j: int| k + 1 <= j < i ==> !required_fits(#[trigger] args[j], singleton);
                assert forall|j: int| k <= j < i implies !required_fits(#[trigger] args[j], singleton) by {
                    if j > k {
                        assert(k + 1 <= j < i);
                    }
                }
            }
        } else {
            assert(forall|j: int| k <= j < k ==> !required_fits(#[trigger] args[j], singleton));
        }
    }
}

/// Which argument an entity set's matches start from: the first required
/// argument that takes a singleton component, if there is one; else the
/// first required argument; none when every argument is optional.
pub proof fn law_first_arg(args: Seq<ComponentSetItem>)
    ensures
        (exists|i: int| 0 <= i < args.len() && required_single(#[trigger] args[i])) ==> exists|i: int| 0 <= i < args.len()
            && spec_first_arg(args) == Some(args[i]) && required_single(args[i])
            && forall|j: int| 0 <= j < i ==> !required_single(#[trigger] args[j]),
        !(exists|i: int| 0 <= i < args.len() && required_single(#[trigger] args[i]))
            && (exists|i: int| 0 <= i < args.len() && !(#[trigger] args[i]).is_opt) ==> exists|i: int| 0 <= i < args.len()
            && spec_first_arg(args) == Some(args[i]) && !args[i].is_opt
            && forall|j: int| 0 <= j < i ==> (#[trigger] args[j]).is_opt,
        (forall|i: int| 0 <= i < args.len() ==> (#[trigger] args[i]).is_opt) ==> spec_first_arg(args) is None,
{
    lemma_first_required(args, true, 0);
    lemma_first_required(args, false, 0);
    if exists|i: int| 0 <= i < args.len() && required_single(#[trigger] args[i]) {
        let w = choose|i: int| 0 <= i < args.len() && required_single(#[trigger] args[i]);
        assert(required_fits(args[w], true));
        let a = first_required(args, true, 0)->0;
        let i = choose|i: int| 0 <= i < args.len() && args[i] == a
            && required_fits(args[i], true) && forall|j: int| 0 <= j < i ==> !required_fits(#[trigger] args[j], true);
        assert forall|j: int| 0 <= j < i implies !required_single(#[trigger] args[j]) by {
            assert(!required_fits(args[j], true));
        }
    } else {
        if first_required(args, true, 0) is Some {
            let a = first_required(args, true, 0)->0;
            let i = choose|i: int| 0 <= i < args.len() && args[i] == a && required_fits(args[i], true)
                && forall|j: int| 0 <= j < i ==> !required_fits(#[trigger] args[j], true);
            assert(required_single(args[i]));
        }
        if exists|i: int| 0 <= i < args.len() && !(#[trigger] args[i]).is_opt {
            let w = choose|i: int| 0 <= i < args.len() && !(#[trigger] args[i]).is_opt;
            assert(required_fits(args[w], false));
            let a = first_required(args, false, 0)->0;
            let i = choose|i: int| 0 <= i < args.len() && args[i] == a
                && required_fits(args[i], false) && forall|j: int| 0 <= j < i ==> !required_fits(#[trigger] args[j], false);
            assert forall|j: int| 0 <= j < i implies (#[trigger] args[j]).is_opt by {
                assert(!required_fits(args[j], false));
            }
        } else {
            assert forall|i: int| 0 <= i < args.len() implies !required_fits(#[trigger] args[i], false) by {
                assert(args[i].is_opt);
            }
            if first_required(args, false, 0) is Some {
                let a = first_required(args, false, 0)->0;
                let i = choose|i: int| 0 <= i < args.len() && args[i] == a && required_fits(args[i], false)
                    && forall|j: int| 0 <= j < i ==> !required_fits(#[trigger] args[j], false);
            }
        }
    }
}

fn find_required(args: &Vec<ComponentSetItem>, singleton: bool) -> (r: Option<&ComponentSetItem>)
    ensures
        deref_opt(r) == first_required(args@, singleton, 0),
{
    let mut k: usize = 0;
    while k < args.len()
        invariant
            k <= args@.len(),
            first_required(args@, singleton, 0) == first_required(args@, singleton, k as int),
        decreases args@.len() - k,
    {
        let a = &args[k];
        if !a.is_opt && (!singleton || a.sym.comp.is_singleton) {
            return Some(a);
        }
        k = k + 1;
    }
    None
}

fn find_symbol(syms: &Vec<LabelSymbol>, singleton: bool) -> (r: Option<&LabelSymbol>)
    ensures
        deref_opt(r) == first_symbol(syms@, singleton, 0),
{
    let mut k: usize = 0;
    while k < syms.len()
        invariant
            k <= syms@.len(),
            first_symbol(syms@, singleton, 0) == first_symbol(syms@, singleton, k as int),
        decreases syms@.len() - k,
    {
        let s = &syms[k];
        if !singleton || s.comp.is_singleton {
            return Some(s);
        }
        k = k + 1;
    }
    None
}

impl ComponentSet {
    /// The first non-optional argument, singleton arguments first.
    pub fn first_arg(&self) -> (r: Option<&ComponentSetItem>)
        ensures
            deref_opt(r) == spec_first_arg(self.args@),
    {
        match find_required(&self.args, true) {
            Some(a) => Some(a),
            None => find_required(&self.args, false),
        }
    }

    /// The first symbol the labels require true, singleton symbols first.
    pub fn first_label(&self) -> (r: Option<&LabelSymbol>)
        ensures
            deref_opt(r) == spec_first_label(self.labels),
    {
        match &self.labels {
            Some(ComponentSetLabels::Expression(e)) => match find_symbol(&e.true_symbols, true) {
                Some(s) => Some(s),
                None => find_symbol(&e.true_symbols, false),
            },
            _ => None,
        }
    }

    /// The first argument or required-true label, singletons first.
    pub fn first_arg_label(&self) -> (r: Option<&LabelSymbol>)
        ensures
            deref_opt(r) == spec_first_arg_label(spec_first_arg(self.args@), spec_first_label(self.labels)),
    {
        match (self.first_arg(), self.first_label()) {
            (Some(arg), Some(sym)) => {
                if !arg.sym.comp.is_singleton && sym.comp.is_singleton {
                    Some(sym)
                } else {
                    Some(&arg.sym)
                }
            },
            (Some(arg), None) => Some(&arg.sym),
            (None, Some(sym)) => Some(sym),
            (None, None) => None,
        }
    }

    /// Whether the set is tied to a singleton through an argument or a label.
    pub fn has_singleton(&self) -> (r: bool)
        ensures
            r == (spec_first_arg_label(spec_first_arg(self.args@), spec_first_label(self.labels)) matches Some(s)
                && s.comp.is_singleton),
    {
        match self.first_arg_label() {
            Some(sym) => sym.comp.is_singleton,
            None => false,
        }
    }
}

} // verus!

verus! {

/// The component named by `ty` as written in module `m` of crate `cr`.
pub open spec fn resolve_component(crates: Seq<AstCrate>, cr: AstCrate, m: AstMod, ty: Seq<Seq<char>>) -> Result<ComponentSymbol, SymbolFail> {
    match resolution(crates, ty, cr, m) {
        Ok(s) => match s.kind {
            SymbolType::Component(c) => Ok(c),
            _ => Err(SymbolFail::Kind { expected: "Component"@, found: s.kind }),
        },
        Err(f) => Err(SymbolFail::Resolve(f)),
    }
}

/// Every type path of the expression resolves.
pub open spec fn paths_resolvable(crates: Seq<AstCrate>, cr: AstCrate, m: AstMod, x: SpecAst) -> bool
    decreases x,
{
    match x {
        SpecAst::Leaf { ty, .. } => resolvable(crates, ty, cr, m),
        SpecAst::Node { items, .. } => all_paths_resolvable(crates, cr, m, items),
    }
}

pub open spec fn all_paths_resolvable(crates: Seq<AstCrate>, cr: AstCrate, m: AstMod, items: Seq<SpecAst>) -> bool
    decreases items,
{
    if items.len() == 0 {
        true
    } else {
        all_paths_resolvable(crates, cr, m, items.drop_last()) && paths_resolvable(crates, cr, m, items.last())
    }
}

/// The expression with each type path replaced by its component, or all the
/// errors met.
pub open spec fn label_resolution(crates: Seq<AstCrate>, cr: AstCrate, m: AstMod, x: SpecAst) -> Result<SpecLabel, Seq<SymbolFail>>
    decreases x,
{
    match x {
        SpecAst::Leaf { not, ty } => match resolve_component(crates, cr, m, ty) {
            Ok(c) => Ok(SpecLabel::Leaf { not, sym: LabelSymbol { comp: c } }),
            Err(f) => Err(seq![f]),
        },
        SpecAst::Node { op, items } => {
            let (oks, errs) = list_resolution(crates, cr, m, items);
            if errs.len() == 0 { Ok(SpecLabel::Node { op, items: oks }) } else { Err(errs) }
        },
    }
}

/// The resolved expressions of a list, and all the errors met, in order.
pub open spec fn list_resolution(crates: Seq<AstCrate>, cr: AstCrate, m: AstMod, items: Seq<SpecAst>) -> (Seq<SpecLabel>, Seq<SymbolFail>)
    decreases items,
{
    if items.len() == 0 {
        (Seq::empty(), Seq::empty())
    } else {
        let (oks, errs) = list_resolution(crates, cr, m, items.drop_last());
        match label_resolution(crates, cr, m, items.last()) {
            Ok(l) => (oks.push(l), errs),
            Err(es) => (oks, errs + es),
        }
    }
}

pub open spec fn errors_view(v: Seq<SymbolError>) -> Seq<SymbolFail> {
    v.map_values(|e: SymbolError| e.view())
}

fn append_errors(errs: &mut Vec<SymbolError>, more: Vec<SymbolError>)
    ensures
        errors_view(final(errs)@) == errors_view(old(errs)@) + errors_view(more@),
{
    let mut more = more;
    let ghost a = errs@;
    let ghost b = more@;
    errs.append(&mut more);
    assert(errors_view(a + b) =~= errors_view(a) + errors_view(b));
}

impl LabelItem {
    /// Resolves each type path of the expression, written in module `m` of
    /// crate `cr`, to a component.
    pub fn resolve(item: AstLabelItem, m: &AstMod, cr: &AstCrate, crates: &Vec<AstCrate>) -> (r: Result<LabelItem, Vec<SymbolError>>)
        requires
            paths_resolvable(crates@, *cr, *m, item.view()),
        ensures
            match label_resolution(crates@, *cr, *m, item.view()) {
                Ok(l) => r matches Ok(x) && x.spec_label() == l,
                Err(es) => r matches Err(v) && errors_view(v@) == es,
            },
        decreases item,
    {
        match item {
            AstLabelItem::Item { not, ty } => {
                let found = resolve_path(ty, m, cr, crates).expect_component();
                match found {
                    Ok((_, comp)) => Ok(LabelItem::Item { not, sym: LabelSymbol { comp } }),
                    Err(e) => {
                        let v = vec![e];
                        assert(errors_view(v@) =~= seq![v@[0].view()]);
                        Err(v)
                    },
                }
            },
            AstLabelItem::Expression { op, items } => {
                let ghost all = items@;
                let mut oks: Vec<LabelItem> = Vec::new();
                let mut errs: Vec<SymbolError> = Vec::new();
                proof {
                    assert(errors_view(errs@) =~= Seq::<SymbolFail>::empty());
                }
                for x in it: items
                    invariant
                        it.seq() == all,
                        item == (AstLabelItem::Expression { op, items: item->items }),
                        item->items@ == all,
                        all_paths_resolvable(crates@, *cr, *m, views(all)),
                        ({
                            let (o, e) = list_resolution(crates@, *cr, *m, views(all.take(it.index() as int)));
                            spec_labels(oks@) == o && errors_view(errs@) == e
                        }),
                {
                    let ghost i = it.index() as int;
                    proof {
                        assert(all.take(i + 1) == all.take(i).push(x));
                        lemma_views_push(all.take(i), x);
                        let vs = views(all.take(i));
                        assert(vs.push(x.view()).drop_last() == vs);
                        lemma_views_index(all);
                        lemma_all_resolvable(crates@, *cr, *m, views(all), i);
                        assert(decreases_to!(item => x)) by {
                            assert(x == item->items@[i]);
                        }
                    }
                    let res = LabelItem::resolve(x, m, cr, crates);
                    match res {
                        Ok(l) => {
                            proof {
                                lemma_spec_labels_of_push(oks@, l);
                            }
                            oks.push(l);
                        },
                        Err(es) => append_errors(&mut errs, es),
                    }
                }
                assert(all.take(all.len() as int) == all);
                if errs.len() == 0 {
                    Ok(LabelItem::Expression { op, items: oks })
                } else {
                    Err(errs)
                }
            },
        }
    }
}

proof fn lemma_all_resolvable(crates: Seq<AstCrate>, cr: AstCrate, m: AstMod, items: Seq<SpecAst>, i: int)
    requires
        all_paths_resolvable(crates, cr, m, items),
        0 <= i < items.len(),
    ensures
        paths_resolvable(crates, cr, m, items[i]),
    decreases items.len(),
{
    if i < items.len() - 1 {
        lemma_all_resolvable(crates, cr, m, items.drop_last(), i);
    }
}

proof fn lemma_spec_labels_of_push(items: Seq<LabelItem>, x: LabelItem)
    ensures
        spec_labels(items.push(x)) == spec_labels(items).push(x.spec_label()),
{
    assert(items.push(x).drop_last() == items);
}

} // verus!

verus! {

/// The mathematical form of a resolved entity-set argument.
pub open spec fn item_view(i: ComponentSetItem) -> (Seq<char>, Seq<char>, LabelSymbol, usize, bool, bool) {
    (i.var@, i.ty@, i.sym, i.ref_cnt, i.is_mut, i.is_opt)
}

pub open spec fn item_views(v: Seq<ComponentSetItem>) -> Seq<(Seq<char>, Seq<char>, LabelSymbol, usize, bool, bool)> {
    v.map_values(|i: ComponentSetItem| item_view(i))
}

/// An argument as written, resolved in module `m` of crate `cr`.
pub open spec fn item_resolution(crates: Seq<AstCrate>, cr: AstCrate, m: AstMod, a: AstComponentSetItem)
    -> Result<(Seq<char>, Seq<char>, LabelSymbol, usize, bool, bool), SymbolFail>
{
    match resolve_component(crates, cr, m, strs(a.ty.path@)) {
        Ok(c) => Ok((a.var@, join(strs(a.ty.path@), path_sep()), LabelSymbol { comp: c }, a.ref_cnt, a.is_mut, a.is_opt)),
        Err(f) => Err(f),
    }
}

/// The resolved arguments, and all the errors met, in order.
pub open spec fn items_resolution(crates: Seq<AstCrate>, cr: AstCrate, m: AstMod, args: Seq<AstComponentSetItem>)
    -> (Seq<(Seq<char>, Seq<char>, LabelSymbol, usize, bool, bool)>, Seq<SymbolFail>)
    decreases args.len(),
{
    if args.len() == 0 {
        (Seq::empty(), Seq::empty())
    } else {
        let (oks, errs) = items_resolution(crates, cr, m, args.drop_last());
        match item_resolution(crates, cr, m, args.last()) {
            Ok(x) => (oks.push(x), errs),
            Err(f) => (oks, errs.push(f)),
        }
    }
}

/// The components the set requires (its non-optional arguments), all true.
pub open spec fn required_truth(args: Seq<ComponentSetItem>) -> Map<LabelSymbol, bool>
    decreases args.len(),
{
    if args.len() == 0 {
        Map::empty()
    } else {
        let prev = required_truth(args.drop_last());
        if args.last().is_opt { prev } else { prev.insert(args.last().sym, true) }
    }
}

/// The truth under which an entity set's labels are evaluated holds exactly
/// the components of its required (non-optional) arguments, each true: the
/// component of an optional argument is not in it unless a required
/// argument also takes it.
pub proof fn law_required_truth(args: Seq<ComponentSetItem>)
    ensures
        forall|s: LabelSymbol| #[trigger] required_truth(args).contains_key(s)
            <==> exists|i: int| 0 <= i < args.len() && !(#[trigger] args[i]).is_opt && args[i].sym == s,
        forall|s: LabelSymbol| #[trigger] required_truth(args).contains_key(s) ==> required_truth(args)[s],
    decreases args.len(),
{
    if args.len() > 0 {
        let rest = args.drop_last();
        law_required_truth(rest);
        let n = args.len() - 1;
        let t = required_truth(args);
        assert(t == if args.last().is_opt { required_truth(rest) } else { required_truth(rest).insert(args.last().sym, true) });
        assert forall|s: LabelSymbol| #[trigger] t.contains_key(s) implies t[s] by {
            if !args.last().is_opt && s == args.last().sym {
            } else {
                assert(required_truth(rest).contains_key(s));
            }
        }
        assert forall|s: LabelSymbol| #[trigger] required_truth(args).contains_key(s)
            <==> exists|i: int| 0 <= i < args.len() && !(#[trigger] args[i]).is_opt && args[i].sym == s by {
            if required_truth(args).contains_key(s) {
                if required_truth(rest).contains_key(s) {
                    let i = choose|i: int| 0 <= i < rest.len() && !(#[trigger] rest[i]).is_opt && rest[i].sym == s;
                    assert(args[i] == rest[i]);
                } else {
                    assert(args[n] == args.last());
                }
            }
            if exists|i: int| 0 <= i < args.len() && !(#[trigger] args[i]).is_opt && args[i].sym == s {
                let i = choose|i: int| 0 <= i < args.len() && !(#[trigger] args[i]).is_opt && args[i].sym == s;
                if i < n {
                    assert(rest[i] == args[i]);
                }
            }
        }
    }
}

/// The warning for a label expression that is constant.
pub open spec fn constant_warning(value: bool) -> Seq<char> {
    "Label expression is "@ + (if value { "always"@ } else { "never"@ }) + " true"@
}

impl ComponentSetItem {
    /// Resolves the argument's type, written in module `m` of crate `cr`,
    /// to a component.
    pub fn resolve(item: AstComponentSetItem, m: &AstMod, cr: &AstCrate, crates: &Vec<AstCrate>) -> (r: Result<ComponentSetItem, SymbolError>)
        requires
            resolvable(crates@, strs(item.ty.path@), *cr, *m),
        ensures
            match item_resolution(crates@, *cr, *m, item) {
                Ok(x) => r matches Ok(i) && item_view(i) == x,
                Err(f) => r matches Err(e) && e.view() == f,
            },
    {
        let ty = item.ty.to_string();
        let found = resolve_path(item.ty.path, m, cr, crates).expect_component();
        match found {
            Ok((_, comp)) => Ok(ComponentSetItem {
                var: item.var,
                ty,
                sym: LabelSymbol { comp },
                ref_cnt: item.ref_cnt,
                is_mut: item.is_mut,
                is_opt: item.is_opt,
            }),
            Err(e) => Err(e),
        }
    }
}

/// Every path of a written entity set resolves.
pub open spec fn set_resolvable(crates: Seq<AstCrate>, cr: AstCrate, m: AstMod, cs: AstComponentSet) -> bool {
    &&& forall|i: int| 0 <= i < cs.args@.len() ==> resolvable(crates, strs(#[trigger] cs.args@[i].ty.path@), cr, m)
    &&& cs.labels matches Some(l) ==> paths_resolvable(crates, cr, m, l.view())
}

impl ComponentSet {
    /// Resolves a written entity set declared in module `m` of crate `cr`:
    /// its arguments, and its labels evaluated knowing that the required
    /// arguments are present. A constant label expression gives a warning.
    pub fn resolve(cs: AstComponentSet, m: &AstMod, cr: &AstCrate, crates: &Vec<AstCrate>) -> (r: Result<(ComponentSet, Vec<String>), Vec<SymbolError>>)
        requires
            set_resolvable(crates@, *cr, *m, cs),
        ensures
            ({
                let (oks, arg_errs) = items_resolution(crates@, *cr, *m, cs.args@);
                let label_errs = match cs.labels {
                    Some(l) => match label_resolution(crates@, *cr, *m, l.view()) {
                        Ok(_) => Seq::empty(),
                        Err(es) => es,
                    },
                    None => Seq::empty(),
                };
                let errs = arg_errs + label_errs;
                match r {
                    Err(v) => errs.len() > 0 && errors_view(v@) == errs,
                    Ok((set, warnings)) => {
                        &&& errs.len() == 0
                        &&& set.path.cr_idx == cr.idx
                        &&& strs(set.path.path@) == strs(m.path@).push(cs.ident@)
                        &&& item_views(set.args@) == oks
                        &&& match (cs.labels, set.labels) {
                            (None, None) => warnings@.len() == 0,
                            (Some(l), Some(sl)) => {
                                &&& label_resolution(crates@, *cr, *m, l.view()) matches Ok(x)
                                    && sl.matches(x.evaluate(required_truth(set.args@)))
                                &&& match sl {
                                    ComponentSetLabels::Constant(b) => strs(warnings@) == seq![constant_warning(b)],
                                    _ => warnings@.len() == 0,
                                }
                            },
                            _ => false,
                        }
                    },
                }
            }),
    {
        let AstComponentSet { ident, args, labels } = cs;
        let ghost all = args@;
        let ghost labels_g = labels;
        let mut oks: Vec<ComponentSetItem> = Vec::new();
        let mut errs: Vec<SymbolError> = Vec::new();
        proof {
            assert(errors_view(errs@) =~= Seq::<SymbolFail>::empty());
            assert(item_views(oks@) =~= Seq::<(Seq<char>, Seq<char>, LabelSymbol, usize, bool, bool)>::empty());
        }
        for a in it: args
            invariant
                it.seq() == all,
                forall|i: int| 0 <= i < all.len() ==> resolvable(crates@, strs(#[trigger] all[i].ty.path@), *cr, *m),
                ({
                    let (o, e) = items_resolution(crates@, *cr, *m, all.take(it.index() as int));
                    item_views(oks@) == o && errors_view(errs@) == e
                }),
        {
            let ghost i = it.index() as int;
            proof {
                assert(all.take(i + 1).drop_last() == all.take(i));
                assert(all.take(i + 1).last() == a);
                assert(all[i] == a);
            }
            let res = ComponentSetItem::resolve(a, m, cr, crates);
            match res {
                Ok(x) => {
                    let ghost before = oks@;
                    oks.push(x);
                    assert(item_views(oks@) =~= item_views(before).push(item_view(x)));
                },
                Err(e) => {
                    let ghost before = errs@;
                    errs.push(e);
                    assert(errors_view(errs@) =~= errors_view(before).push(e.view()));
                },
            }
        }
        assert(all.take(all.len() as int) == all);
        let resolved_labels: Option<LabelItem> = match labels {
            Some(l) => {
                let res = LabelItem::resolve(l, m, cr, crates);
                match res {
                    Ok(x) => Some(x),
                    Err(es) => {
                        append_errors(&mut errs, es);
                        None
                    },
                }
            },
            None => None,
        };
        proof {
            let (o, ae) = items_resolution(crates@, *cr, *m, all);
            let le = match labels_g {
                Some(l) => match label_resolution(crates@, *cr, *m, l.view()) {
                    Ok(_) => Seq::<SymbolFail>::empty(),
                    Err(es) => es,
                },
                None => Seq::<SymbolFail>::empty(),
            };
            assert(errors_view(errs@) == ae + le);
        }
        if errs.len() > 0 {
            return Err(errs);
        }
        assert(errors_view(errs@).len() == 0);
        let mut truth = TruthMap::new();
        let mut k: usize = 0;
        while k < oks.len()
            invariant
                k <= oks@.len(),
                truth.wf(),
                truth.map() == required_truth(oks@.take(k as int)),
            decreases oks@.len() - k,
        {
            assert(oks@.take(k + 1).drop_last() == oks@.take(k as int));
            if !oks[k].is_opt {
                truth.insert(oks[k].sym, true);
            }
            k = k + 1;
        }
        assert(oks@.take(oks@.len() as int) == oks@);
        let mut warnings: Vec<String> = Vec::new();
        let set_labels = match resolved_labels {
            Some(l) => {
                let evaluated = l.evaluate_labels(truth);
                match &evaluated {
                    ComponentSetLabels::Constant(b) => {
                        let mut w = String::from_str("Label expression is ");
                        w.append(if *b { "always" } else { "never" });
                        w.append(" true");
                        warnings.push(w);
                        assert(strs(warnings@) =~= seq![w@]);
                    },
                    _ => {},
                }
                Some(evaluated)
            },
            None => None,
        };
        let mut path = m.path.clone();
        assert(path@ =~= m.path@);
        let ghost p0 = path@;
        path.push(ident);
        assert(strs(path@) =~= strs(p0).push(path@.last()@));
        let set = ComponentSet { path: ItemPath::new(cr.idx, path), args: oks, labels: set_labels };
        proof {
            let (o, ae) = items_resolution(crates@, *cr, *m, cs.args@);
            assert(cs.args@ == all);
            assert(item_views(set.args@) == o);
            assert(ae.len() == 0);
            assert(strs(set.path.path@) == strs(m.path@).push(cs.ident@));
        }
        Ok((set, warnings))
    }
}

} // verus!

verus! {

pub open spec fn op_text(op: LabelOp) -> Seq<char> {
    match op {
        LabelOp::And => "&&"@,
        LabelOp::Or => "||"@,
    }
}

/// How a resolved label expression is written: a leaf as its component
/// index (with `!` when negated), a node as its items joined by the operator,
/// in parentheses.
pub open spec fn label_text(x: SpecLabel) -> Seq<char>
    decreases x,
{
    match x {
        SpecLabel::Leaf { not, sym } => (if not { "!"@ } else { Seq::empty() }) + decimal(sym.comp.idx as nat),
        SpecLabel::Node { op, items } => "("@ + join(label_texts(items), " "@ + op_text(op) + " "@) + ")"@,
    }
}

pub open spec fn label_texts(items: Seq<SpecLabel>) -> Seq<Seq<char>>
    decreases items,
{
    if items.len() == 0 {
        Seq::empty()
    } else {
        label_texts(items.drop_last()).push(label_text(items.last()))
    }
}

impl LabelOp {
    /// The operator as written.
    pub fn to_string(&self) -> (r: String)
        ensures
            r@ == op_text(*self),
    {
        match self {
            LabelOp::And => String::from_str("&&"),
            LabelOp::Or => String::from_str("||"),
        }
    }
}

impl LabelItem {
    /// The expression as written.
    pub fn to_string(&self) -> (r: String)
        ensures
            r@ == label_text(self.spec_label()),
        decreases self,
    {
        match self {
            LabelItem::Item { not, sym } => {
                let mut r = String::from_str(if *not { "!" } else { "" });
                proof {
                    reveal_strlit("");
                }
                r.append(usize_to_string(sym.comp.idx).as_str());
                r
            },
            LabelItem::Expression { op, items } => {
                let mut sep = String::from_str(" ");
                sep.append(op.to_string().as_str());
                sep.append(" ");
                let mut r = String::from_str("(");
                let mut i: usize = 0;
                proof {
                    lemma_spec_labels(items@);
                }
                while i < items.len()
                    invariant
                        i <= items@.len(),
                        *self == (LabelItem::Expression { op: *op, items: *items }),
                        spec_labels(items@).len() == items@.len(),
                        forall|j: int| 0 <= j < items@.len() ==> #[trigger] spec_labels(items@)[j] == items@[j].spec_label(),
                        r@ == "("@ + join(label_texts(spec_labels(items@).take(i as int)), sep@),
                    decreases items@.len() - i,
                {
                    let ghost done = label_texts(spec_labels(items@).take(i as int));
                    proof {
                        assert(spec_labels(items@).take(i + 1).drop_last() == spec_labels(items@).take(i as int));
                        assert(spec_labels(items@).take(i + 1).last() == items@[i as int].spec_label());
                    }
                    if i > 0 {
                        r.append(sep.as_str());
                    }
                    proof {
                        assert(decreases_to!(*self => items@[i as int])) by {
                            assert(items@[i as int] == self->items@[i as int]);
                        }
                    }
                    let t = items[i].to_string();
                    r.append(t.as_str());
                    proof {
                        let nxt = label_texts(spec_labels(items@).take(i + 1));
                        assert(nxt == done.push(t@));
                        assert(nxt.drop_last() == done);
                        if i == 0 {
                            assert(done.len() == 0);
                        }
                    }
                    i = i + 1;
                }
                r.append(")");
                assert(spec_labels(items@).take(items@.len() as int) == spec_labels(items@));
                r
            },
        }
    }
}


/// How a label expression is written before resolution: a leaf as its path
/// (with `!` when negated), a node as its items joined by the operator, in
/// parentheses.
pub open spec fn ast_text(x: SpecAst) -> Seq<char>
    decreases x,
{
    match x {
        SpecAst::Leaf { not, ty } => (if not { "!"@ } else { Seq::empty() }) + join(ty, path_sep()),
        SpecAst::Node { op, items } => "("@ + join(ast_texts(items), " "@ + op_text(op) + " "@) + ")"@,
    }
}

pub open spec fn ast_texts(items: Seq<SpecAst>) -> Seq<Seq<char>>
    decreases items,
{
    if items.len() == 0 {
        Seq::empty()
    } else {
        ast_texts(items.drop_last()).push(ast_text(items.last()))
    }
}

impl AstLabelItem {
    /// The expression as written.
    pub fn to_string(&self) -> (r: String)
        ensures
            r@ == ast_text(self.view()),
        decreases self,
    {
        match self {
            AstLabelItem::Item { not, ty } => {
                let mut r = String::from_str(if *not { "!" } else { "" });
                proof {
                    reveal_strlit("");
                    reveal_strlit("::");
                    assert("::"@ == path_sep());
                }
                r.append(join_strings(ty, "::").as_str());
                r
            },
            AstLabelItem::Expression { op, items } => {
                let mut sep = String::from_str(" ");
                sep.append(op.to_string().as_str());
                sep.append(" ");
                let mut r = String::from_str("(");
                let mut i: usize = 0;
                proof {
                    lemma_views_index(items@);
                }
                while i < items.len()
                    invariant
                        i <= items@.len(),
                        *self == (AstLabelItem::Expression { op: *op, items: *items }),
                        views(items@).len() == items@.len(),
                        forall|j: int| 0 <= j < items@.len() ==> #[trigger] views(items@)[j] == items@[j].view(),
                        r@ == "("@ + join(ast_texts(views(items@).take(i as int)), sep@),
                    decreases items@.len() - i,
                {
                    let ghost done = ast_texts(views(items@).take(i as int));
                    proof {
                        assert(views(items@).take(i + 1).drop_last() == views(items@).take(i as int));
                        assert(views(items@).take(i + 1).last() == items@[i as int].view());
                    }
                    if i > 0 {
                        r.append(sep.as_str());
                    }
                    proof {
                        assert(decreases_to!(*self => items@[i as int])) by {
                            assert(items@[i as int] == self->items@[i as int]);
                        }
                    }
                    let t = items[i].to_string();
                    r.append(t.as_str());
                    proof {
                        let nxt = ast_texts(views(items@).take(i + 1));
                        assert(nxt == done.push(t@));
                        assert(nxt.drop_last() == done);
                        if i == 0 {
                            assert(done.len() == 0);
                        }
                    }
                    i = i + 1;
                }
                r.append(")");
                assert(views(items@).take(items@.len() as int) == views(items@));
                r
            },
        }
    }
}

/// How a requirement is written.
pub open spec fn must_be_text(m: MustBe) -> Seq<char> {
    match m {
        MustBe::Value(true) => "True"@,
        MustBe::Value(false) => "False"@,
        MustBe::Unknown => "Unknown"@,
    }
}

impl MustBe {
    /// The requirement as written.
    pub fn to_string(&self) -> (r: String)
        ensures
            r@ == must_be_text(*self),
    {
        match self {
            MustBe::Value(true) => String::from_str("True"),
            MustBe::Value(false) => String::from_str("False"),
            MustBe::Unknown => String::from_str("Unknown"),
        }
    }
}

/// How evaluated labels are written: a constant as `true` or `false`, an
/// expression as its simplified labels.
pub open spec fn set_labels_text(l: ComponentSetLabels) -> Seq<char> {
    match l {
        ComponentSetLabels::Constant(true) => "true"@,
        ComponentSetLabels::Constant(false) => "false"@,
        ComponentSetLabels::Expression(e) => label_text(e.labels.spec_label()),
    }
}

impl ComponentSetLabels {
    /// The labels as written.
    pub fn to_string(&self) -> (r: String)
        ensures
            r@ == set_labels_text(*self),
    {
        match self {
            ComponentSetLabels::Constant(true) => String::from_str("true"),
            ComponentSetLabels::Constant(false) => String::from_str("false"),
            ComponentSetLabels::Expression(e) => e.labels.to_string(),
        }
    }
}

} // verus!
