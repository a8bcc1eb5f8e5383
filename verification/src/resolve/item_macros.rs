use vstd::prelude::*;

use crate::parse::ast_crate::{AstCrate, AstMod};
use crate::parse::ast_mod::{ItemKind, ParsedItem};
use crate::resolve::function_arg::SigInput;
use crate::parse::attributes::AstAttribute;
use crate::parse::find_path::{local, resolve_path_bounded, strs, ItemPath};
use crate::parse::symbol::{ComponentSymbol, GlobalSymbol, HardcodedSymbol, Symbol, SymbolType};
use crate::resolve::items::{ItemComponent, ItemEvent, ItemGlobal, ItemSystem, Items};
use crate::resolve::function_arg::{arg_view, sig_args, sig_readable, FnArg, FnArgType};
use crate::parse::find_path::{join, path_sep};

verus! {

/// The engine macros that declare an item: component, global, event, state.
pub open spec fn is_item_macro(h: HardcodedSymbol) -> bool {
    h == HardcodedSymbol::ComponentMacro || h == HardcodedSymbol::GlobalMacro
        || h == HardcodedSymbol::EventMacro || h == HardcodedSymbol::StateMacro
}

/// The item macro that the attribute path names, looked up in module `m`
/// of crate `cr` within `fuel` steps: none when the steps run out, else
/// the macro, or none of them.
pub open spec fn attr_item_macro(crates: Seq<AstCrate>, cr: AstCrate, m: AstMod, path: Seq<Seq<char>>, fuel: nat)
    -> Option<Option<HardcodedSymbol>>
{
    match local(crates, path, cr, m, fuel) {
        None => None,
        Some(Ok(s)) => match s.kind {
            SymbolType::Hardcoded(h) => if is_item_macro(h) { Some(Some(h)) } else { Some(None) },
            _ => Some(None),
        },
        Some(Err(_)) => Some(None),
    }
}

/// The first attribute from position `k` on that names an item macro, with
/// that macro; none when the steps run out on the way.
pub open spec fn first_item_macro(crates: Seq<AstCrate>, cr: AstCrate, m: AstMod, attrs: Seq<AstAttribute>, fuel: nat, k: int)
    -> Option<Option<(usize, HardcodedSymbol)>>
    decreases attrs.len() - k,
{
    if k < 0 || k >= attrs.len() {
        Some(None)
    } else {
        match attr_item_macro(crates, cr, m, strs(attrs[k].path@), fuel) {
            None => None,
            Some(Some(h)) => Some(Some((k as usize, h))),
            Some(None) => first_item_macro(crates, cr, m, attrs, fuel, k + 1),
        }
    }
}

/// The positions of the first `n` items that are of kind `kind`.
pub open spec fn positions_of(kept: Seq<ParsedItem>, kind: ItemKind, n: int) -> Seq<usize>
    decreases n,
{
    if n <= 0 {
        Seq::empty()
    } else {
        let r = positions_of(kept, kind, n - 1);
        if kept[n - 1].kind == kind { r.push((n - 1) as usize) } else { r }
    }
}

/// The order in which items are looked at: the structs, then the enums.
pub open spec fn macro_order(kept: Seq<ParsedItem>) -> Seq<usize> {
    positions_of(kept, ItemKind::Struct, kept.len() as int) + positions_of(kept, ItemKind::Enum, kept.len() as int)
}

/// For the items at `order`, each one that carries an item macro: its
/// position, the position of that attribute, and the macro; none when the
/// steps run out on some attribute.
pub open spec fn found_items(crates: Seq<AstCrate>, cr: AstCrate, m: AstMod, kept: Seq<ParsedItem>, order: Seq<usize>, fuel: nat)
    -> Option<Seq<(usize, usize, HardcodedSymbol)>>
    decreases order.len(),
{
    if order.len() == 0 {
        Some(Seq::empty())
    } else {
        match found_items(crates, cr, m, kept, order.drop_last(), fuel) {
            None => None,
            Some(r) => {
                let i = order.last();
                match first_item_macro(crates, cr, m, kept[i as int].attrs@, fuel, 0) {
                    None => None,
                    Some(None) => Some(r),
                    Some(Some((a, h))) => Some(r.push((i, a, h))),
                }
            },
        }
    }
}

fn attr_macro(path: Vec<String>, m: &AstMod, cr: &AstCrate, crates: &Vec<AstCrate>, fuel: usize) -> (r: Option<Option<HardcodedSymbol>>)
    ensures
        r == attr_item_macro(crates@, *cr, *m, strs(path@), fuel as nat),
{
    match resolve_path_bounded(path, m, cr, crates, fuel) {
        None => None,
        Some(Ok(s)) => match s.kind {
            SymbolType::Hardcoded(h) => {
                let item = match h {
                    HardcodedSymbol::ComponentMacro => true,
                    HardcodedSymbol::GlobalMacro => true,
                    HardcodedSymbol::EventMacro => true,
                    HardcodedSymbol::StateMacro => true,
                    _ => false,
                };
                if item { Some(Some(h)) } else { Some(None) }
            },
            _ => Some(None),
        },
        Some(Err(_)) => Some(None),
    }
}

fn item_macro(attrs: &Vec<AstAttribute>, m: &AstMod, cr: &AstCrate, crates: &Vec<AstCrate>, fuel: usize)
    -> (r: Option<Option<(usize, HardcodedSymbol)>>)
    ensures
        r == first_item_macro(crates@, *cr, *m, attrs@, fuel as nat, 0),
{
    let mut k: usize = 0;
    while k < attrs.len()
        invariant
            k <= attrs@.len(),
            first_item_macro(crates@, *cr, *m, attrs@, fuel as nat, 0) == first_item_macro(crates@, *cr, *m, attrs@, fuel as nat, k as int),
        decreases attrs@.len() - k,
    {
        let path = attrs[k].path.clone();
        assert(path@ =~= attrs@[k as int].path@);
        match attr_macro(path, m, cr, crates, fuel) {
            None => return None,
            Some(Some(h)) => return Some(Some((k, h))),
            Some(None) => {},
        }
        k = k + 1;
    }
    Some(None)
}

proof fn lemma_positions_bound(kept: Seq<ParsedItem>, kind: ItemKind, n: int)
    ensures
        forall|t: int| 0 <= t < positions_of(kept, kind, n).len() ==> #[trigger] positions_of(kept, kind, n)[t] < n,
    decreases n,
{
    if n > 0 {
        lemma_positions_bound(kept, kind, n - 1);
        let r = positions_of(kept, kind, n - 1);
        assert forall|t: int| 0 <= t < positions_of(kept, kind, n).len() implies #[trigger] positions_of(kept, kind, n)[t] < n by {
            if t < r.len() {
                assert(positions_of(kept, kind, n)[t] == r[t]);
            }
        }
    }
}

fn kind_positions(kept: &Vec<ParsedItem>, kind: ItemKind) -> (r: Vec<usize>)
    ensures
        r@ == positions_of(kept@, kind, kept@.len() as int),
{
    let mut r: Vec<usize> = Vec::new();
    let mut i: usize = 0;
    while i < kept.len()
        invariant
            i <= kept@.len(),
            r@ == positions_of(kept@, kind, i as int),
        decreases kept@.len() - i,
    {
        if kept[i].kind == kind {
            r.push(i);
        }
        i = i + 1;
    }
    r
}

/// Finds the items of a module declared by an engine macro: for each struct,
/// then each enum, among `kept` (the items kept in module `m` of crate `cr`),
/// the first attribute whose path names the component, global, event or
/// state macro, each path looked up within `fuel` steps. Returns the item's
/// position, the attribute's position and the macro, for each such item;
/// none when the steps ran out.
pub fn find_item_macros(kept: &Vec<ParsedItem>, m: &AstMod, cr: &AstCrate, crates: &Vec<AstCrate>, fuel: usize)
    -> (r: Option<Vec<(usize, usize, HardcodedSymbol)>>)
    ensures
        match found_items(crates@, *cr, *m, kept@, macro_order(kept@), fuel as nat) {
            None => r is None,
            Some(f) => r matches Some(v) && v@ == f,
        },
{
    let mut order = kind_positions(kept, ItemKind::Struct);
    let mut enums = kind_positions(kept, ItemKind::Enum);
    order.append(&mut enums);
    assert(order@ == macro_order(kept@));
    proof {
        let n = kept@.len() as int;
        lemma_positions_bound(kept@, ItemKind::Struct, n);
        lemma_positions_bound(kept@, ItemKind::Enum, n);
        let ps = positions_of(kept@, ItemKind::Struct, n);
        assert forall|t: int| 0 <= t < order@.len() implies #[trigger] order@[t] < kept@.len() by {
            if t >= ps.len() {
                assert(order@[t] == positions_of(kept@, ItemKind::Enum, n)[t - ps.len()]);
            }
        }
    }
    let mut out: Vec<(usize, usize, HardcodedSymbol)> = Vec::new();
    let mut k: usize = 0;
    proof {
        assert(order@.take(0) =~= Seq::<usize>::empty());
    }
    while k < order.len()
        invariant
            k <= order@.len(),
            order@ == macro_order(kept@),
            forall|t: int| 0 <= t < order@.len() ==> #[trigger] order@[t] < kept@.len(),
            found_items(crates@, *cr, *m, kept@, order@.take(k as int), fuel as nat) == Some(out@),
        decreases order@.len() - k,
    {
        proof {
            assert(order@.take(k + 1).drop_last() == order@.take(k as int));
            assert(order@.take(k + 1).last() == order@[k as int]);
        }
        let i = order[k];
        match item_macro(&kept[i].attrs, m, cr, crates, fuel) {
            None => {
                proof {
                    lemma_found_none(crates@, *cr, *m, kept@, order@, fuel as nat, k as int + 1);
                }
                return None;
            },
            Some(Some((a, h))) => out.push((i, a, h)),
            Some(None) => {},
        }
        k = k + 1;
    }
    assert(order@.take(order@.len() as int) == order@);
    Some(out)
}

proof fn lemma_found_none(crates: Seq<AstCrate>, cr: AstCrate, m: AstMod, kept: Seq<ParsedItem>, order: Seq<usize>, fuel: nat, k: int)
    requires
        0 <= k <= order.len(),
        found_items(crates, cr, m, kept, order.take(k), fuel) is None,
    ensures
        found_items(crates, cr, m, kept, order, fuel) is None,
    decreases order.len() - k,
{
    if k < order.len() {
        assert(order.take(k + 1).drop_last() == order.take(k));
        lemma_found_none(crates, cr, m, kept, order, fuel, k + 1);
    } else {
        assert(order.take(k) == order);
    }
}

/// A found item as the library records it: a component (its path, and
/// whether it is a singleton), a global (its path, and whether it is
/// constant), an event (its path), or a state (its position among the kept
/// items).
pub enum FoundView {
    Component(Seq<Seq<char>>, bool),
    Global(Seq<Seq<char>>, bool),
    Event(Seq<Seq<char>>),
    State(usize),
}

/// The found items as recorded: `flags[i][a]` is what the arguments of
/// attribute `a` of kept item `i` say (singleton for a component, constant
/// for a global).
pub open spec fn found_views(kept: Seq<ParsedItem>, found: Seq<(usize, usize, HardcodedSymbol)>, flags: Seq<Vec<bool>>) -> Seq<FoundView> {
    Seq::new(found.len(), |k: int| {
        let p = strs(kept[found[k].0 as int].path@);
        match found[k].2 {
            HardcodedSymbol::ComponentMacro => FoundView::Component(p, flags[found[k].0 as int]@[found[k].1 as int]),
            HardcodedSymbol::GlobalMacro => FoundView::Global(p, flags[found[k].0 as int]@[found[k].1 as int]),
            HardcodedSymbol::EventMacro => FoundView::Event(p),
            _ => FoundView::State(found[k].0),
        }
    })
}

/// How many of `fv` are components, globals and events.
pub open spec fn found_counts(fv: Seq<FoundView>) -> (nat, nat, nat)
    decreases fv.len(),
{
    if fv.len() == 0 {
        (0, 0, 0)
    } else {
        let (c, g, e) = found_counts(fv.drop_last());
        match fv.last() {
            FoundView::Component(_, _) => (c + 1, g, e),
            FoundView::Global(_, _) => (c, g + 1, e),
            FoundView::Event(_) => (c, g, e + 1),
            FoundView::State(_) => (c, g, e),
        }
    }
}

/// The symbols of the found items, given the numbers of components, globals
/// and events recorded before: each points at its item by index, at the
/// item's path. States get none here.
pub open spec fn found_symbols(fv: Seq<FoundView>, nc: nat, ng: nat, ne: nat) -> Seq<(SymbolType, Seq<Seq<char>>)>
    decreases fv.len(),
{
    if fv.len() == 0 {
        Seq::empty()
    } else {
        let r = found_symbols(fv.drop_last(), nc, ng, ne);
        let (c, g, e) = found_counts(fv.drop_last());
        match fv.last() {
            FoundView::Component(p, f) => r.push((SymbolType::Component(ComponentSymbol { idx: (nc + c) as usize, is_singleton: f }), p)),
            FoundView::Global(p, _) => r.push((SymbolType::Global(GlobalSymbol { idx: (ng + g) as usize }), p)),
            FoundView::Event(p) => r.push((SymbolType::Event((ne + e) as usize), p)),
            FoundView::State(_) => r,
        }
    }
}

/// The records of the found items of each kind, in order.
pub open spec fn found_components(fv: Seq<FoundView>) -> Seq<(Seq<Seq<char>>, bool)>
    decreases fv.len(),
{
    if fv.len() == 0 {
        Seq::empty()
    } else {
        let r = found_components(fv.drop_last());
        match fv.last() {
            FoundView::Component(p, f) => r.push((p, f)),
            _ => r,
        }
    }
}

pub open spec fn found_globals(fv: Seq<FoundView>) -> Seq<(Seq<Seq<char>>, bool)>
    decreases fv.len(),
{
    if fv.len() == 0 {
        Seq::empty()
    } else {
        let r = found_globals(fv.drop_last());
        match fv.last() {
            FoundView::Global(p, f) => r.push((p, f)),
            _ => r,
        }
    }
}

pub open spec fn found_events(fv: Seq<FoundView>) -> Seq<Seq<Seq<char>>>
    decreases fv.len(),
{
    if fv.len() == 0 {
        Seq::empty()
    } else {
        let r = found_events(fv.drop_last());
        match fv.last() {
            FoundView::Event(p) => r.push(p),
            _ => r,
        }
    }
}

pub open spec fn found_states(fv: Seq<FoundView>) -> Seq<usize>
    decreases fv.len(),
{
    if fv.len() == 0 {
        Seq::empty()
    } else {
        let r = found_states(fv.drop_last());
        match fv.last() {
            FoundView::State(i) => r.push(i),
            _ => r,
        }
    }
}

pub open spec fn component_views(v: Seq<ItemComponent>) -> Seq<(usize, Seq<Seq<char>>, bool)> {
    v.map_values(|c: ItemComponent| (c.path.cr_idx, strs(c.path.path@), c.is_singleton))
}

pub open spec fn global_views(v: Seq<ItemGlobal>) -> Seq<(usize, Seq<Seq<char>>, bool)> {
    v.map_values(|g: ItemGlobal| (g.path.cr_idx, strs(g.path.path@), g.is_const))
}

pub open spec fn event_views(v: Seq<ItemEvent>) -> Seq<(usize, Seq<Seq<char>>, Option<usize>)> {
    v.map_values(|e: ItemEvent| (e.path.cr_idx, strs(e.path.path@), e.state))
}

pub open spec fn symbol_views(v: Seq<Symbol>) -> Seq<(SymbolType, Seq<Seq<char>>)> {
    v.map_values(|s: Symbol| (s.kind, strs(s.path@)))
}

/// The records made in crate `cr_idx` of a list of (path, flag).
pub open spec fn in_crate(cr_idx: usize, v: Seq<(Seq<Seq<char>>, bool)>) -> Seq<(usize, Seq<Seq<char>>, bool)> {
    v.map_values(|x: (Seq<Seq<char>>, bool)| (cr_idx, x.0, x.1))
}

pub open spec fn events_in_crate(cr_idx: usize, v: Seq<Seq<Seq<char>>>) -> Seq<(usize, Seq<Seq<char>>, Option<usize>)> {
    v.map_values(|p: Seq<Seq<char>>| (cr_idx, p, None::<usize>))
}

/// `new` is `old` with the found items recorded in crate `cr_idx`, and `r`
/// holds their symbols and the positions of the states.
pub open spec fn recorded(
    old: Items,
    new: Items,
    cr_idx: usize,
    kept: Seq<ParsedItem>,
    found: Seq<(usize, usize, HardcodedSymbol)>,
    flags: Seq<Vec<bool>>,
    r: (Vec<Symbol>, Vec<usize>),
) -> bool {
    let fv = found_views(kept, found, flags);
    &&& component_views(new.components@) == component_views(old.components@) + in_crate(cr_idx, found_components(fv))
    &&& global_views(new.globals@) == global_views(old.globals@) + in_crate(cr_idx, found_globals(fv))
    &&& event_views(new.events@) == event_views(old.events@) + events_in_crate(cr_idx, found_events(fv))
    &&& symbol_views(r.0@) == found_symbols(fv, old.components@.len(), old.globals@.len(), old.events@.len())
    &&& forall|k: int| 0 <= k < r.0@.len() ==> (#[trigger] r.0@[k]).public
    &&& r.1@ == found_states(fv)
    &&& new.component_sets == old.component_sets
    &&& new.systems == old.systems
}

/// Each kept item has one flag per attribute.
pub open spec fn flags_fit(kept: Seq<ParsedItem>, flags: Seq<Vec<bool>>) -> bool {
    &&& flags.len() == kept.len()
    &&& forall|i: int| 0 <= i < kept.len() ==> #[trigger] flags[i]@.len() == kept[i].attrs@.len()
}

impl Items {
    /// Records the items of crate `cr_idx` found declared by an engine macro
    /// (see `find_item_macros`), `flags[i][a]` read from the arguments of
    /// attribute `a` of kept item `i`: components, globals and events are added,
    /// each with a public symbol that points at it; the positions of states
    /// are returned apart.
    pub fn add_found_items(
        &mut self,
        cr_idx: usize,
        kept: &Vec<ParsedItem>,
        found: &Vec<(usize, usize, HardcodedSymbol)>,
        flags: &Vec<Vec<bool>>,
    ) -> (r: (Vec<Symbol>, Vec<usize>))
        requires
            flags@.len() == kept@.len(),
            forall|i: int| 0 <= i < kept@.len() ==> #[trigger] flags@[i]@.len() == kept@[i].attrs@.len(),
            forall|k: int| 0 <= k < found@.len() ==> #[trigger] found@[k].0 < kept@.len()
                && found@[k].1 < kept@[found@[k].0 as int].attrs@.len(),
            old(self).components@.len() + found@.len() <= usize::MAX,
            old(self).globals@.len() + found@.len() <= usize::MAX,
            old(self).events@.len() + found@.len() <= usize::MAX,
        ensures
            recorded(*old(self), *final(self), cr_idx, kept@, found@, flags@, r),
    {
        let ghost fv = found_views(kept@, found@, flags@);
        let ghost c0 = component_views(self.components@);
        let ghost g0 = global_views(self.globals@);
        let ghost e0 = event_views(self.events@);
        let ghost nc = self.components@.len();
        let ghost ng = self.globals@.len();
        let ghost ne = self.events@.len();
        let ghost sets0 = self.component_sets;
        let ghost systems0 = self.systems;
        let mut syms: Vec<Symbol> = Vec::new();
        let mut states: Vec<usize> = Vec::new();
        let mut k: usize = 0;
        proof {
            assert(fv.take(0) =~= Seq::<FoundView>::empty());
            assert(c0 + in_crate(cr_idx, Seq::empty()) =~= c0);
            assert(g0 + in_crate(cr_idx, Seq::empty()) =~= g0);
            assert(e0 + events_in_crate(cr_idx, Seq::empty()) =~= e0);
            assert(symbol_views(syms@) =~= Seq::<(SymbolType, Seq<Seq<char>>)>::empty());
        }
        while k < found.len()
            invariant
                k <= found@.len(),
                fv == found_views(kept@, found@, flags@),
                flags@.len() == kept@.len(),
                forall|t: int| 0 <= t < kept@.len() ==> #[trigger] flags@[t]@.len() == kept@[t].attrs@.len(),
                forall|t: int| 0 <= t < found@.len() ==> #[trigger] found@[t].0 < kept@.len()
                    && found@[t].1 < kept@[found@[t].0 as int].attrs@.len(),
                nc + found@.len() <= usize::MAX,
                ng + found@.len() <= usize::MAX,
                ne + found@.len() <= usize::MAX,
                found_counts(fv.take(k as int)).0 <= k,
                found_counts(fv.take(k as int)).1 <= k,
                found_counts(fv.take(k as int)).2 <= k,
                self.components@.len() == nc + found_counts(fv.take(k as int)).0,
                self.globals@.len() == ng + found_counts(fv.take(k as int)).1,
                self.events@.len() == ne + found_counts(fv.take(k as int)).2,
                component_views(self.components@) == c0 + in_crate(cr_idx, found_components(fv.take(k as int))),
                global_views(self.globals@) == g0 + in_crate(cr_idx, found_globals(fv.take(k as int))),
                event_views(self.events@) == e0 + events_in_crate(cr_idx, found_events(fv.take(k as int))),
                symbol_views(syms@) == found_symbols(fv.take(k as int), nc, ng, ne),
                forall|t: int| 0 <= t < syms@.len() ==> (#[trigger] syms@[t]).public,
                states@ == found_states(fv.take(k as int)),
                self.component_sets == sets0,
                self.systems == systems0,
            decreases found@.len() - k,
        {
            let ghost pre = fv.take(k as int);
            proof {
                assert(fv.take(k + 1).drop_last() == pre);
                assert(fv.take(k + 1).last() == fv[k as int]);
            }
            let (i, a, h) = found[k];
            let mut path = kept[i].path.clone();
            assert(path@ =~= kept@[i as int].path@);
            let flag = flags[i][a];
            let ghost cv = component_views(self.components@);
            let ghost gv = global_views(self.globals@);
            let ghost ev = event_views(self.events@);
            let ghost sv = symbol_views(syms@);
            match h {
                HardcodedSymbol::ComponentMacro => {
                    let sym = self.add_component(ItemComponent { path: ItemPath::new(cr_idx, path), is_singleton: flag });
                    syms.push(sym);
                    proof {
                        assert(component_views(self.components@) =~= cv.push((cr_idx, strs(kept@[i as int].path@), flags@[i as int]@[a as int])));
                        assert(in_crate(cr_idx, found_components(fv.take(k + 1))) =~= in_crate(cr_idx, found_components(pre)).push((cr_idx, strs(kept@[i as int].path@), flags@[i as int]@[a as int])));
                        assert(symbol_views(syms@) =~= sv.push((sym.kind, strs(sym.path@))));
                    }
                },
                HardcodedSymbol::GlobalMacro => {
                    let sym = self.add_global(ItemGlobal { path: ItemPath::new(cr_idx, path), is_const: flag });
                    syms.push(sym);
                    proof {
                        assert(global_views(self.globals@) =~= gv.push((cr_idx, strs(kept@[i as int].path@), flags@[i as int]@[a as int])));
                        assert(in_crate(cr_idx, found_globals(fv.take(k + 1))) =~= in_crate(cr_idx, found_globals(pre)).push((cr_idx, strs(kept@[i as int].path@), flags@[i as int]@[a as int])));
                        assert(symbol_views(syms@) =~= sv.push((sym.kind, strs(sym.path@))));
                    }
                },
                HardcodedSymbol::EventMacro => {
                    let sym = self.add_event(ItemEvent { path: ItemPath::new(cr_idx, path), state: None });
                    syms.push(sym);
                    proof {
                        assert(event_views(self.events@) =~= ev.push((cr_idx, strs(kept@[i as int].path@), None::<usize>)));
                        assert(events_in_crate(cr_idx, found_events(fv.take(k + 1))) =~= events_in_crate(cr_idx, found_events(pre)).push((cr_idx, strs(kept@[i as int].path@), None::<usize>)));
                        assert(symbol_views(syms@) =~= sv.push((sym.kind, strs(sym.path@))));
                    }
                },
                _ => {
                    states.push(i);
                },
            }
            k = k + 1;
        }
        proof {
            assert(fv.take(found@.len() as int) == fv);
        }
        (syms, states)
    }
}

proof fn lemma_first_bound(crates: Seq<AstCrate>, cr: AstCrate, m: AstMod, attrs: Seq<AstAttribute>, fuel: nat, k: int)
    ensures
        first_item_macro(crates, cr, m, attrs, fuel, k) matches Some(Some((a, _))) ==> a < attrs.len(),
    decreases attrs.len() - k,
{
    if 0 <= k < attrs.len() {
        lemma_first_bound(crates, cr, m, attrs, fuel, k + 1);
    }
}

proof fn lemma_found_bounds(crates: Seq<AstCrate>, cr: AstCrate, m: AstMod, kept: Seq<ParsedItem>, order: Seq<usize>, fuel: nat)
    requires
        forall|t: int| 0 <= t < order.len() ==> #[trigger] order[t] < kept.len(),
    ensures
        found_items(crates, cr, m, kept, order, fuel) matches Some(f) ==> {
            &&& f.len() <= order.len()
            &&& forall|k: int| 0 <= k < f.len() ==> #[trigger] f[k].0 < kept.len() && f[k].1 < kept[f[k].0 as int].attrs@.len()
        },
    decreases order.len(),
{
    if order.len() > 0 {
        let pre = order.drop_last();
        assert forall|t: int| 0 <= t < pre.len() implies #[trigger] pre[t] < kept.len() by {
            assert(pre[t] == order[t]);
        }
        lemma_found_bounds(crates, cr, m, kept, pre, fuel);
        let i = order.last();
        lemma_first_bound(crates, cr, m, kept[i as int].attrs@, fuel, 0);
        if let Some(f) = found_items(crates, cr, m, kept, order, fuel) {
            let r = found_items(crates, cr, m, kept, pre, fuel)->0;
            assert forall|k: int| 0 <= k < f.len() implies #[trigger] f[k].0 < kept.len() && f[k].1 < kept[f[k].0 as int].attrs@.len() by {
                if k < r.len() {
                    assert(f[k] == r[k]);
                }
            }
        }
    }
}

proof fn lemma_positions_len(kept: Seq<ParsedItem>, n: int)
    requires
        0 <= n <= kept.len(),
    ensures
        positions_of(kept, ItemKind::Struct, n).len() + positions_of(kept, ItemKind::Enum, n).len() <= n,
    decreases n,
{
    if n > 0 {
        lemma_positions_len(kept, n - 1);
    }
}

impl Items {
    /// Finds and records the items of module `m` of crate `cr` that an
    /// engine macro declares (see `find_item_macros` and `add_found_items`),
    /// each attribute path looked up within `fuel` steps; none, with nothing
    /// recorded, when the steps ran out.
    pub fn resolve_module_items(
        &mut self,
        kept: &Vec<ParsedItem>,
        flags: &Vec<Vec<bool>>,
        m: &AstMod,
        cr: &AstCrate,
        crates: &Vec<AstCrate>,
        fuel: usize,
    ) -> (r: Option<(Vec<Symbol>, Vec<usize>)>)
        requires
            flags_fit(kept@, flags@),
            old(self).components@.len() + kept@.len() <= usize::MAX,
            old(self).globals@.len() + kept@.len() <= usize::MAX,
            old(self).events@.len() + kept@.len() <= usize::MAX,
        ensures
            match found_items(crates@, *cr, *m, kept@, macro_order(kept@), fuel as nat) {
                None => r is None && *final(self) == *old(self),
                Some(f) => r matches Some(x) && recorded(*old(self), *final(self), cr.idx, kept@, f, flags@, x),
            },
    {
        let found = find_item_macros(kept, m, cr, crates, fuel);
        match found {
            None => None,
            Some(f) => {
                proof {
                    let order = macro_order(kept@);
                    let n = kept@.len() as int;
                    lemma_positions_bound(kept@, ItemKind::Struct, n);
                    lemma_positions_bound(kept@, ItemKind::Enum, n);
                    lemma_positions_len(kept@, n);
                    let ps = positions_of(kept@, ItemKind::Struct, n);
                    assert forall|t: int| 0 <= t < order.len() implies #[trigger] order[t] < kept@.len() by {
                        if t >= ps.len() {
                            assert(order[t] == positions_of(kept@, ItemKind::Enum, n)[t - ps.len()]);
                        }
                    }
                    lemma_found_bounds(crates@, *cr, *m, kept@, order, fuel as nat);
                }
                Some(self.add_found_items(cr.idx, kept, &f, flags))
            },
        }
    }
}

/// The first attribute from position `k` on whose path names the system
/// macro; none when the steps run out on the way.
pub open spec fn first_system_attr(crates: Seq<AstCrate>, cr: AstCrate, m: AstMod, attrs: Seq<AstAttribute>, fuel: nat, k: int)
    -> Option<Option<usize>>
    decreases attrs.len() - k,
{
    if k < 0 || k >= attrs.len() {
        Some(None)
    } else {
        match local(crates, strs(attrs[k].path@), cr, m, fuel) {
            None => None,
            Some(Ok(s)) => if s.kind == SymbolType::Hardcoded(HardcodedSymbol::SystemMacro) {
                Some(Some(k as usize))
            } else {
                first_system_attr(crates, cr, m, attrs, fuel, k + 1)
            },
            Some(Err(_)) => first_system_attr(crates, cr, m, attrs, fuel, k + 1),
        }
    }
}

/// Among the first `n` kept items, each function with an attribute that
/// names the system macro: its position and that attribute's position; none
/// when the steps run out.
pub open spec fn found_systems(crates: Seq<AstCrate>, cr: AstCrate, m: AstMod, kept: Seq<ParsedItem>, fuel: nat, n: int)
    -> Option<Seq<(usize, usize)>>
    decreases n,
{
    if n <= 0 {
        Some(Seq::empty())
    } else {
        match found_systems(crates, cr, m, kept, fuel, n - 1) {
            None => None,
            Some(r) => if kept[n - 1].kind != ItemKind::Fn {
                Some(r)
            } else {
                match first_system_attr(crates, cr, m, kept[n - 1].attrs@, fuel, 0) {
                    None => None,
                    Some(None) => Some(r),
                    Some(Some(a)) => Some(r.push(((n - 1) as usize, a))),
                }
            },
        }
    }
}

fn system_attr(attrs: &Vec<AstAttribute>, m: &AstMod, cr: &AstCrate, crates: &Vec<AstCrate>, fuel: usize) -> (r: Option<Option<usize>>)
    ensures
        r == first_system_attr(crates@, *cr, *m, attrs@, fuel as nat, 0),
{
    let mut k: usize = 0;
    while k < attrs.len()
        invariant
            k <= attrs@.len(),
            first_system_attr(crates@, *cr, *m, attrs@, fuel as nat, 0) == first_system_attr(crates@, *cr, *m, attrs@, fuel as nat, k as int),
        decreases attrs@.len() - k,
    {
        let path = attrs[k].path.clone();
        assert(path@ =~= attrs@[k as int].path@);
        match resolve_path_bounded(path, m, cr, crates, fuel) {
            None => return None,
            Some(Ok(s)) => {
                let is_system = match s.kind {
                    SymbolType::Hardcoded(HardcodedSymbol::SystemMacro) => true,
                    _ => false,
                };
                if is_system {
                    return Some(Some(k));
                }
            },
            Some(Err(_)) => {},
        }
        k = k + 1;
    }
    Some(None)
}

/// Finds the system functions of a module: each function among `kept` (the
/// items kept in module `m` of crate `cr`), in order, with an attribute whose
/// path names the system macro (the first such attribute), each path looked
/// up within `fuel` steps; none when the steps ran out.
pub fn find_system_fns(kept: &Vec<ParsedItem>, m: &AstMod, cr: &AstCrate, crates: &Vec<AstCrate>, fuel: usize)
    -> (r: Option<Vec<(usize, usize)>>)
    ensures
        match found_systems(crates@, *cr, *m, kept@, fuel as nat, kept@.len() as int) {
            None => r is None,
            Some(f) => r matches Some(v) && v@ == f,
        },
{
    let mut out: Vec<(usize, usize)> = Vec::new();
    let mut i: usize = 0;
    while i < kept.len()
        invariant
            i <= kept@.len(),
            found_systems(crates@, *cr, *m, kept@, fuel as nat, i as int) == Some(out@),
        decreases kept@.len() - i,
    {
        if kept[i].kind == ItemKind::Fn {
            match system_attr(&kept[i].attrs, m, cr, crates, fuel) {
                None => {
                    proof {
                        lemma_systems_none(crates@, *cr, *m, kept@, fuel as nat, i as int + 1);
                    }
                    return None;
                },
                Some(Some(a)) => out.push((i, a)),
                Some(None) => {},
            }
        }
        i = i + 1;
    }
    Some(out)
}

proof fn lemma_systems_none(crates: Seq<AstCrate>, cr: AstCrate, m: AstMod, kept: Seq<ParsedItem>, fuel: nat, k: int)
    requires
        0 <= k <= kept.len(),
        found_systems(crates, cr, m, kept, fuel, k) is None,
    ensures
        found_systems(crates, cr, m, kept, fuel, kept.len() as int) is None,
    decreases kept.len() - k,
{
    if k < kept.len() {
        lemma_systems_none(crates, cr, m, kept, fuel, k + 1);
    }
}

/// What reading the signature of system `name` in module `m` gives: its
/// arguments, or the errors met, after a line naming the system.
pub open spec fn system_args(crates: Seq<AstCrate>, cr: AstCrate, m: AstMod, inputs: Seq<SigInput>, name: Seq<char>)
    -> Result<Seq<(FnArgType, nat, bool)>, Seq<Seq<char>>>
{
    let (oks, errs) = sig_args(crates, cr, m, inputs);
    if errs.len() == 0 {
        Ok(oks)
    } else {
        Err(seq!["In system: '"@ + join(strs(m.path@).push(name), path_sep()) + "':"@] + errs)
    }
}

/// A system as the library records it: its crate, path, arguments and
/// whether it is an init system.
pub open spec fn system_views(v: Seq<ItemSystem>) -> Seq<(usize, Seq<Seq<char>>, Seq<(FnArgType, nat, bool)>, bool)> {
    v.map_values(|s: ItemSystem| (s.path.cr_idx, strs(s.path.path@), s.args@.map_values(|a: FnArg| arg_view(a)), s.is_init))
}

/// The systems recorded from the first `n` found functions (`flags[i][a]`:
/// whether attribute `a` of kept item `i` makes an init system), their
/// symbols given the number of systems recorded before, and the errors.
pub open spec fn systems_from(
    crates: Seq<AstCrate>,
    cr: AstCrate,
    m: AstMod,
    kept: Seq<ParsedItem>,
    found: Seq<(usize, usize)>,
    flags: Seq<Vec<bool>>,
    ns: nat,
    n: int,
) -> (Seq<(usize, Seq<Seq<char>>, Seq<(FnArgType, nat, bool)>, bool)>, Seq<(SymbolType, Seq<Seq<char>>)>, Seq<Seq<char>>)
    decreases n,
{
    if n <= 0 {
        (Seq::empty(), Seq::empty(), Seq::empty())
    } else {
        let (sys, syms, errs) = systems_from(crates, cr, m, kept, found, flags, ns, n - 1);
        let (i, a) = found[n - 1];
        let item = kept[i as int];
        match system_args(crates, cr, m, item.inputs@, item.ident@) {
            Ok(args) => (
                sys.push((cr.idx, strs(item.path@), args, flags[i as int]@[a as int])),
                syms.push((SymbolType::System((ns + sys.len()) as usize), strs(item.path@))),
                errs,
            ),
            Err(e) => (sys, syms, errs + e),
        }
    }
}

impl Items {
    /// Records the system functions found in module `m` of crate `cr` (see
    /// `find_system_fns`): each whose signature reads without error becomes
    /// a system, with a public symbol that points at it; the errors of the
    /// others are returned.
    pub fn add_found_systems(
        &mut self,
        kept: &Vec<ParsedItem>,
        found: &Vec<(usize, usize)>,
        flags: &Vec<Vec<bool>>,
        m: &AstMod,
        cr: &AstCrate,
        crates: &Vec<AstCrate>,
    ) -> (r: (Vec<Symbol>, Vec<String>))
        requires
            flags_fit(kept@, flags@),
            forall|k: int| 0 <= k < found@.len() ==> {
                &&& #[trigger] found@[k].0 < kept@.len()
                &&& found@[k].1 < kept@[found@[k].0 as int].attrs@.len()
                &&& sig_readable(crates@, *cr, *m, kept@[found@[k].0 as int].inputs@)
            },
            old(self).systems@.len() + found@.len() <= usize::MAX,
        ensures
            ({
                let (sys, syms, errs) = systems_from(crates@, *cr, *m, kept@, found@, flags@, old(self).systems@.len(), found@.len() as int);
                &&& system_views(final(self).systems@) == system_views(old(self).systems@) + sys
                &&& symbol_views(r.0@) == syms
                &&& forall|k: int| 0 <= k < r.0@.len() ==> (#[trigger] r.0@[k]).public
                &&& strs(r.1@) == errs
            }),
            final(self).components == old(self).components,
            final(self).globals == old(self).globals,
            final(self).events == old(self).events,
            final(self).component_sets == old(self).component_sets,
    {
        let ghost s0 = system_views(self.systems@);
        let ghost ns = self.systems@.len();
        let ghost comps0 = self.components;
        let ghost globals0 = self.globals;
        let ghost events0 = self.events;
        let ghost sets0 = self.component_sets;
        let mut syms: Vec<Symbol> = Vec::new();
        let mut errs: Vec<String> = Vec::new();
        let mut k: usize = 0;
        proof {
            assert(s0 + Seq::empty() =~= s0);
            assert(symbol_views(syms@) =~= Seq::<(SymbolType, Seq<Seq<char>>)>::empty());
            assert(strs(errs@) =~= Seq::<Seq<char>>::empty());
        }
        while k < found.len()
            invariant
                k <= found@.len(),
                flags_fit(kept@, flags@),
                forall|t: int| 0 <= t < found@.len() ==> {
                    &&& #[trigger] found@[t].0 < kept@.len()
                    &&& found@[t].1 < kept@[found@[t].0 as int].attrs@.len()
                    &&& sig_readable(crates@, *cr, *m, kept@[found@[t].0 as int].inputs@)
                },
                ns + found@.len() <= usize::MAX,
                systems_from(crates@, *cr, *m, kept@, found@, flags@, ns, k as int).0.len() <= k,
                self.systems@.len() == ns + systems_from(crates@, *cr, *m, kept@, found@, flags@, ns, k as int).0.len(),
                system_views(self.systems@) == s0 + systems_from(crates@, *cr, *m, kept@, found@, flags@, ns, k as int).0,
                symbol_views(syms@) == systems_from(crates@, *cr, *m, kept@, found@, flags@, ns, k as int).1,
                forall|t: int| 0 <= t < syms@.len() ==> (#[trigger] syms@[t]).public,
                strs(errs@) == systems_from(crates@, *cr, *m, kept@, found@, flags@, ns, k as int).2,
                self.components == comps0,
                self.globals == globals0,
                self.events == events0,
                self.component_sets == sets0,
            decreases found@.len() - k,
        {
            let (i, a) = found[k];
            assert(found@[k as int].0 < kept@.len());
            let item = &kept[i];
            let ghost before_sys = system_views(self.systems@);
            let ghost before_syms = symbol_views(syms@);
            let ghost before_errs = errs@;
            match FnArg::parse(&item.inputs, &item.ident, m, cr, crates) {
                Ok(args) => {
                    let path = item.path.clone();
                    assert(path@ =~= item.path@);
                    let sys = ItemSystem { path: ItemPath::new(cr.idx, path), args, is_init: flags[i][a] };
                    let sym = self.add_system(sys);
                    syms.push(sym);
                    proof {
                        assert(system_views(self.systems@) =~= before_sys.push(system_views(self.systems@).last()));
                        assert(symbol_views(syms@) =~= before_syms.push((sym.kind, strs(sym.path@))));
                    }
                },
                Err(e) => {
                    let mut e = e;
                    let ghost ev = e@;
                    errs.append(&mut e);
                    proof {
                        assert(strs(errs@) =~= strs(before_errs) + strs(ev));
                    }
                },
            }
            k = k + 1;
        }
        (syms, errs)
    }
}

} // verus!
