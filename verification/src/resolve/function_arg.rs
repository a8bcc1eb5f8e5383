use vstd::prelude::*;

use crate::component_set::labels::{ComponentSetLabels, LabelSymbol};
use crate::component_set::resolve::{ComponentSet, ComponentSetItem, spec_first_arg, spec_first_arg_label, spec_first_label};
use crate::component_set::parse::{trait_bounds, GenericArg, SpecGeneric, SpecType, TypeShape, lemma_generic_views, ref_depth};
use crate::parse::ast_crate::{AstCrate, AstMod};
use crate::parse::find_path::{join, join_strings, lemma_strs_concat, path_sep, resolution, resolvable, resolve_fail_message, resolve_path, strs};
use crate::parse::match_symbol::{MatchSymbol, SymbolFail, symbol_fail_message};
use crate::parse::symbol::{HardcodedSymbol, SymbolType};
use crate::component_set::labels::{lemma_push_to_set, LabelsExpression};
use crate::resolve::items::{ItemSystem, Items};
use crate::resolve::util::{MsgsResult, decimal, usize_to_string};

verus! {

/// The indentation that opens a detail line of a message.
pub const TAB: &'static str = "\t";

/// Where a component is referenced from the entity sets of one system: the
/// names of the sets that take it mutably and of those that take it
/// immutably.
#[derive(Debug)]
pub struct ComponentRefTracker {
    mut_refs: Vec<String>,
    immut_refs: Vec<String>,
}

pub open spec fn quoted(prefix: Seq<char>, name: Seq<char>) -> Seq<char> {
    prefix + name + "'"@
}

/// The errors of a component's references: more than one mutable reference,
/// or mutable and immutable references together.
pub open spec fn ref_errors(name: Seq<char>, mut_cnt: nat, immut_cnt: nat) -> Seq<Seq<char>> {
    (if mut_cnt > 1 { seq![quoted("Multiple mutable references to '"@, name)] } else { Seq::empty() })
    + (if mut_cnt > 0 && immut_cnt > 0 { seq![quoted("Mutable and immutable references to '"@, name)] } else { Seq::empty() })
}

/// The detail lines that follow the errors: where the references are.
pub open spec fn ref_details(mut_refs: Seq<Seq<char>>, immut_refs: Seq<Seq<char>>) -> Seq<Seq<char>> {
    (if mut_refs.len() > 0 {
        seq![quoted("\t"@ + "Mutable references in '"@, join(mut_refs, "', '"@))]
    } else {
        Seq::empty()
    }) + (if immut_refs.len() > 0 {
        seq![quoted("\t"@ + "Immutable references in '"@, join(immut_refs, "', '"@))]
    } else {
        Seq::empty()
    })
}

impl ComponentRefTracker {
    pub closed spec fn mut_names(&self) -> Seq<String> {
        self.mut_refs@
    }

    pub closed spec fn immut_names(&self) -> Seq<String> {
        self.immut_refs@
    }

    pub fn new() -> (r: Self)
        ensures
            r.mut_names().len() == 0,
            r.immut_names().len() == 0,
    {
        Self { mut_refs: Vec::new(), immut_refs: Vec::new() }
    }

    pub fn with_ref(self, set_name: String, is_mut: bool) -> (r: Self)
        ensures
            is_mut ==> r.mut_names() == self.mut_names().push(set_name) && r.immut_names() == self.immut_names(),
            !is_mut ==> r.immut_names() == self.immut_names().push(set_name) && r.mut_names() == self.mut_names(),
    {
        let mut s = self;
        s.add_ref(set_name, is_mut);
        s
    }

    /// Records that the set `set_name` takes the component, mutably or not.
    pub fn add_ref(&mut self, set_name: String, is_mut: bool)
        ensures
            is_mut ==> final(self).mut_names() == old(self).mut_names().push(set_name)
                && final(self).immut_names() == old(self).immut_names(),
            !is_mut ==> final(self).immut_names() == old(self).immut_names().push(set_name)
                && final(self).mut_names() == old(self).mut_names(),
    {
        if is_mut {
            self.mut_refs.push(set_name);
        } else {
            self.immut_refs.push(set_name);
        }
    }

    /// Checks that the component `comp_name` is referenced mutably at most
    /// once, and never both mutably and immutably; the errors are followed by
    /// where the references are.
    pub fn validate(&self, comp_name: String) -> (r: MsgsResult<()>)
        ensures
            ({
                let errs = ref_errors(comp_name@, self.mut_names().len(), self.immut_names().len());
                match r {
                    Ok(_) => errs.len() == 0,
                    Err(es) => errs.len() > 0 && strs(es@) == errs + ref_details(strs(self.mut_names()), strs(self.immut_names())),
                }
            }),
    {
        proof {
            reveal_strlit("\t");
            reveal_strlit("', '");
        }
        let mut_cnt = self.mut_refs.len();
        let immut_cnt = self.immut_refs.len();
        let mut errs: Vec<String> = Vec::new();
        if mut_cnt > 1 {
            let mut m = String::from_str("Multiple mutable references to '");
            m.append(comp_name.as_str());
            m.append("'");
            errs.push(m);
        }
        if mut_cnt > 0 && immut_cnt > 0 {
            let mut m = String::from_str("Mutable and immutable references to '");
            m.append(comp_name.as_str());
            m.append("'");
            errs.push(m);
        }
        assert(strs(errs@) =~= ref_errors(comp_name@, mut_cnt as nat, immut_cnt as nat));
        if errs.len() == 0 {
            return Ok(());
        }
        let ghost base = strs(errs@);
        if mut_cnt > 0 {
            let mut m = String::from_str(TAB);
            m.append("Mutable references in '");
            let names = join_strings(&self.mut_refs, "', '");
            m.append(names.as_str());
            m.append("'");
            errs.push(m);
        }
        let ghost mid = strs(errs@);
        if immut_cnt > 0 {
            let mut m = String::from_str(TAB);
            m.append("Immutable references in '");
            let names = join_strings(&self.immut_refs, "', '");
            m.append(names.as_str());
            m.append("'");
            errs.push(m);
        }
        assert(strs(errs@) =~= base + ref_details(strs(self.mut_refs@), strs(self.immut_refs@)));
        Err(errs)
    }
}

} // verus!

verus! {

/// What a system argument is: an event, a global (or trait), or an entity
/// set (`is_vec` when taken as `Vec<Entities<..>>`).
#[derive(Clone, Copy, Debug, PartialEq, Eq, Structural)]
pub enum FnArgType {
    Event(usize),
    Global(usize),
    Entities { idx: usize, is_vec: bool },
}

pub open spec fn fn_arg_type_text(t: FnArgType) -> Seq<char> {
    match t {
        FnArgType::Event(i) => "Event "@ + decimal(i as nat),
        FnArgType::Global(i) => "Global "@ + decimal(i as nat),
        FnArgType::Entities { idx, is_vec } =>
            (if is_vec { "Vec<Entities>"@ } else { "Entities"@ }) + " "@ + decimal(idx as nat),
    }
}

impl FnArgType {
    /// The argument kind and index, as in messages.
    pub fn to_string(&self) -> (r: String)
        ensures
            r@ == fn_arg_type_text(*self),
    {
        match self {
            FnArgType::Event(i) => {
                let mut r = String::from_str("Event ");
                r.append(usize_to_string(*i).as_str());
                r
            },
            FnArgType::Global(i) => {
                let mut r = String::from_str("Global ");
                r.append(usize_to_string(*i).as_str());
                r
            },
            FnArgType::Entities { idx, is_vec } => {
                let mut r = String::from_str(if *is_vec { "Vec<Entities>" } else { "Entities" });
                r.append(" ");
                r.append(usize_to_string(*idx).as_str());
                r
            },
        }
    }
}

/// A system argument: its kind, whether it is taken mutably, and through how
/// many references.
#[derive(Clone, Copy, Debug, PartialEq, Eq, Structural)]
pub struct FnArg {
    pub ty: FnArgType,
    pub is_mut: bool,
    pub ref_cnt: usize,
}

pub open spec fn fn_arg_text(a: FnArg) -> Seq<char> {
    Seq::new(a.ref_cnt as nat, |i: int| '&') + (if a.is_mut { "mut "@ } else { Seq::empty() })
        + fn_arg_type_text(a.ty)
}

impl FnArg {
    /// The argument as written: its references, `mut`, then its kind.
    pub fn to_string(&self) -> (r: String)
        ensures
            r@ == fn_arg_text(*self),
    {
        proof {
            reveal_strlit("&");
        }
        let mut r = String::new();
        let mut i: usize = 0;
        while i < self.ref_cnt
            invariant
                i <= self.ref_cnt,
                r@ == Seq::new(i as nat, |j: int| '&'),
            decreases self.ref_cnt - i,
        {
            proof {
                reveal_strlit("&");
            }
            r.append("&");
            assert(r@ =~= Seq::new((i + 1) as nat, |j: int| '&'));
            i = i + 1;
        }
        if self.is_mut {
            r.append("mut ");
        }
        r.append(self.ty.to_string().as_str());
        assert(r@ =~= fn_arg_text(*self));
        r
    }
}

/// The event argument of a system: its position and the event index.
#[derive(Clone, Copy, Debug, PartialEq, Eq, Structural)]
pub struct EventFnArg {
    pub arg_idx: usize,
    pub idx: usize,
}

/// A global argument of a system: its position, the global index, and
/// whether it is taken mutably.
#[derive(Clone, Copy, Debug, PartialEq, Eq, Structural)]
pub struct GlobalFnArg {
    pub arg_idx: usize,
    pub idx: usize,
    pub is_mut: bool,
}

/// An entity-set argument of a system: its position, the set index, and
/// whether it is taken as a `Vec`.
#[derive(Clone, Copy, Debug, PartialEq, Eq, Structural)]
pub struct ComponentSetFnArg {
    pub arg_idx: usize,
    pub idx: usize,
    pub is_vec: bool,
}

/// The checked arguments of a system.
#[derive(Debug)]
pub enum FnArgs {
    Init { globals: Vec<GlobalFnArg> },
    System { event: EventFnArg, globals: Vec<GlobalFnArg>, component_sets: Vec<ComponentSetFnArg> },
}

} // verus!

verus! {

/// One message if `b` holds, else none.
pub open spec fn msg_if(b: bool, m: Seq<char>) -> Seq<Seq<char>> {
    if b { seq![m] } else { Seq::empty() }
}

pub open spec fn in_quotes(a: FnArg) -> Seq<char> {
    ": \""@ + fn_arg_text(a) + "\""@
}

/// The error when `a` is not taken through exactly `n` references.
pub open spec fn ref_msg(a: FnArg, n: nat) -> Seq<Seq<char>> {
    msg_if(a.ref_cnt != n, "Type should be taken by "@
        + (if n == 0 { "borrow"@ } else if n == 1 { "single reference"@ } else { decimal(n) + " references"@ })
        + in_quotes(a))
}

/// The error when `a` is not taken mutably (`m`) or immutably (`!m`).
pub open spec fn mut_msg(a: FnArg, m: bool) -> Seq<Seq<char>> {
    msg_if(a.is_mut != m, "Type should be taken "@ + (if m { "mutably"@ } else { "immutably"@ }) + in_quotes(a))
}

/// The errors of a global argument, given the globals taken so far.
pub open spec fn global_errors(items: Items, a: FnArg, i: usize, seen: Set<usize>) -> Seq<Seq<char>> {
    (if i < items.globals@.len() {
        if items.globals@[i as int].is_const { mut_msg(a, false) } else { Seq::empty() }
    } else {
        seq!["Invalid Global index: "@ + decimal(i as nat)]
    }) + ref_msg(a, 1) + msg_if(seen.contains(i), "Duplicate global: "@ + fn_arg_text(a))
}

/// The errors of an event argument.
pub open spec fn event_errors(items: Items, a: FnArg, i: usize) -> Seq<Seq<char>> {
    msg_if(i >= items.events@.len(), "Invalid Event index: "@ + decimal(i as nat)) + ref_msg(a, 1) + mut_msg(a, false)
}

/// The path of a component, or `Unknown`.
pub open spec fn component_name(items: Items, idx: usize) -> Seq<char> {
    if idx < items.components@.len() {
        join(strs(items.components@[idx as int].path.path@), path_sep())
    } else {
        "Unknown"@
    }
}

/// The names of the singleton components among `syms`.
pub open spec fn singleton_names(items: Items, syms: Seq<LabelSymbol>) -> Seq<Seq<char>>
    decreases syms.len(),
{
    if syms.len() == 0 {
        Seq::empty()
    } else {
        singleton_names(items, syms.drop_last())
            + msg_if(syms.last().comp.is_singleton, component_name(items, syms.last().comp.idx))
    }
}

pub open spec fn label_note(items: Items, syms: Seq<LabelSymbol>, verb: Seq<char>) -> Seq<Seq<char>> {
    let names = singleton_names(items, syms);
    msg_if(names.len() > 0, "\t"@ + "\t"@ + "These singleton are included as labels but "@ + verb
        + " be false: "@ + join(names, ", "@))
}

/// Why an entity set without a singleton cannot be taken alone.
pub open spec fn singleton_errors(items: Items, cs: ComponentSet) -> Seq<Seq<char>> {
    seq!["\t"@ + "Entity set must contain singletons or be wrapped with "@ + "Entities"@ + "<>"@]
        + match cs.labels {
            Some(ComponentSetLabels::Expression(e)) =>
                label_note(items, e.false_symbols@, "must"@) + label_note(items, e.unknown_symbols@, "may"@),
            _ => Seq::empty(),
        }
}

pub open spec fn spec_has_singleton(cs: ComponentSet) -> bool {
    spec_first_arg_label(spec_first_arg(cs.args@), spec_first_label(cs.labels)) matches Some(s) && s.comp.is_singleton
}

/// The errors of an entity-set argument.
pub open spec fn set_errors(items: Items, a: FnArg, i: usize, is_vec: bool) -> Seq<Seq<char>> {
    (if i < items.component_sets@.len() {
        let cs = items.component_sets@[i as int];
        if is_vec || spec_has_singleton(cs) {
            Seq::empty()
        } else {
            seq!["In entity set argument: "@ + join(strs(cs.path.path@), path_sep()) + " {"@]
                + singleton_errors(items, cs) + seq!["}"@]
        }
    } else {
        seq!["Invalid component set index: "@ + decimal(i as nat)]
    }) + ref_msg(a, 0)
}

/// Per component: its index, and the sets taking it mutably and immutably.
pub type RefTable = Seq<(usize, Seq<Seq<char>>, Seq<Seq<char>>)>;

pub open spec fn find_ref(refs: RefTable, c: usize, k: int) -> Option<int>
    decreases refs.len() - k,
{
    if k < 0 || k >= refs.len() {
        None
    } else if refs[k].0 == c {
        Some(k)
    } else {
        find_ref(refs, c, k + 1)
    }
}

/// Records that the set `name` takes component `c`.
pub open spec fn add_one_ref(refs: RefTable, c: usize, name: Seq<char>, is_mut: bool) -> RefTable {
    match find_ref(refs, c, 0) {
        Some(k) => refs.update(k, (c,
            if is_mut { refs[k].1.push(name) } else { refs[k].1 },
            if is_mut { refs[k].2 } else { refs[k].2.push(name) })),
        None => refs.push((c,
            if is_mut { seq![name] } else { Seq::empty() },
            if is_mut { Seq::empty() } else { seq![name] })),
    }
}

/// Records every component of the set `cs`.
pub open spec fn add_set_refs(refs: RefTable, args: Seq<ComponentSetItem>, name: Seq<char>) -> RefTable
    decreases args.len(),
{
    if args.len() == 0 {
        refs
    } else {
        add_one_ref(add_set_refs(refs, args.drop_last(), name), args.last().sym.comp.idx, name, args.last().is_mut)
    }
}

/// The errors of the references to one component.
pub open spec fn component_ref_errors(items: Items, entry: (usize, Seq<Seq<char>>, Seq<Seq<char>>)) -> Seq<Seq<char>> {
    if entry.0 < items.components@.len() {
        let errs = ref_errors(component_name(items, entry.0), entry.1.len(), entry.2.len());
        if errs.len() == 0 { errs } else { errs + ref_details(entry.1, entry.2) }
    } else {
        seq!["Invalid Component index: "@ + decimal(entry.0 as nat)]
    }
}

pub open spec fn all_ref_errors(items: Items, refs: RefTable) -> Seq<Seq<char>>
    decreases refs.len(),
{
    if refs.len() == 0 {
        Seq::empty()
    } else {
        all_ref_errors(items, refs.drop_last()) + component_ref_errors(items, refs.last())
    }
}

/// What the check of a system's arguments has gathered so far.
pub struct ArgsState {
    pub seen: Set<usize>,
    pub event: Option<EventFnArg>,
    pub globals: Seq<GlobalFnArg>,
    pub sets: Seq<ComponentSetFnArg>,
    pub refs: RefTable,
    pub errs: Seq<Seq<char>>,
}

pub open spec fn initial_state() -> ArgsState {
    ArgsState { seen: Set::empty(), event: None, globals: Seq::empty(), sets: Seq::empty(), refs: Seq::empty(), errs: Seq::empty() }
}

/// The check of argument `a` at position `k`.
pub open spec fn step(items: Items, is_init: bool, st: ArgsState, k: int, a: FnArg) -> ArgsState {
    match a.ty {
        FnArgType::Global(i) => {
            let e = global_errors(items, a, i, st.seen);
            ArgsState {
                seen: st.seen.insert(i),
                globals: if e.len() == 0 { st.globals.push(GlobalFnArg { arg_idx: k as usize, idx: i, is_mut: a.is_mut }) } else { st.globals },
                errs: st.errs + e,
                ..st
            }
        },
        FnArgType::Event(i) => if is_init {
            ArgsState { errs: st.errs.push("Init systems may not contain "@ + fn_arg_type_text(a.ty) + ": "@ + fn_arg_text(a)), ..st }
        } else if st.event is Some {
            ArgsState { errs: st.errs.push("Multiple events specified: "@ + fn_arg_text(a)), ..st }
        } else {
            let e = event_errors(items, a, i);
            ArgsState {
                event: if e.len() == 0 { Some(EventFnArg { arg_idx: k as usize, idx: i }) } else { None },
                errs: st.errs + e,
                ..st
            }
        },
        FnArgType::Entities { idx, is_vec } => if is_init {
            ArgsState { errs: st.errs.push("Init systems may not contain "@ + fn_arg_type_text(a.ty) + ": "@ + fn_arg_text(a)), ..st }
        } else {
            let e = set_errors(items, a, idx, is_vec);
            ArgsState {
                refs: if idx < items.component_sets@.len() {
                    let cs = items.component_sets@[idx as int];
                    add_set_refs(st.refs, cs.args@, join(strs(cs.path.path@), path_sep()))
                } else {
                    st.refs
                },
                sets: if e.len() == 0 { st.sets.push(ComponentSetFnArg { arg_idx: k as usize, idx, is_vec }) } else { st.sets },
                errs: st.errs + e,
                ..st
            }
        },
    }
}

/// The check of the first `n` arguments.
pub open spec fn check_args(items: Items, is_init: bool, args: Seq<FnArg>, n: int) -> ArgsState
    decreases n,
{
    if n <= 0 {
        initial_state()
    } else {
        step(items, is_init, check_args(items, is_init, args, n - 1), n - 1, args[n - 1])
    }
}

/// The line that opens the errors of a system.
pub open spec fn system_header(path: Seq<String>) -> Seq<char> {
    "\n"@ + "In system: '"@ + join(strs(path), path_sep()) + "':"@
}

/// All errors of a system's arguments, in order.
pub open spec fn system_errors(sys: ItemSystem, items: Items) -> Seq<Seq<char>> {
    let st = check_args(items, sys.is_init, sys.args@, sys.args@.len() as int);
    if sys.is_init {
        st.errs
    } else {
        st.errs + msg_if(st.event is None, "System must specify an event"@) + all_ref_errors(items, st.refs)
    }
}

} // verus!

verus! {

/// The mathematical form of the reference table.
pub open spec fn refs_view(v: Seq<(usize, ComponentRefTracker)>) -> RefTable {
    v.map_values(|e: (usize, ComponentRefTracker)| (e.0, strs(e.1.mut_names()), strs(e.1.immut_names())))
}

/// `errs` with `more` appended.
fn extend_msgs(errs: &mut Vec<String>, more: Vec<String>)
    ensures
        strs(final(errs)@) == strs(old(errs)@) + strs(more@),
{
    let mut more = more;
    proof {
        lemma_strs_concat(errs@, more@);
    }
    errs.append(&mut more);
}

fn quote_arg(arg: &FnArg) -> (r: String)
    ensures
        r@ == in_quotes(*arg),
{
    let mut m = String::from_str(": \"");
    m.append(arg.to_string().as_str());
    m.append("\"");
    m
}

fn validate_ref(arg: &FnArg, should_be_cnt: usize) -> (r: Vec<String>)
    ensures
        strs(r@) == ref_msg(*arg, should_be_cnt as nat),
{
    let mut r: Vec<String> = Vec::new();
    if arg.ref_cnt != should_be_cnt {
        let mut m = String::from_str("Type should be taken by ");
        if should_be_cnt == 0 {
            m.append("borrow");
        } else if should_be_cnt == 1 {
            m.append("single reference");
        } else {
            m.append(usize_to_string(should_be_cnt).as_str());
            m.append(" references");
        }
        m.append(quote_arg(arg).as_str());
        assert(m@ == "Type should be taken by "@
            + (if should_be_cnt == 0 { "borrow"@ } else if should_be_cnt == 1 { "single reference"@ } else { decimal(should_be_cnt as nat) + " references"@ })
            + in_quotes(*arg));
        r.push(m);
        assert(strs(r@) =~= seq![m@]);
    }
    assert(strs(r@) =~= ref_msg(*arg, should_be_cnt as nat));
    r
}

fn validate_mut(arg: &FnArg, should_be_mut: bool) -> (r: Vec<String>)
    ensures
        strs(r@) == mut_msg(*arg, should_be_mut),
{
    let mut r: Vec<String> = Vec::new();
    if arg.is_mut != should_be_mut {
        let mut m = String::from_str("Type should be taken ");
        m.append(if should_be_mut { "mutably" } else { "immutably" });
        m.append(quote_arg(arg).as_str());
        r.push(m);
    }
    assert(strs(r@) =~= mut_msg(*arg, should_be_mut));
    r
}

fn contains_usize(v: &Vec<usize>, x: usize) -> (r: bool)
    ensures
        r == v@.contains(x),
{
    let mut i: usize = 0;
    while i < v.len()
        invariant
            i <= v@.len(),
            forall|j: int| 0 <= j < i ==> v@[j] != x,
        decreases v@.len() - i,
    {
        if v[i] == x {
            return true;
        }
        i = i + 1;
    }
    false
}

fn validate_global(arg: &FnArg, i: usize, seen: &mut Vec<usize>, items: &Items) -> (r: Vec<String>)
    ensures
        strs(r@) == global_errors(*items, *arg, i, old(seen)@.to_set()),
        final(seen)@.to_set() == old(seen)@.to_set().insert(i),
{
    let mut r: Vec<String> = Vec::new();
    if i < items.globals.len() {
        if items.globals[i].is_const {
            extend_msgs(&mut r, validate_mut(arg, false));
        }
    } else {
        let mut m = String::from_str("Invalid Global index: ");
        m.append(usize_to_string(i).as_str());
        r.push(m);
    }
    extend_msgs(&mut r, validate_ref(arg, 1));
    let dup = contains_usize(seen, i);
    proof {
        assert(seen@.to_set().contains(i) == seen@.contains(i));
    }
    if dup {
        let mut m = String::from_str("Duplicate global: ");
        m.append(arg.to_string().as_str());
        let ghost before = r@;
        r.push(m);
        assert(strs(r@) =~= strs(before) + seq![m@]);
        assert(seen@.to_set().insert(i) =~= seen@.to_set());
    } else {
        proof {
            lemma_push_to_set(seen@, i);
        }
        seen.push(i);
    }
    assert(strs(r@) =~= global_errors(*items, *arg, i, old(seen)@.to_set()));
    r
}

fn validate_event(arg: &FnArg, i: usize, items: &Items) -> (r: Vec<String>)
    ensures
        strs(r@) == event_errors(*items, *arg, i),
{
    let mut r: Vec<String> = Vec::new();
    if i >= items.events.len() {
        let mut m = String::from_str("Invalid Event index: ");
        m.append(usize_to_string(i).as_str());
        r.push(m);
    }
    extend_msgs(&mut r, validate_ref(arg, 1));
    extend_msgs(&mut r, validate_mut(arg, false));
    assert(strs(r@) =~= event_errors(*items, *arg, i));
    r
}

} // verus!

verus! {

fn find_ref_exec(refs: &Vec<(usize, ComponentRefTracker)>, c: usize) -> (r: Option<usize>)
    ensures
        match find_ref(refs_view(refs@), c, 0) {
            Some(k) => r is Some && r->0 == k && 0 <= k < refs@.len(),
            None => r is None,
        },
{
    let mut k: usize = 0;
    while k < refs.len()
        invariant
            k <= refs@.len(),
            find_ref(refs_view(refs@), c, 0) == find_ref(refs_view(refs@), c, k as int),
        decreases refs@.len() - k,
    {
        if refs[k].0 == c {
            return Some(k);
        }
        k = k + 1;
    }
    None
}

proof fn lemma_find_ref(refs: RefTable, c: usize, j: int)
    ensures
        find_ref(refs, c, j) matches Some(k) ==> 0 <= k < refs.len() && refs[k].0 == c,
    decreases refs.len() - j,
{
    if 0 <= j < refs.len() && refs[j].0 != c {
        lemma_find_ref(refs, c, j + 1);
    }
}

/// Records that the set `name` takes component `c`.
fn add_component_ref(refs: &mut Vec<(usize, ComponentRefTracker)>, c: usize, name: String, is_mut: bool)
    ensures
        refs_view(final(refs)@) == add_one_ref(refs_view(old(refs)@), c, name@, is_mut),
{
    let found = find_ref_exec(refs, c);
    match found {
        Some(k) => {
            let ghost old_v = refs@;
            proof {
                lemma_find_ref(refs_view(old_v), c, 0);
            }
            let (c0, mut t) = refs.remove(k);
            let ghost t_old = t;
            t.add_ref(name, is_mut);
            refs.insert(k, (c0, t));
            proof {
                assert(refs@ =~= old_v.update(k as int, (c0, t)));
                let rv = refs_view(old_v);
                assert(rv[k as int] == (c0, strs(t_old.mut_names()), strs(t_old.immut_names())));
                assert(strs(t_old.mut_names().push(name)) =~= strs(t_old.mut_names()).push(name@));
                assert(strs(t_old.immut_names().push(name)) =~= strs(t_old.immut_names()).push(name@));
                let x = refs_view(refs@);
                let y = add_one_ref(refs_view(old(refs)@), c, name@, is_mut);
                assert(x.len() == y.len());
                assert forall|i: int| 0 <= i < x.len() implies x[i] == y[i] by {
                    if i == k {
                        assert(x[i].1 =~= y[i].1);
                        assert(x[i].2 =~= y[i].2);
                    }
                }
                assert(x =~= y);
            }
        },
        None => {
            let t = ComponentRefTracker::new().with_ref(name, is_mut);
            let ghost old_v = refs@;
            refs.push((c, t));
            proof {
                assert(strs(Seq::<String>::empty().push(name)) =~= seq![name@]);
                assert(strs(Seq::<String>::empty()) =~= Seq::<Seq<char>>::empty());
                let x = refs_view(refs@);
                let y = add_one_ref(refs_view(old(refs)@), c, name@, is_mut);
                assert(x.len() == y.len());
                assert forall|i: int| 0 <= i < x.len() implies x[i] == y[i] by {
                    if i == x.len() - 1 {
                        assert(x[i].1 =~= y[i].1);
                        assert(x[i].2 =~= y[i].2);
                    }
                }
                assert(x =~= y);
            }
        },
    }
}

/// The component names of the singleton symbols among `syms`.
fn singleton_names_exec(syms: &Vec<LabelSymbol>, items: &Items) -> (r: Vec<String>)
    ensures
        strs(r@) == singleton_names(*items, syms@),
{
    let mut r: Vec<String> = Vec::new();
    let mut i: usize = 0;
    while i < syms.len()
        invariant
            i <= syms@.len(),
            strs(r@) == singleton_names(*items, syms@.take(i as int)),
        decreases syms@.len() - i,
    {
        assert(syms@.take(i + 1).drop_last() == syms@.take(i as int));
        let s = syms[i];
        if s.comp.is_singleton {
            let name = if s.comp.idx < items.components.len() {
                items.components[s.comp.idx].path.to_string()
            } else {
                String::from_str("Unknown")
            };
            let ghost before = r@;
            r.push(name);
            assert(strs(r@) =~= strs(before) + seq![name@]);
        }
        i = i + 1;
        assert(strs(r@) =~= singleton_names(*items, syms@.take(i as int)));
    }
    assert(syms@.take(syms@.len() as int) == syms@);
    r
}

fn label_note_exec(errs: &mut Vec<String>, syms: &Vec<LabelSymbol>, verb: &str, items: &Items)
    ensures
        strs(final(errs)@) == strs(old(errs)@) + label_note(*items, syms@, verb@),
{
    let names = singleton_names_exec(syms, items);
    if names.len() > 0 {
        let mut m = String::from_str(TAB);
        m.append(TAB);
        m.append("These singleton are included as labels but ");
        m.append(verb);
        m.append(" be false: ");
        m.append(join_strings(&names, ", ").as_str());
        let ghost before = errs@;
        errs.push(m);
        assert(strs(errs@) =~= strs(before) + seq![m@]);
    }
    assert(strs(errs@) =~= strs(old(errs)@) + label_note(*items, syms@, verb@));
}

fn validate_component_set(
    arg: &FnArg,
    i: usize,
    is_vec: bool,
    refs: &mut Vec<(usize, ComponentRefTracker)>,
    items: &Items,
) -> (r: Vec<String>)
    ensures
        strs(r@) == set_errors(*items, *arg, i, is_vec),
        refs_view(final(refs)@) == if i < items.component_sets@.len() {
            let cs = items.component_sets@[i as int];
            add_set_refs(refs_view(old(refs)@), cs.args@, join(strs(cs.path.path@), path_sep()))
        } else {
            refs_view(old(refs)@)
        },
{
    let mut r: Vec<String> = Vec::new();
    if i < items.component_sets.len() {
        let cs = &items.component_sets[i];
        let path = cs.path.to_string();
        let mut k: usize = 0;
        while k < cs.args.len()
            invariant
                k <= cs.args@.len(),
                refs_view(refs@) == add_set_refs(refs_view(old(refs)@), cs.args@.take(k as int), path@),
            decreases cs.args@.len() - k,
        {
            assert(cs.args@.take(k + 1).drop_last() == cs.args@.take(k as int));
            let item = &cs.args[k];
            add_component_ref(refs, item.sym.comp.idx, path.clone(), item.is_mut);
            k = k + 1;
        }
        assert(cs.args@.take(cs.args@.len() as int) == cs.args@);
        if !(is_vec || cs.has_singleton()) {
            let mut head = String::from_str("In entity set argument: ");
            head.append(path.as_str());
            head.append(" {");
            r.push(head);
            let mut first = String::from_str(TAB);
            first.append("Entity set must contain singletons or be wrapped with ");
            first.append("Entities");
            first.append("<>");
            r.push(first);
            let ghost base = strs(r@);
            match &cs.labels {
                Some(ComponentSetLabels::Expression(e)) => {
                    label_note_exec(&mut r, &e.false_symbols, "must", items);
                    label_note_exec(&mut r, &e.unknown_symbols, "may", items);
                },
                _ => {},
            }
            let ghost mid = r@;
            r.push(String::from_str("}"));
            assert(strs(r@) =~= strs(mid) + seq!["}"@]);
        }
    } else {
        let mut m = String::from_str("Invalid component set index: ");
        m.append(usize_to_string(i).as_str());
        r.push(m);
    }
    extend_msgs(&mut r, validate_ref(arg, 0));
    assert(strs(r@) =~= set_errors(*items, *arg, i, is_vec));
    r
}

} // verus!

verus! {

fn validate_refs(refs: &Vec<(usize, ComponentRefTracker)>, items: &Items) -> (r: Vec<String>)
    ensures
        strs(r@) == all_ref_errors(*items, refs_view(refs@)),
{
    let mut r: Vec<String> = Vec::new();
    let mut k: usize = 0;
    while k < refs.len()
        invariant
            k <= refs@.len(),
            strs(r@) == all_ref_errors(*items, refs_view(refs@.take(k as int))),
        decreases refs@.len() - k,
    {
        proof {
            assert(refs_view(refs@.take(k + 1)).drop_last() =~= refs_view(refs@.take(k as int)));
        }
        let c = refs[k].0;
        if c < items.components.len() {
            let name = items.components[c].path.to_string();
            match refs[k].1.validate(name) {
                Ok(_) => {},
                Err(es) => extend_msgs(&mut r, es),
            }
        } else {
            let mut m = String::from_str("Invalid Component index: ");
            m.append(usize_to_string(c).as_str());
            let ghost before = r@;
            r.push(m);
            assert(strs(r@) =~= strs(before) + seq![m@]);
        }
        k = k + 1;
        assert(strs(r@) =~= all_ref_errors(*items, refs_view(refs@.take(k as int))));
    }
    assert(refs@.take(refs@.len() as int) == refs@);
    r
}

fn init_message(arg: &FnArg) -> (r: String)
    ensures
        r@ == "Init systems may not contain "@ + fn_arg_type_text(arg.ty) + ": "@ + fn_arg_text(*arg),
{
    let mut m = String::from_str("Init systems may not contain ");
    m.append(arg.ty.to_string().as_str());
    m.append(": ");
    m.append(arg.to_string().as_str());
    m
}

impl ItemSystem {
    /// Checks the arguments of the system against the items: an init system
    /// takes only globals; another system takes exactly one event, globals,
    /// and entity sets, with each component referenced mutably at most once
    /// and never both mutably and immutably. The errors are preceded by a
    /// line naming the system.
    pub fn validate(&self, items: &Items) -> (r: MsgsResult<FnArgs>)
        ensures
            ({
                let st = check_args(*items, self.is_init, self.args@, self.args@.len() as int);
                let errs = system_errors(*self, *items);
                match r {
                    Ok(FnArgs::Init { globals }) => self.is_init && errs.len() == 0 && globals@ == st.globals,
                    Ok(FnArgs::System { event, globals, component_sets }) => !self.is_init && errs.len() == 0
                        && st.event == Some(event) && globals@ == st.globals && component_sets@ == st.sets,
                    Err(es) => errs.len() > 0 && strs(es@) == seq![system_header(self.path.path@)] + errs,
                }
            }),
    {
        let ghost n = self.args@.len() as int;
        let mut seen: Vec<usize> = Vec::new();
        let mut event: Option<EventFnArg> = None;
        let mut globals: Vec<GlobalFnArg> = Vec::new();
        let mut sets: Vec<ComponentSetFnArg> = Vec::new();
        let mut refs: Vec<(usize, ComponentRefTracker)> = Vec::new();
        let mut errs: Vec<String> = Vec::new();
        proof {
            assert(seen@.to_set() =~= Set::<usize>::empty());
            assert(refs_view(refs@) =~= Seq::<(usize, Seq<Seq<char>>, Seq<Seq<char>>)>::empty());
            assert(strs(errs@) =~= Seq::<Seq<char>>::empty());
        }
        let mut k: usize = 0;
        while k < self.args.len()
            invariant
                k <= self.args@.len(),
                ({
                    let st = check_args(*items, self.is_init, self.args@, k as int);
                    &&& seen@.to_set() == st.seen
                    &&& event == st.event
                    &&& globals@ == st.globals
                    &&& sets@ == st.sets
                    &&& refs_view(refs@) == st.refs
                    &&& strs(errs@) == st.errs
                }),
            decreases self.args@.len() - k,
        {
            let arg = self.args[k];
            match arg.ty {
                FnArgType::Global(i) => {
                    let e = validate_global(&arg, i, &mut seen, items);
                    if e.len() == 0 {
                        globals.push(GlobalFnArg { arg_idx: k, idx: i, is_mut: arg.is_mut });
                    }
                    extend_msgs(&mut errs, e);
                },
                FnArgType::Event(i) => {
                    if self.is_init {
                        let m = init_message(&arg);
                        let ghost before = errs@;
                        errs.push(m);
                        assert(strs(errs@) =~= strs(before).push(m@));
                    } else if event.is_some() {
                        let mut m = String::from_str("Multiple events specified: ");
                        m.append(arg.to_string().as_str());
                        let ghost before = errs@;
                        errs.push(m);
                        assert(strs(errs@) =~= strs(before).push(m@));
                    } else {
                        let e = validate_event(&arg, i, items);
                        if e.len() == 0 {
                            event = Some(EventFnArg { arg_idx: k, idx: i });
                        }
                        extend_msgs(&mut errs, e);
                    }
                },
                FnArgType::Entities { idx, is_vec } => {
                    if self.is_init {
                        let m = init_message(&arg);
                        let ghost before = errs@;
                        errs.push(m);
                        assert(strs(errs@) =~= strs(before).push(m@));
                    } else {
                        let e = validate_component_set(&arg, idx, is_vec, &mut refs, items);
                        if e.len() == 0 {
                            sets.push(ComponentSetFnArg { arg_idx: k, idx, is_vec });
                        }
                        extend_msgs(&mut errs, e);
                    }
                },
            }
            k = k + 1;
        }
        if !self.is_init {
            if event.is_none() {
                let m = String::from_str("System must specify an event");
                let ghost before = errs@;
                errs.push(m);
                assert(strs(errs@) =~= strs(before) + seq![m@]);
            }
            let re = validate_refs(&refs, items);
            extend_msgs(&mut errs, re);
        }
        proof {
            let st = check_args(*items, self.is_init, self.args@, n);
            if !self.is_init {
                assert(strs(errs@) =~= st.errs + msg_if(st.event is None, "System must specify an event"@) + all_ref_errors(*items, st.refs));
            }
        }
        if errs.len() == 0 {
            if self.is_init {
                Ok(FnArgs::Init { globals })
            } else {
                match event {
                    Some(event) => Ok(FnArgs::System { event, globals, component_sets: sets }),
                    None => {
                        assert(false);
                        Err(errs)
                    },
                }
            }
        } else {
            let mut header = String::from_str("\n");
            header.append("In system: '");
            header.append(self.path.to_string().as_str());
            header.append("':");
            let ghost before = errs@;
            errs.insert(0, header);
            assert(strs(errs@) =~= seq![header@] + strs(before));
            Err(errs)
        }
    }
}

} // verus!

verus! {

/// The message for a type that cannot be a system argument.
pub open spec fn invalid_type_msg(text: Seq<char>) -> Seq<Seq<char>> {
    seq!["Invalid argument type: "@ + text]
}

/// The first generic argument, when it is a path type.
pub open spec fn first_path_generic(generics: Option<Seq<SpecGeneric>>) -> Option<Seq<Seq<char>>> {
    match generics {
        Some(g) => if g.len() > 0 {
            match g[0] {
                SpecGeneric::Type(SpecType::Path { path, .. }) => Some(path),
                _ => None,
            }
        } else {
            None
        },
        None => None,
    }
}

/// The entity set named by the first generic argument of `Entities<..>`.
pub open spec fn entities_arg(crates: Seq<AstCrate>, cr: AstCrate, m: AstMod, generics: Option<Seq<SpecGeneric>>, sym_path: Seq<String>)
    -> Result<(FnArgType, nat, bool), Seq<Seq<char>>>
{
    match first_path_generic(generics) {
        Some(p2) => match resolution(crates, p2, cr, m) {
            Err(f) => Err(seq![resolve_fail_message(f)]),
            Ok(s2) => match s2.kind {
                SymbolType::ComponentSet(i) => Ok((FnArgType::Entities { idx: i, is_vec: true }, 0, false)),
                _ => Err(seq![symbol_fail_message(SymbolFail::Kind { expected: "Component Set"@, found: s2.kind })]),
            },
        },
        None => Err(invalid_type_msg(join(strs(sym_path), path_sep()))),
    }
}

/// What a system argument of type `ty` is, through how many references and
/// whether mutably; or why it is invalid.
pub open spec fn fn_arg_shape(crates: Seq<AstCrate>, cr: AstCrate, m: AstMod, ty: SpecType) -> Result<(FnArgType, nat, bool), Seq<Seq<char>>>
    decreases ty,
{
    match ty {
        SpecType::Path { path, generics } => match resolution(crates, path, cr, m) {
            Err(f) => Err(seq![resolve_fail_message(f)]),
            Ok(sym) => match sym.kind {
                SymbolType::Global(g) => Ok((FnArgType::Global(g.idx), 0, false)),
                SymbolType::Event(i) => Ok((FnArgType::Event(i), 0, false)),
                SymbolType::ComponentSet(i) => Ok((FnArgType::Entities { idx: i, is_vec: false }, 0, false)),
                SymbolType::Hardcoded(HardcodedSymbol::Entities) => entities_arg(crates, cr, m, generics, sym.path@),
                _ => Err(invalid_type_msg(join(strs(sym.path@), path_sep()))),
            },
        },
        SpecType::Reference { mutable, elem } => match fn_arg_shape(crates, cr, m, *elem) {
            Ok((t, n, mu)) => Ok((t, n + 1, mu || mutable)),
            Err(e) => Err(e),
        },
        SpecType::TraitObject { traits, text } => if traits.len() != 1 {
            Err(seq!["Trait arguments may only have one trait type: "@ + text])
        } else {
            match resolution(crates, traits[0], cr, m) {
                Err(f) => Err(seq![resolve_fail_message(f)]),
                Ok(s) => match s.kind {
                    SymbolType::Trait(g) => Ok((FnArgType::Global(g.idx), 0, false)),
                    _ => Err(seq![symbol_fail_message(SymbolFail::Kind { expected: "Trait"@, found: s.kind })]),
                },
            }
        },
        SpecType::Other(text) => Err(invalid_type_msg(text)),
    }
}

/// The type under its outer references.
pub open spec fn base_type(ty: SpecType) -> SpecType
    decreases ty,
{
    match ty {
        SpecType::Reference { elem, .. } => base_type(*elem),
        _ => ty,
    }
}

/// The number of outer references of the type.
pub open spec fn ref_layers(ty: SpecType) -> nat
    decreases ty,
{
    match ty {
        SpecType::Reference { elem, .. } => 1 + ref_layers(*elem),
        _ => 0,
    }
}

/// Some outer reference of the type is `&mut`.
pub open spec fn mut_layer(ty: SpecType) -> bool
    decreases ty,
{
    match ty {
        SpecType::Reference { mutable, elem } => mutable || mut_layer(*elem),
        _ => false,
    }
}

/// A system argument is read from the type under its references, which
/// alone decides its kind or its error; the argument is then taken through
/// as many references as the type has, and mutably exactly when one of them
/// is `&mut` (a bare type is taken by value, immutably).
pub proof fn law_arg_references(crates: Seq<AstCrate>, cr: AstCrate, m: AstMod, ty: SpecType)
    ensures
        fn_arg_shape(crates, cr, m, base_type(ty)) matches Ok((_, n, mu)) ==> n == 0 && !mu,
        fn_arg_shape(crates, cr, m, ty) == match fn_arg_shape(crates, cr, m, base_type(ty)) {
            Ok((t, _, _)) => Ok::<(FnArgType, nat, bool), Seq<Seq<char>>>((t, ref_layers(ty), mut_layer(ty))),
            Err(e) => Err(e),
        },
    decreases ty,
{
    match ty {
        SpecType::Reference { mutable, elem } => {
            law_arg_references(crates, cr, m, *elem);
        },
        SpecType::Path { path, generics } => {
            match resolution(crates, path, cr, m) {
                Ok(sym) => {
                    if sym.kind == SymbolType::Hardcoded(HardcodedSymbol::Entities) {
                        assert(entities_arg(crates, cr, m, generics, sym.path@) matches Ok((_, n, mu)) ==> n == 0 && !mu);
                    }
                },
                Err(_) => {},
            }
        },
        _ => {},
    }
}

/// Every path that reading `ty` as a system argument resolves can be resolved.
pub open spec fn fn_arg_resolvable(crates: Seq<AstCrate>, cr: AstCrate, m: AstMod, ty: SpecType) -> bool
    decreases ty,
{
    match ty {
        SpecType::Path { path, generics } => {
            &&& resolvable(crates, path, cr, m)
            &&& (resolution(crates, path, cr, m) matches Ok(sym)
                && sym.kind == SymbolType::Hardcoded(HardcodedSymbol::Entities)
                && first_path_generic(generics) is Some)
                ==> resolvable(crates, first_path_generic(generics)->0, cr, m)
        },
        SpecType::Reference { elem, .. } => fn_arg_resolvable(crates, cr, m, *elem),
        SpecType::TraitObject { traits, .. } => traits.len() == 1 ==> resolvable(crates, traits[0], cr, m),
        SpecType::Other(_) => true,
    }
}

proof fn lemma_fn_arg_depth(crates: Seq<AstCrate>, cr: AstCrate, m: AstMod, ty: SpecType)
    ensures
        fn_arg_shape(crates, cr, m, ty) matches Ok((t, n, mu)) ==> n <= ref_depth(ty),
    decreases ty,
{
    if let SpecType::Reference { elem, .. } = ty {
        lemma_fn_arg_depth(crates, cr, m, *elem);
    }
}

fn one_message(m: String) -> (r: Vec<String>)
    ensures
        strs(r@) == seq![m@],
{
    let r = vec![m];
    assert(strs(r@) =~= seq![m@]);
    r
}

fn invalid_type(path: &Vec<String>) -> (r: Vec<String>)
    ensures
        strs(r@) == invalid_type_msg(join(strs(path@), path_sep())),
{
    let sep = "::";
    proof {
        reveal_strlit("::");
        assert(sep@ == path_sep());
    }
    let mut m = String::from_str("Invalid argument type: ");
    m.append(join_strings(path, sep).as_str());
    one_message(m)
}

impl FnArg {
    /// Reads a system argument of type `ty`, written in module `m` of crate
    /// `cr`: a global, an event, an entity set, `Entities<set>`, a trait
    /// object, possibly behind references.
    pub fn parse_type(ty: &TypeShape, m: &AstMod, cr: &AstCrate, crates: &Vec<AstCrate>) -> (r: Result<FnArg, Vec<String>>)
        requires
            fn_arg_resolvable(crates@, *cr, *m, ty.view()),
            ref_depth(ty.view()) < usize::MAX,
        ensures
            match fn_arg_shape(crates@, *cr, *m, ty.view()) {
                Ok((t, n, mu)) => r matches Ok(a) && a.ty == t && a.ref_cnt == n && a.is_mut == mu,
                Err(e) => r matches Err(v) && strs(v@) == e,
            },
        decreases ty,
    {
        match ty {
            TypeShape::Path { path, generics } => {
                let found = resolve_path(path.clone(), m, cr, crates);
                match found {
                    Err(e) => Err(one_message(e.message())),
                    Ok(sym) => match sym.kind {
                        SymbolType::Global(g) => Ok(FnArg { ty: FnArgType::Global(g.idx), is_mut: false, ref_cnt: 0 }),
                        SymbolType::Event(i) => Ok(FnArg { ty: FnArgType::Event(i), is_mut: false, ref_cnt: 0 }),
                        SymbolType::ComponentSet(i) => Ok(FnArg { ty: FnArgType::Entities { idx: i, is_vec: false }, is_mut: false, ref_cnt: 0 }),
                        SymbolType::Hardcoded(HardcodedSymbol::Entities) => {
                            let first: Option<&Vec<String>> = match generics {
                                Some(g) => {
                                    proof {
                                        lemma_generic_views(g@);
                                    }
                                    if g.len() > 0 {
                                        match &g[0] {
                                            GenericArg::Type(TypeShape::Path { path: p2, .. }) => Some(p2),
                                            _ => None,
                                        }
                                    } else {
                                        None
                                    }
                                },
                                None => None,
                            };
                            match first {
                                Some(p2) => {
                                    let inner = resolve_path(p2.clone(), m, cr, crates).expect_component_set();
                                    match inner {
                                        Ok((_, i)) => Ok(FnArg { ty: FnArgType::Entities { idx: i, is_vec: true }, is_mut: false, ref_cnt: 0 }),
                                        Err(e) => Err(one_message(e.message())),
                                    }
                                },
                                None => Err(invalid_type(&sym.path)),
                            }
                        },
                        _ => Err(invalid_type(&sym.path)),
                    },
                }
            },
            TypeShape::Reference { mutable, elem } => {
                proof {
                    lemma_fn_arg_depth(crates@, *cr, *m, (**elem).view());
                }
                let inner = FnArg::parse_type(elem, m, cr, crates);
                match inner {
                    Ok(a) => Ok(FnArg { ty: a.ty, is_mut: a.is_mut || *mutable, ref_cnt: a.ref_cnt + 1 }),
                    Err(e) => Err(e),
                }
            },
            TypeShape::TraitObject { bounds, text } => {
                let traits = trait_bounds(bounds);
                proof {
                    if traits@.len() > 0 {
                        assert(traits@.map_values(|t: Vec<String>| strs(t@))[0] == strs(traits@[0]@));
                    }
                }
                if traits.len() != 1 {
                    let mut msg = String::from_str("Trait arguments may only have one trait type: ");
                    msg.append(text.as_str());
                    Err(one_message(msg))
                } else {
                    let found = resolve_path(traits[0].clone(), m, cr, crates).expect_trait();
                    match found {
                        Ok((_, g)) => Ok(FnArg { ty: FnArgType::Global(g.idx), is_mut: false, ref_cnt: 0 }),
                        Err(e) => Err(one_message(e.message())),
                    }
                }
            },
            TypeShape::Other(text) => {
                let mut msg = String::from_str("Invalid argument type: ");
                msg.append(text.as_str());
                Err(one_message(msg))
            },
        }
    }
}

} // verus!

verus! {

/// A parameter of a function signature: `self`, or a typed parameter.
#[derive(Debug)]
pub enum SigInput {
    Receiver,
    Typed(TypeShape),
}

/// The arguments read from a signature, and all the errors met, in order.
pub open spec fn sig_args(crates: Seq<AstCrate>, cr: AstCrate, m: AstMod, inputs: Seq<SigInput>)
    -> (Seq<(FnArgType, nat, bool)>, Seq<Seq<char>>)
    decreases inputs.len(),
{
    if inputs.len() == 0 {
        (Seq::empty(), Seq::empty())
    } else {
        let (oks, errs) = sig_args(crates, cr, m, inputs.drop_last());
        match inputs.last() {
            SigInput::Receiver => (oks, errs.push("Cannot use self in function"@)),
            SigInput::Typed(t) => match fn_arg_shape(crates, cr, m, t.view()) {
                Ok(a) => (oks.push(a), errs),
                Err(e) => (oks, errs + e),
            },
        }
    }
}

/// Every typed parameter can be read.
pub open spec fn sig_readable(crates: Seq<AstCrate>, cr: AstCrate, m: AstMod, inputs: Seq<SigInput>) -> bool {
    forall|i: int| 0 <= i < inputs.len() && (#[trigger] inputs[i]) is Typed ==> {
        &&& fn_arg_resolvable(crates, cr, m, inputs[i]->Typed_0.view())
        &&& ref_depth(inputs[i]->Typed_0.view()) < usize::MAX
    }
}

pub open spec fn arg_view(a: FnArg) -> (FnArgType, nat, bool) {
    (a.ty, a.ref_cnt as nat, a.is_mut)
}

impl FnArg {
    /// Reads the parameters of the system function `fn_name` declared in
    /// module `m` of crate `cr`. The errors are preceded by a line naming the
    /// system.
    pub fn parse(inputs: &Vec<SigInput>, fn_name: &String, m: &AstMod, cr: &AstCrate, crates: &Vec<AstCrate>) -> (r: Result<Vec<FnArg>, Vec<String>>)
        requires
            sig_readable(crates@, *cr, *m, inputs@),
        ensures
            ({
                let (oks, errs) = sig_args(crates@, *cr, *m, inputs@);
                match r {
                    Ok(v) => errs.len() == 0 && v@.map_values(|a: FnArg| arg_view(a)) == oks,
                    Err(v) => errs.len() > 0 && strs(v@) == seq!["In system: '"@ + join(strs(m.path@).push(fn_name@), path_sep()) + "':"@] + errs,
                }
            }),
    {
        let mut oks: Vec<FnArg> = Vec::new();
        let mut errs: Vec<String> = Vec::new();
        let mut i: usize = 0;
        while i < inputs.len()
            invariant
                i <= inputs@.len(),
                sig_readable(crates@, *cr, *m, inputs@),
                ({
                    let (o, e) = sig_args(crates@, *cr, *m, inputs@.take(i as int));
                    oks@.map_values(|a: FnArg| arg_view(a)) == o && strs(errs@) == e
                }),
            decreases inputs@.len() - i,
        {
            assert(inputs@.take(i + 1).drop_last() == inputs@.take(i as int));
            assert(inputs@.take(i + 1).last() == inputs@[i as int]);
            match &inputs[i] {
                SigInput::Receiver => {
                    let ghost before = errs@;
                    errs.push(String::from_str("Cannot use self in function"));
                    assert(strs(errs@) =~= strs(before).push(errs@.last()@));
                },
                SigInput::Typed(t) => {
                    let a = FnArg::parse_type(t, m, cr, crates);
                    match a {
                        Ok(a) => {
                            let ghost before = oks@;
                            oks.push(a);
                            assert(oks@.map_values(|a: FnArg| arg_view(a)) =~= before.map_values(|a: FnArg| arg_view(a)).push(arg_view(a)));
                        },
                        Err(e) => extend_msgs(&mut errs, e),
                    }
                },
            }
            i = i + 1;
        }
        assert(inputs@.take(inputs@.len() as int) == inputs@);
        if errs.len() == 0 {
            Ok(oks)
        } else {
            let mut full = m.path.clone();
            full.push(fn_name.clone());
            assert(strs(full@) =~= strs(m.path@).push(fn_name@));
            let sep = "::";
            proof {
                reveal_strlit("::");
                assert(sep@ == path_sep());
            }
            let mut header = String::from_str("In system: '");
            header.append(join_strings(&full, sep).as_str());
            header.append("':");
            let ghost before = errs@;
            errs.insert(0, header);
            assert(strs(errs@) =~= seq![header@] + strs(before));
            Err(errs)
        }
    }
}


/// The number of event arguments among the first `n`.
pub open spec fn event_args(args: Seq<FnArg>, n: int) -> nat
    decreases n,
{
    if n <= 0 {
        0
    } else {
        event_args(args, n - 1) + if args[n - 1].ty is Event { 1nat } else { 0nat }
    }
}

proof fn lemma_errs_grow(items: Items, is_init: bool, args: Seq<FnArg>, n: int)
    requires
        n >= 1,
    ensures
        check_args(items, is_init, args, n - 1).errs.len() <= check_args(items, is_init, args, n).errs.len(),
{
}

proof fn lemma_event_args(items: Items, is_init: bool, args: Seq<FnArg>, n: int)
    requires
        0 <= n <= args.len(),
        args.len() <= usize::MAX,
        check_args(items, is_init, args, n).errs.len() == 0,
    ensures
        is_init ==> event_args(args, n) == 0,
        !is_init ==> event_args(args, n) <= 1,
        !is_init ==> (check_args(items, is_init, args, n).event is Some <==> event_args(args, n) == 1),
        check_args(items, is_init, args, n).event matches Some(e) ==> e.arg_idx < n && args[e.arg_idx as int].ty is Event,
    decreases n,
{
    if n > 0 {
        lemma_errs_grow(items, is_init, args, n);
        lemma_event_args(items, is_init, args, n - 1);
    }
}

/// A system whose arguments raise no error takes exactly one event (an init
/// system none), and the event that the check records is that argument.
pub proof fn law_system_event(sys: ItemSystem, items: Items)
    requires
        system_errors(sys, items).len() == 0,
        sys.args@.len() <= usize::MAX,
    ensures
        sys.is_init ==> event_args(sys.args@, sys.args@.len() as int) == 0,
        !sys.is_init ==> event_args(sys.args@, sys.args@.len() as int) == 1,
        !sys.is_init ==> (check_args(items, false, sys.args@, sys.args@.len() as int).event matches Some(e)
            && sys.args@[e.arg_idx as int].ty is Event),
{
    let n = sys.args@.len() as int;
    let st = check_args(items, sys.is_init, sys.args@, n);
    if !sys.is_init {
        assert(st.errs.len() <= system_errors(sys, items).len());
        if st.event is None {
            assert(system_errors(sys, items).len() > 0);
        }
    }
    lemma_event_args(items, sys.is_init, sys.args@, n);
}

} // verus!
