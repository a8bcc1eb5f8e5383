use vstd::prelude::*;

use crate::component_set::labels::{ComponentSetLabels, LabelSymbol};
use crate::resolve::function_arg::ComponentSetFnArg;
use crate::component_set::resolve::{law_first_arg, required_single, spec_first_arg, spec_first_arg_label, spec_first_label, ComponentSet, ComponentSetItem};

verus! {

/// `r` lists, in increasing order of key, the position of the first of the
/// first `n` keys that has each value.
pub open spec fn unique_positions(keys: Seq<usize>, n: int, r: Seq<usize>) -> bool {
    &&& forall|i: int| 0 <= i < r.len() ==> #[trigger] r[i] < n
    &&& forall|i: int, k: int| #![trigger keys[k], r[i]] 0 <= i < r.len() && 0 <= k < r[i] ==> keys[k] != keys[r[i] as int]
    &&& forall|i: int, j: int| 0 <= i < j < r.len() ==> #[trigger] keys[r[i] as int] < #[trigger] keys[r[j] as int]
    &&& forall|k: int| #![trigger keys[k]] 0 <= k < n ==> exists|i: int| 0 <= i < r.len() && #[trigger] keys[r[i] as int] == keys[k]
}

proof fn lemma_insert_position(keys: Seq<usize>, k: int, old_r: Seq<usize>, pos: int, r: Seq<usize>)
    requires
        0 <= k < keys.len(),
        k <= usize::MAX,
        unique_positions(keys, k, old_r),
        0 <= pos <= old_r.len(),
        forall|i: int| 0 <= i < pos ==> #[trigger] keys[old_r[i] as int] < keys[k],
        pos < old_r.len() ==> keys[old_r[pos] as int] > keys[k],
        r == old_r.insert(pos, k as usize),
    ensures
        unique_positions(keys, k + 1, r),
{
    let c = keys[k];
    assert forall|i: int| 0 <= i < old_r.len() implies #[trigger] keys[old_r[i] as int] != c by {
        if i >= pos {
            assert(keys[old_r[pos] as int] > c);
            if i > pos {
                assert(keys[old_r[pos] as int] < keys[old_r[i] as int]);
            }
        }
    }
    assert forall|i: int| 0 <= i < r.len() implies #[trigger] r[i] < k + 1 by {
        if i < pos {
            assert(r[i] == old_r[i]);
        } else if i > pos {
            assert(r[i] == old_r[i - 1]);
        }
    }
    assert forall|i: int, j: int| #![trigger keys[j], r[i]] 0 <= i < r.len() && 0 <= j < r[i] implies keys[j] != keys[r[i] as int] by {
        if i < pos {
            assert(r[i] == old_r[i]);
        } else if i > pos {
            assert(r[i] == old_r[i - 1]);
        } else {
            if keys[j] == c {
                let t = choose|t: int| 0 <= t < old_r.len() && #[trigger] keys[old_r[t] as int] == keys[j];
            }
        }
    }
    assert forall|i: int, j: int| 0 <= i < j < r.len() implies #[trigger] keys[r[i] as int] < #[trigger] keys[r[j] as int] by {
        if j < pos {
            assert(r[i] == old_r[i] && r[j] == old_r[j]);
        } else if j == pos {
            assert(r[i] == old_r[i]);
        } else if i < pos {
            assert(r[i] == old_r[i] && r[j] == old_r[j - 1]);
        } else if i == pos {
            assert(r[j] == old_r[j - 1]);
            assert(keys[old_r[j - 1] as int] != c);
            if j - 1 > pos {
                assert(keys[old_r[pos] as int] < keys[old_r[j - 1] as int]);
            }
        } else {
            assert(r[i] == old_r[i - 1] && r[j] == old_r[j - 1]);
        }
    }
    assert forall|m: int| #![trigger keys[m]] 0 <= m < k + 1 implies exists|i: int| 0 <= i < r.len() && #[trigger] keys[r[i] as int] == keys[m] by {
        if m == k {
            assert(r[pos] == k);
        } else {
            let t = choose|t: int| 0 <= t < old_r.len() && #[trigger] keys[old_r[t] as int] == keys[m];
            if t < pos {
                assert(r[t] == old_r[t]);
            } else {
                assert(r[t + 1] == old_r[t]);
            }
        }
    }
}

proof fn lemma_repeat_position(keys: Seq<usize>, k: int, r: Seq<usize>, pos: int)
    requires
        0 <= k < keys.len(),
        unique_positions(keys, k, r),
        0 <= pos < r.len(),
        keys[r[pos] as int] == keys[k],
    ensures
        unique_positions(keys, k + 1, r),
{
    assert forall|m: int| #![trigger keys[m]] 0 <= m < k + 1 implies exists|i: int| 0 <= i < r.len() && #[trigger] keys[r[i] as int] == keys[m] by {
        if m == k {
            assert(keys[r[pos] as int] == keys[k]);
        } else {
            let t = choose|t: int| 0 <= t < r.len() && #[trigger] keys[r[t] as int] == keys[m];
        }
    }
}

/// The positions of the first occurrence of each key, in increasing order of
/// key: what a stable sort by key followed by dropping repeats keeps.
pub fn unique_key_positions(keys: &Vec<usize>) -> (r: Vec<usize>)
    ensures
        unique_positions(keys@, keys@.len() as int, r@),
{
    let mut r: Vec<usize> = Vec::new();
    let mut k: usize = 0;
    while k < keys.len()
        invariant
            k <= keys@.len(),
            unique_positions(keys@, k as int, r@),
        decreases keys@.len() - k,
    {
        let c = keys[k];
        let mut pos: usize = 0;
        while pos < r.len() && keys[r[pos]] < c
            invariant
                pos <= r@.len(),
                k < keys@.len(),
                c == keys@[k as int],
                unique_positions(keys@, k as int, r@),
                forall|i: int| 0 <= i < pos ==> #[trigger] keys@[r@[i] as int] < c,
            decreases r@.len() - pos,
        {
            pos = pos + 1;
        }
        if pos < r.len() && keys[r[pos]] == c {
            proof {
                lemma_repeat_position(keys@, k as int, r@, pos as int);
            }
        } else {
            let ghost old_r = r@;
            r.insert(pos, k);
            proof {
                lemma_insert_position(keys@, k as int, old_r, pos as int, r@);
            }
        }
        k = k + 1;
    }
    r
}

/// The component index of each argument.
pub open spec fn arg_comps(args: Seq<ComponentSetItem>) -> Seq<usize> {
    args.map_values(|a: ComponentSetItem| a.sym.comp.idx)
}

impl ComponentSet {
    /// The arguments with repeats of a component dropped, as positions in
    /// `args`: ordered by component, the first argument that takes each.
    pub fn unique_arg_positions(&self) -> (r: Vec<usize>)
        ensures
            unique_positions(arg_comps(self.args@), self.args@.len() as int, r@),
    {
        let mut keys: Vec<usize> = Vec::new();
        let mut i: usize = 0;
        while i < self.args.len()
            invariant
                i <= self.args@.len(),
                keys@ == arg_comps(self.args@.take(i as int)),
            decreases self.args@.len() - i,
        {
            keys.push(self.args[i].sym.comp.idx);
            assert(self.args@.take(i + 1) == self.args@.take(i as int).push(self.args@[i as int]));
            assert(keys@ =~= arg_comps(self.args@.take(i + 1)));
            i = i + 1;
        }
        assert(self.args@.take(self.args@.len() as int) == self.args@);
        unique_key_positions(&keys)
    }
}

/// Where the keys of an entity set's matches start from: the one entity of
/// a singleton component, the entities of a component, or all entities.
#[derive(Clone, Copy, Debug, PartialEq, Eq, Structural)]
pub enum KeysInit {
    Singleton(usize),
    Keys(usize),
    AllEntities,
}

/// How the keys of an entity set's matches are found: none at all, when its
/// labels can never hold (`single` says whether a lookup of one key is made
/// too, which it is when an argument takes a singleton component); or from a
/// start, kept where the labels hold of the components listed in `filter`.
#[derive(Debug)]
pub enum KeysPlan {
    Empty { single: bool },
    Filtered { init: KeysInit, filter: Option<Vec<usize>> },
}

/// The start of the keys, given the first argument or label.
pub open spec fn keys_init(first: Option<LabelSymbol>) -> KeysInit {
    match first {
        Some(s) => if s.comp.is_singleton {
            KeysInit::Singleton(s.comp.idx)
        } else {
            KeysInit::Keys(s.comp.idx)
        },
        None => KeysInit::AllEntities,
    }
}

/// The components whose presence the labels test, in the order that their
/// test reads them: those required true, then false, then those left open.
pub open spec fn label_filter(labels: Option<ComponentSetLabels>) -> Option<Seq<usize>> {
    match labels {
        Some(ComponentSetLabels::Expression(e)) => Some(
            (e.true_symbols@ + e.false_symbols@ + e.unknown_symbols@).map_values(|s: LabelSymbol| s.comp.idx),
        ),
        _ => None,
    }
}

/// Some argument takes a singleton component.
pub open spec fn has_singleton_arg(args: Seq<ComponentSetItem>) -> bool {
    exists|i: int| 0 <= i < args.len() && #[trigger] args[i].sym.comp.is_singleton
}

pub open spec fn opt_view(v: Option<Vec<usize>>) -> Option<Seq<usize>> {
    match v {
        Some(x) => Some(x@),
        None => None,
    }
}

impl ComponentSet {
    /// Whether some argument takes a singleton component.
    fn any_singleton_arg(&self) -> (r: bool)
        ensures
            r == has_singleton_arg(self.args@),
    {
        let mut i: usize = 0;
        while i < self.args.len()
            invariant
                i <= self.args@.len(),
                forall|j: int| 0 <= j < i ==> !(#[trigger] self.args@[j]).sym.comp.is_singleton,
            decreases self.args@.len() - i,
        {
            if self.args[i].sym.comp.is_singleton {
                return true;
            }
            i = i + 1;
        }
        false
    }

    /// How the keys of this set's matches are found.
    pub fn keys_plan(&self) -> (r: KeysPlan)
        ensures
            self.labels matches Some(ComponentSetLabels::Constant(b)) && !b
                ==> (r matches KeysPlan::Empty { single } && single == has_singleton_arg(self.args@)),
            !(self.labels matches Some(ComponentSetLabels::Constant(b)) && !b)
                ==> (r matches KeysPlan::Filtered { init, filter }
                    && init == keys_init(spec_first_arg_label(spec_first_arg(self.args@), spec_first_label(self.labels)))
                    && opt_view(filter) == label_filter(self.labels)),
    {
        let never = match &self.labels {
            Some(ComponentSetLabels::Constant(b)) => !*b,
            _ => false,
        };
        if never {
            return KeysPlan::Empty { single: self.any_singleton_arg() };
        }
        let init = match self.first_arg_label() {
            Some(s) => if s.comp.is_singleton {
                KeysInit::Singleton(s.comp.idx)
            } else {
                KeysInit::Keys(s.comp.idx)
            },
            None => KeysInit::AllEntities,
        };
        let filter = match &self.labels {
            Some(ComponentSetLabels::Expression(e)) => {
                let syms = e.iter_symbols();
                let mut comps: Vec<usize> = Vec::new();
                let mut i: usize = 0;
                while i < syms.len()
                    invariant
                        i <= syms@.len(),
                        comps@ == syms@.take(i as int).map_values(|s: LabelSymbol| s.comp.idx),
                    decreases syms@.len() - i,
                {
                    comps.push(syms[i].comp.idx);
                    assert(syms@.take(i + 1) == syms@.take(i as int).push(syms@[i as int]));
                    assert(comps@ =~= syms@.take(i + 1).map_values(|s: LabelSymbol| s.comp.idx));
                    i = i + 1;
                }
                assert(syms@.take(syms@.len() as int) == syms@);
                Some(comps)
            },
            _ => None,
        };
        KeysPlan::Filtered { init, filter }
    }
}

/// How a system's entity sets are built: `built` lists the sets computed,
/// by position among the system's entity-set arguments (the first argument
/// of each set, ordered by set); `copies` says, per argument, whether it is
/// handed a copy of its set rather than the set itself; `singletons` lists
/// the built sets that hold a single match.
#[derive(Debug)]
pub struct BuildSetsPlan {
    pub built: Vec<usize>,
    pub copies: Vec<bool>,
    pub singletons: Vec<usize>,
}

/// The set index of each entity-set argument.
pub open spec fn set_indices(args: Seq<ComponentSetFnArg>) -> Seq<usize> {
    args.map_values(|a: ComponentSetFnArg| a.idx)
}

/// The position of the last of the first `n` arguments that takes set `idx`,
/// or -1.
pub open spec fn last_with_set(args: Seq<ComponentSetFnArg>, idx: usize, n: int) -> int
    decreases n,
{
    if n <= 0 {
        -1
    } else if args[n - 1].idx == idx {
        n - 1
    } else {
        last_with_set(args, idx, n - 1)
    }
}

/// An argument gets a copy when a later argument takes the same set.
pub open spec fn gets_copy(args: Seq<ComponentSetFnArg>, i: int) -> bool {
    args[last_with_set(args, args[i].idx, args.len() as int)].arg_idx != args[i].arg_idx
}

/// The built sets (by position) that hold a single match: their entity set
/// has a singleton and the argument is not a list.
pub open spec fn single_sets(built: Seq<usize>, args: Seq<ComponentSetFnArg>, singles: Seq<bool>) -> Seq<usize>
    decreases built.len(),
{
    if built.len() == 0 {
        Seq::empty()
    } else {
        let rest = single_sets(built.drop_last(), args, singles);
        let p = built.last() as int;
        if singles[p] && !args[p].is_vec { rest.push(built.last()) } else { rest }
    }
}

proof fn lemma_last_with_set(args: Seq<ComponentSetFnArg>, idx: usize, n: int)
    requires
        0 <= n <= args.len(),
    ensures
        -1 <= last_with_set(args, idx, n) < n,
        last_with_set(args, idx, n) >= 0 ==> args[last_with_set(args, idx, n)].idx == idx,
        forall|j: int| last_with_set(args, idx, n) < j < n ==> args[j].idx != idx,
    decreases n,
{
    if n > 0 {
        lemma_last_with_set(args, idx, n - 1);
    }
}

impl ComponentSet {
    /// Plans the building of a system's entity sets from its entity-set
    /// arguments, given for each whether its entity set has a singleton.
    pub fn build_sets_plan(args: &Vec<ComponentSetFnArg>, singles: &Vec<bool>) -> (r: BuildSetsPlan)
        requires
            singles@.len() == args@.len(),
        ensures
            unique_positions(set_indices(args@), args@.len() as int, r.built@),
            r.copies@.len() == args@.len(),
            forall|i: int| 0 <= i < args@.len() ==> #[trigger] r.copies@[i] == gets_copy(args@, i),
            r.singletons@ == single_sets(r.built@, args@, singles@),
    {
        let mut keys: Vec<usize> = Vec::new();
        let mut i: usize = 0;
        while i < args.len()
            invariant
                i <= args@.len(),
                keys@ == set_indices(args@.take(i as int)),
            decreases args@.len() - i,
        {
            keys.push(args[i].idx);
            assert(args@.take(i + 1) == args@.take(i as int).push(args@[i as int]));
            assert(keys@ =~= set_indices(args@.take(i + 1)));
            i = i + 1;
        }
        assert(args@.take(args@.len() as int) == args@);
        let built = unique_key_positions(&keys);
        let mut copies: Vec<bool> = Vec::new();
        let mut i: usize = 0;
        while i < args.len()
            invariant
                i <= args@.len(),
                copies@.len() == i,
                forall|t: int| 0 <= t < i ==> #[trigger] copies@[t] == gets_copy(args@, t),
            decreases args@.len() - i,
        {
            let idx = args[i].idx;
            let mut j: usize = args.len();
            proof {
                lemma_last_with_set(args@, idx, args@.len() as int);
            }
            while j > 0 && args[j - 1].idx != idx
                invariant
                    i < j <= args@.len(),
                    i < args@.len(),
                    idx == args@[i as int].idx,
                    last_with_set(args@, idx, j as int) == last_with_set(args@, idx, args@.len() as int),
                decreases j,
            {
                j = j - 1;
            }
            proof {
                lemma_last_with_set(args@, idx, j as int);
            }
            let last = j - 1;
            copies.push(args[last].arg_idx != args[i].arg_idx);
            i = i + 1;
        }
        let mut singletons: Vec<usize> = Vec::new();
        let mut k: usize = 0;
        while k < built.len()
            invariant
                k <= built@.len(),
                singles@.len() == args@.len(),
                forall|t: int| 0 <= t < built@.len() ==> #[trigger] built@[t] < args@.len(),
                singletons@ == single_sets(built@.take(k as int), args@, singles@),
            decreases built@.len() - k,
        {
            assert(built@.take(k + 1).drop_last() == built@.take(k as int));
            let p = built[k];
            if singles[p] && !args[p].is_vec {
                singletons.push(p);
            }
            k = k + 1;
        }
        assert(built@.take(built@.len() as int) == built@);
        BuildSetsPlan { built, copies, singletons }
    }
}

/// How the values of an entity set's matches are built from their keys:
/// `single` when the set holds one match (it is tied to a singleton and the
/// argument is not a list), else a list; `has_first_arg` when some argument is
/// required (the keys are then matched against the components; else every
/// key is taken as it is); `unique` the arguments with repeats of a component
/// dropped (see `unique_arg_positions`); `required` those of them that are
/// not optional, in the same order.
#[derive(Debug)]
pub struct ValsPlan {
    pub single: bool,
    pub has_first_arg: bool,
    pub unique: Vec<usize>,
    pub required: Vec<usize>,
}

/// The positions of `unique` whose argument is not optional, in order.
pub open spec fn required_of(unique: Seq<usize>, args: Seq<ComponentSetItem>) -> Seq<usize>
    decreases unique.len(),
{
    if unique.len() == 0 {
        Seq::empty()
    } else {
        let rest = required_of(unique.drop_last(), args);
        if !args[unique.last() as int].is_opt { rest.push(unique.last()) } else { rest }
    }
}

/// The set holds one match: its first argument or its first label takes a
/// singleton component, and the argument is not a list.
pub open spec fn single_match(cs: ComponentSet, arg: ComponentSetFnArg) -> bool {
    &&& (spec_first_arg(cs.args@) matches Some(a) && a.sym.comp.is_singleton)
        || (spec_first_label(cs.labels) matches Some(l) && l.comp.is_singleton)
    &&& !arg.is_vec
}

impl ComponentSet {
    /// How the values of this set's matches are built for the system
    /// argument `arg`.
    pub fn vals_plan(&self, arg: &ComponentSetFnArg) -> (r: ValsPlan)
        ensures
            r.single == single_match(*self, *arg),
            r.has_first_arg == spec_first_arg(self.args@) is Some,
            unique_positions(arg_comps(self.args@), self.args@.len() as int, r.unique@),
            r.required@ == required_of(r.unique@, self.args@),
    {
        let unique = self.unique_arg_positions();
        let mut required: Vec<usize> = Vec::new();
        let mut k: usize = 0;
        while k < unique.len()
            invariant
                k <= unique@.len(),
                forall|t: int| 0 <= t < unique@.len() ==> #[trigger] unique@[t] < self.args@.len(),
                required@ == required_of(unique@.take(k as int), self.args@),
            decreases unique@.len() - k,
        {
            assert(unique@.take(k + 1).drop_last() == unique@.take(k as int));
            let p = unique[k];
            if !self.args[p].is_opt {
                required.push(p);
            }
            k = k + 1;
        }
        assert(unique@.take(unique@.len() as int) == unique@);
        let first_arg = self.first_arg();
        let first_label = self.first_label();
        let arg_single = match first_arg {
            Some(a) => a.sym.comp.is_singleton,
            None => false,
        };
        let label_single = match first_label {
            Some(l) => l.comp.is_singleton,
            None => false,
        };
        ValsPlan {
            single: (arg_single || label_single) && !arg.is_vec,
            has_first_arg: first_arg.is_some(),
            unique,
            required,
        }
    }
}

/// An entity set with a required argument that takes a singleton component
/// is tied to a singleton: its keys start from that singleton, and for an
/// argument that is not a list it holds one match.
pub proof fn law_singleton_set(cs: ComponentSet, arg: ComponentSetFnArg)
    requires
        exists|i: int| 0 <= i < cs.args@.len() && required_single(#[trigger] cs.args@[i]),
    ensures
        spec_first_arg_label(spec_first_arg(cs.args@), spec_first_label(cs.labels)) matches Some(s) && s.comp.is_singleton,
        keys_init(spec_first_arg_label(spec_first_arg(cs.args@), spec_first_label(cs.labels))) matches KeysInit::Singleton(_),
        !arg.is_vec ==> single_match(cs, arg),
{
    law_first_arg(cs.args@);
}

} // verus!
