use vstd::prelude::*;

use crate::parse::find_path::strs;
use crate::resolve::function_arg::{check_args, system_errors, ComponentSetFnArg, FnArgs};
use crate::resolve::items::{ItemSystem, Items};
use crate::resolve::util::{decimal, usize_to_string};

verus! {

/// How the manager runs the systems: the systems run once at start, the
/// systems run on events (by position among the items' systems) with, for
/// each system that takes an event, that event's index, and the messages of
/// systems left out because they name an entity set that does not exist.
/// A system whose arguments do not check is left out with no message here.
#[derive(Debug)]
pub struct ManagerPlan {
    pub init_systems: Vec<usize>,
    pub systems: Vec<usize>,
    pub system_events: Vec<usize>,
    pub errs: Vec<String>,
}

/// The mathematical form of the plan.
pub struct SpecManager {
    pub init_systems: Seq<usize>,
    pub systems: Seq<usize>,
    pub system_events: Seq<usize>,
    pub errs: Seq<Seq<char>>,
}

/// The message for an entity-set index that names no set.
pub open spec fn invalid_set_msg(idx: usize) -> Seq<char> {
    "Invalid component set index: "@ + decimal(idx as nat)
}

/// The messages for the entity-set arguments whose index names no set.
pub open spec fn invalid_sets(sets: Seq<ComponentSetFnArg>, n_sets: nat) -> Seq<Seq<char>>
    decreases sets.len(),
{
    if sets.len() == 0 {
        Seq::empty()
    } else {
        let rest = invalid_sets(sets.drop_last(), n_sets);
        if sets.last().idx >= n_sets { rest.push(invalid_set_msg(sets.last().idx)) } else { rest }
    }
}

/// What the system at position `i` adds to the plan.
pub open spec fn manager_step(p: SpecManager, sys: ItemSystem, i: int, items: Items) -> SpecManager {
    if system_errors(sys, items).len() > 0 {
        p
    } else if sys.is_init {
        SpecManager { init_systems: p.init_systems.push(i as usize), ..p }
    } else {
        let st = check_args(items, false, sys.args@, sys.args@.len() as int);
        let bad = invalid_sets(st.sets, items.component_sets@.len());
        SpecManager {
            system_events: p.system_events.push(st.event->0.idx),
            systems: if bad.len() == 0 { p.systems.push(i as usize) } else { p.systems },
            errs: p.errs + bad,
            ..p
        }
    }
}

/// The plan for the first `n` systems.
pub open spec fn manager_from(systems: Seq<ItemSystem>, items: Items, n: int) -> SpecManager
    decreases n,
{
    if n <= 0 {
        SpecManager { init_systems: Seq::empty(), systems: Seq::empty(), system_events: Seq::empty(), errs: Seq::empty() }
    } else {
        manager_step(manager_from(systems, items, n - 1), systems[n - 1], n - 1, items)
    }
}

fn invalid_set_messages(sets: &Vec<ComponentSetFnArg>, n_sets: usize) -> (r: Vec<String>)
    ensures
        strs(r@) == invalid_sets(sets@, n_sets as nat),
{
    let mut r: Vec<String> = Vec::new();
    let mut k: usize = 0;
    while k < sets.len()
        invariant
            k <= sets@.len(),
            strs(r@) == invalid_sets(sets@.take(k as int), n_sets as nat),
        decreases sets@.len() - k,
    {
        assert(sets@.take(k + 1).drop_last() == sets@.take(k as int));
        if sets[k].idx >= n_sets {
            let ghost before = r@;
            let mut m = String::from_str("Invalid component set index: ");
            let d = usize_to_string(sets[k].idx);
            m.append(d.as_str());
            r.push(m);
            assert(strs(r@) =~= strs(before).push(m@));
        }
        k = k + 1;
    }
    assert(sets@.take(sets@.len() as int) == sets@);
    r
}

/// Plans how the manager runs the systems of `items`.
pub fn manager_plan(items: &Items) -> (r: ManagerPlan)
    ensures
        r.init_systems@ == manager_from(items.systems@, *items, items.systems@.len() as int).init_systems,
        r.systems@ == manager_from(items.systems@, *items, items.systems@.len() as int).systems,
        r.system_events@ == manager_from(items.systems@, *items, items.systems@.len() as int).system_events,
        strs(r.errs@) == manager_from(items.systems@, *items, items.systems@.len() as int).errs,
{
    let mut init_systems: Vec<usize> = Vec::new();
    let mut systems: Vec<usize> = Vec::new();
    let mut system_events: Vec<usize> = Vec::new();
    let mut errs: Vec<String> = Vec::new();
    let mut i: usize = 0;
    assert(strs(errs@) =~= Seq::<Seq<char>>::empty());
    while i < items.systems.len()
        invariant
            i <= items.systems@.len(),
            init_systems@ == manager_from(items.systems@, *items, i as int).init_systems,
            systems@ == manager_from(items.systems@, *items, i as int).systems,
            system_events@ == manager_from(items.systems@, *items, i as int).system_events,
            strs(errs@) == manager_from(items.systems@, *items, i as int).errs,
        decreases items.systems@.len() - i,
    {
        let sys = &items.systems[i];
        match sys.validate(items) {
            Ok(FnArgs::Init { .. }) => {
                init_systems.push(i);
            },
            Ok(FnArgs::System { event, component_sets, .. }) => {
                system_events.push(event.idx);
                let mut bad = invalid_set_messages(&component_sets, items.component_sets.len());
                let ghost old_errs = errs@;
                let ghost bad_v = bad@;
                if bad.len() == 0 {
                    systems.push(i);
                }
                errs.append(&mut bad);
                assert(strs(errs@) =~= strs(old_errs) + strs(bad_v));
            },
            Err(_) => {},
        }
        i = i + 1;
    }
    ManagerPlan { init_systems, systems, system_events, errs }
}

} // verus!
