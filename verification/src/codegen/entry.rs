use vstd::prelude::*;

use crate::parse::find_path::{lemma_strs_skip, strs};
use crate::codegen::crate_paths::{no_path_msg, Crates};
use crate::parse::find_path::join;
use crate::resolve::paths::Crate;
use crate::resolve::util::{decimal, usize_to_string};
use crate::parse::find_path::ItemPath;
use crate::resolve::ast_items::ItemsCrate;
use crate::resolve::items::ItemEvent;
use crate::resolve::constants::{component_var, event_var, event_variant, global_var, numbered};

verus! {

/// A field of the entry crate's component manager: the component's crate and
/// index in it, its type as seen from the entry crate, the field's name, and
/// whether the component is a singleton (one value) or a map per entity.
#[derive(Debug)]
pub struct ComponentField {
    pub cr_idx: usize,
    pub idx: usize,
    pub ty: Vec<String>,
    pub var: String,
    pub is_singleton: bool,
}

/// A field of the entry crate's global manager.
#[derive(Debug)]
pub struct GlobalField {
    pub cr_idx: usize,
    pub idx: usize,
    pub ty: Vec<String>,
    pub var: String,
}

/// An event of the entry crate's event manager: its field and its variant of
/// the events enum.
#[derive(Debug)]
pub struct EventVariant {
    pub cr_idx: usize,
    pub idx: usize,
    pub ty: Vec<String>,
    pub var: String,
    pub variant: String,
}

/// What the entry crate's managers hold, in crate order and, within a crate,
/// in item order; fields are numbered across all crates.
#[derive(Debug)]
pub struct EntryPlan {
    pub components: Vec<ComponentField>,
    pub globals: Vec<GlobalField>,
    pub events: Vec<EventVariant>,
}

/// The type of an item as seen from the entry crate: the path to its crate,
/// then its own path without the leading `crate`.
pub open spec fn item_type(cr_path: Seq<Seq<char>>, item_path: Seq<String>) -> Seq<Seq<char>> {
    cr_path + strs(item_path).skip(1)
}

/// The components of each crate in order: (crate index, index, type,
/// singleton).
pub open spec fn component_rows(crates: Seq<ItemsCrate>, paths: Seq<Vec<String>>) -> Seq<(usize, usize, Seq<Seq<char>>, bool)>
    decreases crates.len(),
{
    if crates.len() == 0 {
        Seq::empty()
    } else {
        let k = crates.len() - 1;
        let cr = crates[k];
        component_rows(crates.drop_last(), paths) + Seq::new(cr.components@.len(), |i: int|
            (cr.cr_idx, i as usize, item_type(strs(paths[k]@), cr.components@[i].path.path@), cr.components@[i].is_singleton))
    }
}

/// The globals of each crate in order: (crate index, index, type).
pub open spec fn global_rows(crates: Seq<ItemsCrate>, paths: Seq<Vec<String>>) -> Seq<(usize, usize, Seq<Seq<char>>)>
    decreases crates.len(),
{
    if crates.len() == 0 {
        Seq::empty()
    } else {
        let k = crates.len() - 1;
        let cr = crates[k];
        global_rows(crates.drop_last(), paths) + Seq::new(cr.globals@.len(), |i: int|
            (cr.cr_idx, i as usize, item_type(strs(paths[k]@), cr.globals@[i].path.path@)))
    }
}

/// The events of each crate in order: (crate index, index, type).
pub open spec fn event_rows(crates: Seq<ItemsCrate>, paths: Seq<Vec<String>>) -> Seq<(usize, usize, Seq<Seq<char>>)>
    decreases crates.len(),
{
    if crates.len() == 0 {
        Seq::empty()
    } else {
        let k = crates.len() - 1;
        let cr = crates[k];
        event_rows(crates.drop_last(), paths) + Seq::new(cr.events@.len(), |i: int|
            (cr.cr_idx, i as usize, item_type(strs(paths[k]@), cr.events@[i].path.path@)))
    }
}

/// The number of events of all crates.
pub open spec fn event_count(crates: Seq<ItemsCrate>) -> nat
    decreases crates.len(),
{
    if crates.len() == 0 {
        0
    } else {
        event_count(crates.drop_last()) + crates.last().events@.len()
    }
}

/// Every item of every crate has a non-empty path.
pub open spec fn item_paths_nonempty(crates: Seq<ItemsCrate>) -> bool {
    &&& forall|k: int, i: int| 0 <= k < crates.len() && 0 <= i < crates[k].components@.len()
        ==> #[trigger] crates[k].components@[i].path.path@.len() > 0
    &&& forall|k: int, i: int| 0 <= k < crates.len() && 0 <= i < crates[k].globals@.len()
        ==> #[trigger] crates[k].globals@[i].path.path@.len() > 0
    &&& forall|k: int, i: int| 0 <= k < crates.len() && 0 <= i < crates[k].events@.len()
        ==> #[trigger] crates[k].events@[i].path.path@.len() > 0
}

proof fn lemma_event_rows_len(crates: Seq<ItemsCrate>, paths: Seq<Vec<String>>)
    ensures
        event_rows(crates, paths).len() == event_count(crates),
    decreases crates.len(),
{
    if crates.len() > 0 {
        lemma_event_rows_len(crates.drop_last(), paths);
    }
}

/// `pre` followed by the segments of `path` after the first.
fn item_type_exec(pre: &Vec<String>, path: &Vec<String>) -> (r: Vec<String>)
    requires
        path@.len() > 0,
    ensures
        strs(r@) == item_type(strs(pre@), path@),
{
    let mut r: Vec<String> = Vec::new();
    let mut i: usize = 0;
    while i < pre.len()
        invariant
            i <= pre@.len(),
            strs(r@) == strs(pre@.take(i as int)),
        decreases pre@.len() - i,
    {
        let ghost before = r@;
        let c = pre[i].clone();
        r.push(c);
        assert(strs(r@) =~= strs(before).push(c@));
        assert(strs(pre@.take(i + 1)) =~= strs(pre@.take(i as int)).push(pre@[i as int]@));
        i = i + 1;
    }
    assert(pre@.take(pre@.len() as int) == pre@);
    let mut j: usize = 1;
    while j < path.len()
        invariant
            1 <= j <= path@.len(),
            strs(r@) == strs(pre@) + strs(path@.subrange(1, j as int)),
        decreases path@.len() - j,
    {
        let ghost before = r@;
        let c = path[j].clone();
        r.push(c);
        assert(strs(r@) =~= strs(before).push(c@));
        assert(strs(path@.subrange(1, j + 1)) =~= strs(path@.subrange(1, j as int)).push(path@[j as int]@));
        j = j + 1;
    }
    proof {
        assert(path@.subrange(1, path@.len() as int) == path@.skip(1));
        lemma_strs_skip(path@, 1);
    }
    r
}

/// The fields and variants of the entry crate's managers, given the path
/// from the entry crate to each crate: one component field per component, one
/// global field per global and one event variant per event, crate by crate in
/// order and item by item within a crate. Fields are named by their position
/// in their list.
pub fn entry_codegen_plan(crates: &Vec<ItemsCrate>, crate_paths: &Vec<Vec<String>>) -> (r: EntryPlan)
    requires
        crate_paths@.len() == crates@.len(),
        item_paths_nonempty(crates@),
    ensures
        r.components@.len() == component_rows(crates@, crate_paths@).len(),
        forall|i: int| 0 <= i < r.components@.len() ==> {
            let f = #[trigger] r.components@[i];
            &&& (f.cr_idx, f.idx, strs(f.ty@), f.is_singleton) == component_rows(crates@, crate_paths@)[i]
            &&& f.var@ == numbered("c"@, i as nat)
        },
        r.globals@.len() == global_rows(crates@, crate_paths@).len(),
        forall|i: int| 0 <= i < r.globals@.len() ==> {
            let f = #[trigger] r.globals@[i];
            &&& (f.cr_idx, f.idx, strs(f.ty@)) == global_rows(crates@, crate_paths@)[i]
            &&& f.var@ == numbered("g"@, i as nat)
        },
        r.events@.len() == event_count(crates@),
        r.events@.len() == event_rows(crates@, crate_paths@).len(),
        forall|i: int| 0 <= i < r.events@.len() ==> {
            let f = #[trigger] r.events@[i];
            &&& (f.cr_idx, f.idx, strs(f.ty@)) == event_rows(crates@, crate_paths@)[i]
            &&& f.var@ == numbered("e"@, i as nat)
            &&& f.variant@ == numbered("E"@, i as nat)
        },
{
    let mut components: Vec<ComponentField> = Vec::new();
    let mut globals: Vec<GlobalField> = Vec::new();
    let mut events: Vec<EventVariant> = Vec::new();
    let mut k: usize = 0;
    while k < crates.len()
        invariant
            k <= crates@.len(),
            crate_paths@.len() == crates@.len(),
            item_paths_nonempty(crates@),
            components@.len() == component_rows(crates@.take(k as int), crate_paths@).len(),
            forall|i: int| 0 <= i < components@.len() ==> {
                let f = #[trigger] components@[i];
                &&& (f.cr_idx, f.idx, strs(f.ty@), f.is_singleton) == component_rows(crates@.take(k as int), crate_paths@)[i]
                &&& f.var@ == numbered("c"@, i as nat)
            },
            globals@.len() == global_rows(crates@.take(k as int), crate_paths@).len(),
            forall|i: int| 0 <= i < globals@.len() ==> {
                let f = #[trigger] globals@[i];
                &&& (f.cr_idx, f.idx, strs(f.ty@)) == global_rows(crates@.take(k as int), crate_paths@)[i]
                &&& f.var@ == numbered("g"@, i as nat)
            },
            events@.len() == event_rows(crates@.take(k as int), crate_paths@).len(),
            forall|i: int| 0 <= i < events@.len() ==> {
                let f = #[trigger] events@[i];
                &&& (f.cr_idx, f.idx, strs(f.ty@)) == event_rows(crates@.take(k as int), crate_paths@)[i]
                &&& f.var@ == numbered("e"@, i as nat)
                &&& f.variant@ == numbered("E"@, i as nat)
            },
        decreases crates@.len() - k,
    {
        let cr = &crates[k];
        let pre = &crate_paths[k];
        let ghost tk = crates@.take(k as int);
        let ghost tk1 = crates@.take(k + 1);
        proof {
            assert(tk1.drop_last() == tk);
            assert(tk1.last() == crates@[k as int]);
        }
        let ghost c0 = components@.len();
        let mut i: usize = 0;
        while i < cr.components.len()
            invariant
                *cr == crates@[k as int],
                *pre == crate_paths@[k as int],
                k < crates@.len(),
                item_paths_nonempty(crates@),
                i <= cr.components@.len(),
                components@.len() == c0 + i,
                c0 == component_rows(tk, crate_paths@).len(),
                tk1.drop_last() == tk,
                tk1.last() == crates@[k as int],
                tk1.len() == k + 1,
                forall|j: int| 0 <= j < components@.len() ==> {
                    let f = #[trigger] components@[j];
                    &&& (f.cr_idx, f.idx, strs(f.ty@), f.is_singleton) == component_rows(tk1, crate_paths@)[j]
                    &&& f.var@ == numbered("c"@, j as nat)
                },
            decreases cr.components@.len() - i,
        {
            let c = &cr.components[i];
            assert(c.path.path@.len() > 0);
            let ty = item_type_exec(pre, &c.path.path);
            let var = component_var(components.len());
            components.push(ComponentField { cr_idx: cr.cr_idx, idx: i, ty, var, is_singleton: c.is_singleton });
            i = i + 1;
        }
        let ghost g0 = globals@.len();
        let mut i: usize = 0;
        while i < cr.globals.len()
            invariant
                *cr == crates@[k as int],
                *pre == crate_paths@[k as int],
                k < crates@.len(),
                item_paths_nonempty(crates@),
                i <= cr.globals@.len(),
                globals@.len() == g0 + i,
                g0 == global_rows(tk, crate_paths@).len(),
                tk1.drop_last() == tk,
                tk1.last() == crates@[k as int],
                tk1.len() == k + 1,
                forall|j: int| 0 <= j < globals@.len() ==> {
                    let f = #[trigger] globals@[j];
                    &&& (f.cr_idx, f.idx, strs(f.ty@)) == global_rows(tk1, crate_paths@)[j]
                    &&& f.var@ == numbered("g"@, j as nat)
                },
            decreases cr.globals@.len() - i,
        {
            let g = &cr.globals[i];
            assert(g.path.path@.len() > 0);
            let ty = item_type_exec(pre, &g.path.path);
            let var = global_var(globals.len());
            globals.push(GlobalField { cr_idx: cr.cr_idx, idx: i, ty, var });
            i = i + 1;
        }
        let ghost e0 = events@.len();
        let mut i: usize = 0;
        while i < cr.events.len()
            invariant
                *cr == crates@[k as int],
                *pre == crate_paths@[k as int],
                k < crates@.len(),
                item_paths_nonempty(crates@),
                i <= cr.events@.len(),
                events@.len() == e0 + i,
                e0 == event_rows(tk, crate_paths@).len(),
                tk1.drop_last() == tk,
                tk1.last() == crates@[k as int],
                tk1.len() == k + 1,
                forall|j: int| 0 <= j < events@.len() ==> {
                    let f = #[trigger] events@[j];
                    &&& (f.cr_idx, f.idx, strs(f.ty@)) == event_rows(tk1, crate_paths@)[j]
                    &&& f.var@ == numbered("e"@, j as nat)
                    &&& f.variant@ == numbered("E"@, j as nat)
                },
            decreases cr.events@.len() - i,
        {
            let e = &cr.events[i];
            assert(e.path.path@.len() > 0);
            let ty = item_type_exec(pre, &e.path.path);
            let var = event_var(events.len());
            let variant = event_variant(events.len());
            events.push(EventVariant { cr_idx: cr.cr_idx, idx: i, ty, var, variant });
            i = i + 1;
        }
        k = k + 1;
    }
    assert(crates@.take(crates@.len() as int) == crates@);
    proof {
        lemma_event_rows_len(crates@, crate_paths@);
    }
    EntryPlan { components, globals, events }
}

/// How crate `start` names the item `p`, or why it cannot.
pub open spec fn item_path_outcome(c: Crates, start: int, p: ItemPath) -> Result<Seq<Seq<char>>, Seq<char>> {
    match c.entry(start, p.cr_idx as int) {
        Some(pre) => Ok(pre + strs(p.path@).skip(if p.path@.len() > 0 && p.path@[0]@ == "crate"@ { 1int } else { 0int })),
        None => Err(no_path_msg(start as nat, p.cr_idx as nat)),
    }
}

/// The errors met while naming the types of `events` from crate `start`.
pub open spec fn event_path_errors(c: Crates, start: int, events: Seq<ItemEvent>) -> Seq<Seq<char>>
    decreases events.len(),
{
    if events.len() == 0 {
        Seq::empty()
    } else {
        event_path_errors(c, start, events.drop_last()) + match item_path_outcome(c, start, events.last().path) {
            Ok(_) => Seq::empty(),
            Err(m) => seq![m],
        }
    }
}

/// The field, the enum variant and the type (as named from the generating
/// crate) of one event of the event manager.
#[derive(Debug)]
pub struct EventPlan {
    pub var: String,
    pub variant: String,
    pub ty: Vec<String>,
}

/// The events of the event manager of crate `cr_idx`: event `i` is held in
/// field `e{i}` and is variant `E{i}` of the events enum, with its type named
/// from crate `cr_idx`; all the errors when some type cannot be named.
pub fn events_plan(cr_idx: usize, events: &Vec<ItemEvent>, crates: &Crates) -> (r: Result<Vec<EventPlan>, Vec<String>>)
    ensures
        ({
            let errs = event_path_errors(*crates, cr_idx as int, events@);
            match r {
                Ok(v) => errs.len() == 0 && v@.len() == events@.len() && forall|i: int| 0 <= i < v@.len() ==> {
                    &&& (#[trigger] v@[i]).var@ == numbered("e"@, i as nat)
                    &&& v@[i].variant@ == numbered("E"@, i as nat)
                    &&& item_path_outcome(*crates, cr_idx as int, events@[i].path) == Ok::<Seq<Seq<char>>, Seq<char>>(strs(v@[i].ty@))
                },
                Err(es) => errs.len() > 0 && strs(es@) == errs,
            }
        }),
{
    let mut oks: Vec<EventPlan> = Vec::new();
    let mut errs: Vec<String> = Vec::new();
    let mut i: usize = 0;
    while i < events.len()
        invariant
            i <= events@.len(),
            strs(errs@) == event_path_errors(*crates, cr_idx as int, events@.take(i as int)),
            errs@.len() == 0 ==> oks@.len() == i,
            forall|j: int| 0 <= j < oks@.len() && errs@.len() == 0 ==> {
                &&& (#[trigger] oks@[j]).var@ == numbered("e"@, j as nat)
                &&& oks@[j].variant@ == numbered("E"@, j as nat)
                &&& item_path_outcome(*crates, cr_idx as int, events@[j].path) == Ok::<Seq<Seq<char>>, Seq<char>>(strs(oks@[j].ty@))
            },
        decreases events@.len() - i,
    {
        proof {
            assert(events@.take(i + 1).drop_last() == events@.take(i as int));
            assert(events@.take(i + 1).last() == events@[i as int]);
        }
        let res = crates.get_item_path(cr_idx, &events[i].path);
        match res {
            Ok(ty) => {
                if errs.len() == 0 {
                    let var = event_var(i);
                    let variant = event_variant(i);
                    oks.push(EventPlan { var, variant, ty });
                }
                assert(strs(errs@) =~= event_path_errors(*crates, cr_idx as int, events@.take(i + 1)));
            },
            Err(m) => {
                let ghost before = errs@;
                errs.push(m);
                assert(strs(errs@) =~= strs(before).push(m@));
            },
        }
        i = i + 1;
    }
    assert(events@.take(events@.len() as int) == events@);
    if errs.len() == 0 {
        Ok(oks)
    } else {
        Err(errs)
    }
}

/// Some entry of the layout is for crate `j`.
pub open spec fn lists_crate(r: Seq<(usize, bool)>, j: usize) -> bool {
    exists|k: int| 0 <= k < r.len() && r[k].0 == j
}

/// The generated module of each crate other than the macros crate, in crate
/// order: the crate's index, and whether the module is the full one (globals,
/// components, events and the manager) or holds only the `use` items and
/// traits. The full module goes to the crate at the position, among these
/// crates, of the main crate's index.
pub fn namespace_layout(crates: &Crates) -> (r: Vec<(usize, bool)>)
    ensures
        ({
            let main = crates.index_of(Crate::Main);
            let macros = crates.index_of(Crate::Macros);
            &&& forall|k: int| 0 <= k < r@.len() ==> {
                &&& (#[trigger] r@[k]).0 < crates.crate_list().len()
                &&& r@[k].0 != macros
                &&& r@[k].1 == (k == main)
            }
            &&& forall|k: int, l: int| 0 <= k < l < r@.len() ==> r@[k].0 < r@[l].0
            &&& forall|j: usize| j < crates.crate_list().len() && j != macros ==> #[trigger] lists_crate(r@, j)
        }),
{
    let macros = crates.get_crate_index(Crate::Macros);
    let main = crates.get_crate_index(Crate::Main);
    let idxs = crates.iter_except([macros]);
    let mut r: Vec<(usize, bool)> = Vec::new();
    let mut k: usize = 0;
    while k < idxs.len()
        invariant
            k <= idxs@.len(),
            r@.len() == k,
            macros == crates.index_of(Crate::Macros),
            main == crates.index_of(Crate::Main),
            forall|x: int| 0 <= x < idxs@.len() ==> #[trigger] idxs@[x] < crates.crate_list().len() && !seq![macros].contains(idxs@[x]),
            forall|x: int| 0 <= x < k ==> (#[trigger] r@[x]).0 == idxs@[x] && r@[x].1 == (x == main),
        decreases idxs@.len() - k,
    {
        r.push((idxs[k], k == main));
        k = k + 1;
    }
    proof {
        assert forall|x: int| 0 <= x < r@.len() implies (#[trigger] r@[x]).0 != macros by {
            assert(!seq![macros].contains(idxs@[x]));
            assert(seq![macros][0] == macros);
        }
        assert forall|j: usize| j < crates.crate_list().len() && j != macros implies #[trigger] lists_crate(r@, j) by {
            if !seq![macros].contains(j) {
                assert(idxs@.contains(j));
                let x = choose|x: int| 0 <= x < idxs@.len() && idxs@[x] == j;
                assert(r@[x].0 == j);
            } else {
                let y = choose|y: int| 0 <= y < 1 && seq![macros][y] == j;
            }
        }
        assert(forall|x: int, l: int| 0 <= x < l < r@.len() ==> r@[x].0 < r@[l].0 && idxs@[x] < idxs@[l]);
    }
    r
}

/// The name of the file that holds the code generated for the `i`-th crate.
pub open spec fn code_file_name(i: nat) -> Seq<char> {
    decimal(i) + ".rs"@
}

/// The file that holds the code generated for the `i`-th crate.
pub fn code_file(i: usize) -> (r: String)
    ensures
        r@ == code_file_name(i as nat),
{
    let mut r = usize_to_string(i);
    r.append(".rs");
    r
}

/// The text of the index file: one line per crate, its directory and the
/// file of its generated code separated by a tab.
pub open spec fn index_text(entries: Seq<(String, String)>) -> Seq<char> {
    join(entries.map_values(|e: (String, String)| e.0@ + "\t"@ + e.1@), "\n"@)
}

/// Writes the index file's text.
pub fn index_file_text(entries: &Vec<(String, String)>) -> (r: String)
    ensures
        r@ == index_text(entries@),
{
    let ghost lines = entries@.map_values(|e: (String, String)| e.0@ + "\t"@ + e.1@);
    let mut r = String::new();
    let mut i: usize = 0;
    while i < entries.len()
        invariant
            i <= entries@.len(),
            lines == entries@.map_values(|e: (String, String)| e.0@ + "\t"@ + e.1@),
            r@ == join(lines.take(i as int), "\n"@),
        decreases entries@.len() - i,
    {
        proof {
            assert(lines.take(i + 1).drop_last() == lines.take(i as int));
            assert(lines.take(i + 1).last() == lines[i as int]);
            reveal_strlit("\n");
            reveal_strlit("\t");
        }
        if i > 0 {
            r.append("\n");
        }
        r.append(entries[i].0.as_str());
        r.append("\t");
        r.append(entries[i].1.as_str());
        proof {
            if i == 0 {
                assert(lines.take(1) =~= seq![lines[0]]);
            }
        }
        i = i + 1;
    }
    assert(lines.take(entries@.len() as int) == lines);
    r
}

} // verus!
