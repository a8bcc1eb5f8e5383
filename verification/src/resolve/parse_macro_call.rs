use vstd::prelude::*;

use crate::parse::ast_crate::{AstCrate, AstMod};
use crate::parse::find_path::ItemPath;

verus! {

/// An item read from a macro call, which records itself in the module that
/// holds the call.
pub trait ParseMacroCall: Sized {
    fn update_mod(&self, m: &mut AstMod);
}

/// The items read from the calls of one macro in a module, and those of each
/// of its child modules, in the order of the module's children.
#[derive(Debug)]
pub struct MacroCalls<T> {
    pub calls: Vec<T>,
    pub mods: Vec<MacroCalls<T>>,
}

/// The calls of the macro at `macro_path` in module `m` and below. Calls are
/// not collected: the result is always empty.
pub fn parse_macro_calls<T: ParseMacroCall>(
    macro_path: &ItemPath,
    m: &AstMod,
    cr: &AstCrate,
    crates: &Vec<AstCrate>,
) -> (r: MacroCalls<T>)
    ensures
        r.calls@.len() == 0,
        r.mods@.len() == 0,
{
    MacroCalls { calls: Vec::new(), mods: Vec::new() }
}

/// The items of a macro-call tree in the order they are handed back: the
/// module's own items, then, for each child list paired in order with a child
/// of module `m` in `mods`, the items of that list.
pub open spec fn flat_calls<T>(mc: MacroCalls<T>, mods: Seq<AstMod>, m: int) -> Seq<T>
    decreases mc,
{
    if 0 <= m < mods.len() {
        mc.calls@ + flat_children(mc.mods@, mods, mods[m].mods@)
    } else {
        mc.calls@
    }
}

/// The items of the child lists `cs`, each paired with the child module at
/// the same position of `kids` (lists without a module are left out).
pub open spec fn flat_children<T>(cs: Seq<MacroCalls<T>>, mods: Seq<AstMod>, kids: Seq<usize>) -> Seq<T>
    decreases cs,
{
    if cs.len() == 0 {
        Seq::empty()
    } else if cs.len() - 1 < kids.len() {
        flat_children(cs.drop_last(), mods, kids) + flat_calls(cs.last(), mods, kids[cs.len() - 1] as int)
    } else {
        flat_children(cs.drop_last(), mods, kids)
    }
}

/// Appends the items of `mc` (in the order of `flat_calls`) to `out`, and the
/// module that each of them records itself in to `owners`.
fn collect_calls<T>(mc: MacroCalls<T>, mods: &Vec<AstMod>, m_idx: usize, out: &mut Vec<T>, owners: &mut Vec<usize>)
    requires
        old(owners)@.len() == old(out)@.len(),
    ensures
        final(out)@ == old(out)@ + flat_calls(mc, mods@, m_idx as int),
        final(owners)@.len() == final(out)@.len(),
    decreases mc,
{
    let MacroCalls { calls, mods: children } = mc;
    let ghost start = out@;
    let ghost own = calls@;
    for c in it: calls
        invariant
            it.seq() == own,
            out@ == start + own.take(it.index() as int),
            owners@.len() == out@.len(),
    {
        assert(own.take(it.index() + 1) == own.take(it.index() as int).push(c));
        out.push(c);
        owners.push(m_idx);
    }
    assert(own.take(own.len() as int) == own);
    if m_idx < mods.len() {
        let kids = &mods[m_idx].mods;
        let ghost all = children@;
        assert(all.len() == children.len());
        let mut rest = children;
        let mut k: usize = 0;
        while rest.len() > 0
            invariant
                mc == (MacroCalls { calls: mc.calls, mods: mc.mods }),
                mc.mods@ == all,
                mc.calls@ == own,
                m_idx < mods@.len(),
                *kids == mods@[m_idx as int].mods,
                k <= all.len(),
                all.len() <= usize::MAX,
                rest@ == all.skip(k as int),
                out@ == start + own + flat_children(all.take(k as int), mods@, kids@),
                owners@.len() == out@.len(),
            decreases rest@.len(),
        {
            let child = rest.remove(0);
            assert(child == all[k as int]);
            assert(all.take(k + 1).drop_last() == all.take(k as int));
            assert(all.take(k + 1).last() == child);
            if k < kids.len() {
                assert(decreases_to!(mc => child)) by {
                    assert(child == mc.mods@[k as int]);
                }
                let ghost before = out@;
                collect_calls(child, mods, kids[k], out, owners);
                assert(out@ =~= start + own + flat_children(all.take(k + 1), mods@, kids@));
            } else {
                assert(flat_children(all.take(k + 1), mods@, kids@) == flat_children(all.take(k as int), mods@, kids@));
            }
            assert(rest@ =~= all.skip(k + 1));
            k = k + 1;
        }
        assert(all.take(all.len() as int) == all);
    }
}

/// Lets each item record itself in its module of `cr`: the module's own items
/// in module `m_idx`, and each list of child items, paired in order with the
/// module's children as they stand on entry, in that child and below. Items
/// record themselves in the order in which they are handed back: the module's
/// own items first, then those of each child list.
pub fn update_macro_calls<T: ParseMacroCall>(macro_calls: MacroCalls<T>, cr: &mut AstCrate, m_idx: usize) -> (r: Vec<T>)
    ensures
        r@ == flat_calls(macro_calls, old(cr).mods@, m_idx as int),
        final(cr).mods@.len() == old(cr).mods@.len(),
        final(cr).idx == old(cr).idx,
        final(cr).name == old(cr).name,
        final(cr).main == old(cr).main,
        final(cr).deps == old(cr).deps,
{
    let mut out: Vec<T> = Vec::new();
    let mut owners: Vec<usize> = Vec::new();
    collect_calls(macro_calls, &cr.mods, m_idx, &mut out, &mut owners);
    assert(out@ =~= flat_calls(macro_calls, old(cr).mods@, m_idx as int));
    let n = cr.mods.len();
    let mut k: usize = 0;
    while k < out.len()
        invariant
            owners@.len() == out@.len(),
            out@ == flat_calls(macro_calls, old(cr).mods@, m_idx as int),
            n == old(cr).mods@.len(),
            cr.mods@.len() == n,
            cr.idx == old(cr).idx,
            cr.name == old(cr).name,
            cr.main == old(cr).main,
            cr.deps == old(cr).deps,
        decreases out@.len() - k,
    {
        let o = owners[k];
        if o < cr.mods.len() {
            out[k].update_mod(&mut cr.mods[o]);
        }
        k = k + 1;
    }
    out
}

} // verus!
