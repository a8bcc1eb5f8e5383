use vstd::prelude::*;

use crate::resolve::ast_items::ItemsCrate;

verus! {

/// The crate indices each crate depends on.
pub open spec fn item_deps(crates: Seq<ItemsCrate>) -> Seq<Seq<usize>> {
    crates.map_values(|c: ItemsCrate| c.dependencies@.map_values(|d: crate::resolve::ast_items::Dependency| d.cr_idx))
}

/// Every dependency names a crate and `rank` decreases along dependencies.
pub open spec fn order_rank(g: Seq<Seq<usize>>, rank: Seq<nat>) -> bool {
    &&& rank.len() == g.len()
    &&& forall|i: int, k: int| 0 <= i < g.len() && 0 <= k < g[i].len() ==>
        (#[trigger] g[i][k]) < g.len() && rank[g[i][k] as int] < rank[i]
}

pub open spec fn has_order(g: Seq<Seq<usize>>) -> bool {
    exists|rank: Seq<nat>| order_rank(g, rank)
}

pub open spec fn an_order(g: Seq<Seq<usize>>) -> Seq<nat> {
    choose|rank: Seq<nat>| order_rank(g, rank)
}

/// Depth-first visit of `c` after `list` was visited: the dependencies of
/// `c` not visited yet, in order, then `c`.
pub open spec fn dfs(g: Seq<Seq<usize>>, list: Seq<usize>, c: int, fuel: nat) -> Seq<usize>
    decreases fuel, 0int,
{
    if fuel == 0 || c < 0 || c >= g.len() {
        list
    } else {
        visit(g, list, c, 0, (fuel - 1) as nat).push(c as usize)
    }
}

/// The dependencies of `c` from position `k` on, visited after `list`.
pub open spec fn visit(g: Seq<Seq<usize>>, list: Seq<usize>, c: int, k: int, fuel: nat) -> Seq<usize>
    decreases fuel, if 0 <= c < g.len() && 0 <= k <= g[c].len() { g[c].len() - k + 1 } else { 0 },
{
    if c < 0 || c >= g.len() || k < 0 || k >= g[c].len() {
        list
    } else {
        let d = g[c][k];
        let next = if list.contains(d) { list } else { dfs(g, list, d as int, fuel) };
        visit(g, next, c, k + 1, fuel)
    }
}

/// The post order of the dependency graph from the entry crate (index 0).
pub open spec fn post_order(crates: Seq<ItemsCrate>) -> Seq<usize> {
    let g = item_deps(crates);
    dfs(g, Seq::empty(), 0, an_order(g)[0] + 1)
}

/// No crate occurs twice, and every dependency of a crate occurs before it.
pub open spec fn deps_first(g: Seq<Seq<usize>>, list: Seq<usize>) -> bool {
    &&& list.no_duplicates()
    &&& forall|i: int| 0 <= i < list.len() ==> #[trigger] list[i] < g.len()
    &&& forall|i: int, k: int| 0 <= i < list.len() && 0 <= k < g[list[i] as int].len()
        ==> #[trigger] list.take(i).contains(g[list[i] as int][k])
}

pub proof fn lemma_dfs_fuel(g: Seq<Seq<usize>>, rank: Seq<nat>, list: Seq<usize>, c: int, f1: nat, f2: nat)
    requires
        order_rank(g, rank),
        0 <= c < g.len(),
        f1 > rank[c],
        f2 > rank[c],
    ensures
        dfs(g, list, c, f1) == dfs(g, list, c, f2),
    decreases rank[c], g[c].len() + 1,
{
    lemma_visit_fuel(g, rank, list, c, 0, (f1 - 1) as nat, (f2 - 1) as nat);
}

proof fn lemma_visit_fuel(g: Seq<Seq<usize>>, rank: Seq<nat>, list: Seq<usize>, c: int, k: int, f1: nat, f2: nat)
    requires
        order_rank(g, rank),
        0 <= c < g.len(),
        0 <= k,
        f1 >= rank[c],
        f2 >= rank[c],
    ensures
        visit(g, list, c, k, f1) == visit(g, list, c, k, f2),
    decreases rank[c], g[c].len() - k,
{
    if k < g[c].len() {
        let d = g[c][k];
        assert(d < g.len() && rank[d as int] < rank[c]);
        if !list.contains(d) {
            lemma_dfs_fuel(g, rank, list, d as int, f1, f2);
        }
        let next = if list.contains(d) { list } else { dfs(g, list, d as int, f1) };
        lemma_visit_fuel(g, rank, next, c, k + 1, f1, f2);
    }
}

/// Whether `x` occurs in `v`.
fn contains_index(v: &Vec<usize>, x: usize) -> (r: bool)
    ensures
        r == v@.contains(x),
{
    let mut i: usize = 0;
    while i < v.len()
        invariant
            i <= v@.len(),
            forall|j: int| 0 <= j < i ==> v@[j] != x,
        decreases v@.len() - i,
    {
        if v[i] == x {
            return true;
        }
        i = i + 1;
    }
    false
}

/// The crates in an order where each comes after its dependencies.
pub trait GetPostOrder {
    /// The dependency graph can be walked: it is non-empty, acyclic, and
    /// names no missing crate.
    spec fn walkable(&self) -> bool;

    /// `list` and `cr_idx` are a valid point of the walk.
    spec fn can_visit(&self, list: Seq<usize>, cr_idx: usize) -> bool;

    fn get_post_order(&self) -> Vec<usize>
        requires
            self.walkable(),
    ;

    fn get_post_order_impl(&self, list: &mut Vec<usize>, cr_idx: usize)
        requires
            self.walkable(),
            self.can_visit(old(list)@, cr_idx),
    ;
}

impl GetPostOrder for Vec<ItemsCrate> {
    open spec fn walkable(&self) -> bool {
        self@.len() > 0 && has_order(item_deps(self@))
    }

    open spec fn can_visit(&self, list: Seq<usize>, cr_idx: usize) -> bool {
        &&& cr_idx < self@.len()
        &&& !list.contains(cr_idx)
        &&& deps_first(item_deps(self@), list)
    }

    fn get_post_order(&self) -> (r: Vec<usize>)
        ensures
            r@ == post_order(self@),
            deps_first(item_deps(self@), r@),
            r@.len() > 0 && r@.last() == 0,
    {
        let mut v: Vec<usize> = Vec::new();
        self.get_post_order_impl(&mut v, 0);
        v
    }

    fn get_post_order_impl(&self, list: &mut Vec<usize>, cr_idx: usize)
        ensures
            final(list)@ == dfs(item_deps(self@), old(list)@, cr_idx as int, an_order(item_deps(self@))[cr_idx as int] + 1),
            deps_first(item_deps(self@), final(list)@),
            final(list)@.len() > old(list)@.len(),
            final(list)@.take(old(list)@.len() as int) == old(list)@,
            final(list)@.last() == cr_idx,
            forall|i: int| old(list)@.len() <= i < final(list)@.len() ==>
                an_order(item_deps(self@))[#[trigger] final(list)@[i] as int] <= an_order(item_deps(self@))[cr_idx as int],
        decreases an_order(item_deps(self@))[cr_idx as int],
    {
        let ghost g = item_deps(self@);
        let ghost rank = an_order(g);
        let ghost start = list@;
        let ghost f = rank[cr_idx as int];
        assert(order_rank(g, rank));
        let deps = &self[cr_idx].dependencies;
        assert(deps@.map_values(|d: crate::resolve::ast_items::Dependency| d.cr_idx) == g[cr_idx as int]);
        let mut k: usize = 0;
        while k < deps.len()
            invariant
                g == item_deps(self@),
                rank == an_order(g),
                order_rank(g, rank),
                f == rank[cr_idx as int],
                self@.len() > 0,
                cr_idx < g.len(),
                deps@.len() == g[cr_idx as int].len(),
                forall|j: int| 0 <= j < deps@.len() ==> #[trigger] deps@[j].cr_idx == g[cr_idx as int][j],
                k <= deps@.len(),
                deps_first(g, list@),
                list@.len() >= start.len(),
                list@.take(start.len() as int) == start,
                !list@.contains(cr_idx),
                forall|i: int| start.len() <= i < list@.len() ==> rank[#[trigger] list@[i] as int] < rank[cr_idx as int],
                forall|j: int| 0 <= j < k ==> list@.contains(#[trigger] g[cr_idx as int][j]),
                visit(g, start, cr_idx as int, 0, f) == visit(g, list@, cr_idx as int, k as int, f),
            decreases deps@.len() - k,
        {
            let d = deps[k].cr_idx;
            assert(g[cr_idx as int][k as int] == d);
            assert(d < g.len() && rank[d as int] < rank[cr_idx as int]);
            if !contains_index(list, d) {
                let ghost before = list@;
                self.get_post_order_impl(list, d);
                proof {
                    lemma_dfs_fuel(g, rank, before, d as int, f, rank[d as int] + 1);
                    assert forall|i: int| start.len() <= i < list@.len() implies rank[#[trigger] list@[i] as int] < rank[cr_idx as int] by {
                        if i < before.len() {
                            assert(list@.take(before.len() as int)[i] == list@[i]);
                        }
                    }
                    assert(list@.take(start.len() as int) == start) by {
                        assert(list@.take(start.len() as int) == list@.take(before.len() as int).take(start.len() as int));
                    }
                    assert(!list@.contains(cr_idx)) by {
                        if list@.contains(cr_idx) {
                            let i = choose|i: int| 0 <= i < list@.len() && list@[i] == cr_idx;
                            if i < before.len() {
                                assert(list@.take(before.len() as int)[i] == list@[i]);
                                assert(before.contains(cr_idx));
                            }
                        }
                    }
                    assert forall|j: int| 0 <= j <= k implies list@.contains(#[trigger] g[cr_idx as int][j]) by {
                        if j < k {
                            let x = g[cr_idx as int][j];
                            let i = choose|i: int| 0 <= i < before.len() && before[i] == x;
                            assert(list@.take(before.len() as int)[i] == list@[i]);
                        } else {
                            assert(list@[list@.len() - 1] == d);
                        }
                    }
                }
            }
            k = k + 1;
        }
        proof {
            assert(visit(g, list@, cr_idx as int, k as int, f) == list@);
        }
        let ghost before = list@;
        list.push(cr_idx);
        proof {
            assert(before.push(cr_idx).take(before.len() as int) == before);
            assert(list@.take(start.len() as int) == start) by {
                assert(list@.take(start.len() as int) == list@.take(before.len() as int).take(start.len() as int));
            }
            assert(deps_first(g, list@)) by {
                assert forall|i: int, j: int| 0 <= i < list@.len() && 0 <= j < g[list@[i] as int].len()
                    implies #[trigger] list@.take(i).contains(g[list@[i] as int][j]) by {
                    if i < before.len() {
                        assert(list@.take(i) == before.take(i));
                        assert(before.take(i).contains(g[before[i] as int][j]));
                    } else {
                        assert(list@.take(i) == before);
                        assert(before.contains(g[cr_idx as int][j]));
                    }
                }
            }
        }
    }
}

} // verus!
