use vstd::prelude::*;

use crate::parse::ast_crate::AstCrate;
use crate::parse::find_path::{strs, lemma_strs_index, lemma_strs_concat, ItemPath};
use crate::resolve::paths::{Crate, CratePath};
use crate::resolve::util::{decimal, usize_to_string};

verus! {

/// The name of the module that the code generator adds to every crate.
pub open spec fn namespace() -> Seq<char> {
    "_engine"@
}

/// The dependencies of each crate: (crate index, alias) pairs.
pub open spec fn dep_graph(crates: Seq<AstCrate>) -> Seq<Seq<(usize, String)>> {
    crates.map_values(|c: AstCrate| c.deps@)
}

/// Every dependency names a crate, and `rank` decreases along every
/// dependency.
pub open spec fn valid_rank(g: Seq<Seq<(usize, String)>>, rank: Seq<nat>) -> bool {
    &&& rank.len() == g.len()
    &&& forall|i: int, k: int| 0 <= i < g.len() && 0 <= k < g[i].len() ==>
        (#[trigger] g[i][k]).0 < g.len() && rank[g[i][k].0 as int] < rank[i]
}

/// The dependency graph has no cycle and names no missing crate.
pub open spec fn acyclic(g: Seq<Seq<(usize, String)>>) -> bool {
    exists|rank: Seq<nat>| valid_rank(g, rank)
}

/// A ranking that witnesses `acyclic`.
pub open spec fn some_rank(g: Seq<Seq<(usize, String)>>) -> Seq<nat> {
    choose|rank: Seq<nat>| valid_rank(g, rank)
}

/// The number of bytes of the UTF-8 encoding of a string, as `str::len`
/// reports it.
pub open spec fn byte_len(s: Seq<char>) -> nat {
    (vstd::utf8::encode_utf8(s).len() as usize) as nat
}

/// The number of bytes of all segments of a path.
pub open spec fn path_bytes(p: Seq<Seq<char>>) -> nat
    decreases p.len(),
{
    if p.len() == 0 {
        0
    } else {
        path_bytes(p.drop_last()) + byte_len(p.last())
    }
}

/// The path from crate `s` to crate `e`, with `fuel` steps: `crate` for the
/// crate itself; else, over the dependencies of `s` in order, the alias of
/// `e` itself if `e` is a direct dependency, else the shortest (in bytes,
/// first one on ties) of `alias::_engine::<path of the dependency to e>`.
pub open spec fn best(g: Seq<Seq<(usize, String)>>, s: int, e: int, fuel: nat) -> Option<Seq<Seq<char>>>
    decreases fuel, 0int,
{
    if fuel == 0 || s < 0 || s >= g.len() {
        None
    } else if s == e {
        Some(seq!["crate"@])
    } else {
        scan(g, s, e, 0, None, (fuel - 1) as nat)
    }
}

/// The dependencies of `s` from position `k` on, with `min` the shortest
/// candidate so far and its length.
pub open spec fn scan(
    g: Seq<Seq<(usize, String)>>,
    s: int,
    e: int,
    k: int,
    min: Option<(nat, Seq<Seq<char>>)>,
    fuel: nat,
) -> Option<Seq<Seq<char>>>
    decreases fuel, if 0 <= s < g.len() && 0 <= k <= g[s].len() { g[s].len() - k + 1 } else { 0 },
{
    if s < 0 || s >= g.len() || k < 0 || k >= g[s].len() {
        match min {
            Some(m) => Some(m.1),
            None => None,
        }
    } else {
        let c = g[s][k].0 as int;
        let alias = g[s][k].1@;
        if c == e {
            Some(seq![alias])
        } else {
            match best(g, c, e, fuel) {
                Some(p) => {
                    let path = seq![alias, namespace()] + p;
                    let len = path_bytes(path);
                    if shorter(len, min) {
                        scan(g, s, e, k + 1, Some((len, path)), fuel)
                    } else {
                        scan(g, s, e, k + 1, min, fuel)
                    }
                },
                None => scan(g, s, e, k + 1, min, fuel),
            }
        }
    }
}

/// `len` beats the current shortest candidate (or there is none yet).
pub open spec fn shorter(len: nat, min: Option<(nat, Seq<Seq<char>>)>) -> bool {
    match min {
        Some(m) => len < m.0,
        None => true,
    }
}

/// The path by which crate `s` names crate `e` in generated code, if any.
pub open spec fn crate_path(crates: Seq<AstCrate>, s: int, e: int) -> Option<Seq<Seq<char>>> {
    let g = dep_graph(crates);
    best(g, s, e, some_rank(g)[s] + 1)
}

/// The paths of an optional path.
pub open spec fn opt_strs(o: Option<Vec<String>>) -> Option<Seq<Seq<char>>> {
    match o {
        Some(v) => Some(strs(v@)),
        None => None,
    }
}

/// The result of `best` does not depend on the fuel, once there is enough.
pub proof fn lemma_best_fuel(g: Seq<Seq<(usize, String)>>, rank: Seq<nat>, s: int, e: int, f1: nat, f2: nat)
    requires
        valid_rank(g, rank),
        0 <= s < g.len(),
        f1 > rank[s],
        f2 > rank[s],
    ensures
        best(g, s, e, f1) == best(g, s, e, f2),
    decreases rank[s], g[s].len() + 1,
{
    if s != e {
        lemma_scan_fuel(g, rank, s, e, 0, None, (f1 - 1) as nat, (f2 - 1) as nat);
    }
}

proof fn lemma_scan_fuel(
    g: Seq<Seq<(usize, String)>>,
    rank: Seq<nat>,
    s: int,
    e: int,
    k: int,
    min: Option<(nat, Seq<Seq<char>>)>,
    f1: nat,
    f2: nat,
)
    requires
        valid_rank(g, rank),
        0 <= s < g.len(),
        0 <= k,
        f1 >= rank[s],
        f2 >= rank[s],
    ensures
        scan(g, s, e, k, min, f1) == scan(g, s, e, k, min, f2),
    decreases rank[s], g[s].len() - k,
{
    if k < g[s].len() {
        let c = g[s][k].0 as int;
        assert(g[s][k].0 < g.len() && rank[c] < rank[s]);
        if c != e {
            lemma_best_fuel(g, rank, c, e, f1, f2);
            let alias = g[s][k].1@;
            match best(g, c, e, f1) {
                Some(p) => {
                    let path = seq![alias, namespace()] + p;
                    lemma_scan_fuel(g, rank, s, e, k + 1, Some((path_bytes(path), path)), f1, f2);
                    lemma_scan_fuel(g, rank, s, e, k + 1, min, f1, f2);
                },
                None => {
                    lemma_scan_fuel(g, rank, s, e, k + 1, min, f1, f2);
                },
            }
        }
    }
}

/// Every row of the table is either not filled yet or holds, for each
/// target crate, the path of `best` from that row's crate.
pub open spec fn memo_ok(paths: Seq<Vec<Option<Vec<String>>>>, g: Seq<Seq<(usize, String)>>, rank: Seq<nat>) -> bool {
    &&& paths.len() == g.len()
    &&& forall|i: int| 0 <= i < g.len() ==> #[trigger] paths[i]@.len() == 0 || paths[i]@.len() == g.len()
    &&& forall|i: int, j: int| 0 <= i < g.len() && paths[i]@.len() != 0 && 0 <= j < g.len()
        ==> opt_strs(#[trigger] paths[i]@[j]) == best(g, i, j, rank[i] + 1)
}

/// The mathematical form of the shortest candidate so far.
pub open spec fn min_view(m: Option<(u128, Vec<String>)>) -> Option<(nat, Seq<Seq<char>>)> {
    match m {
        Some(p) => Some((p.0 as nat, strs(p.1@))),
        None => None,
    }
}

proof fn lemma_bytes_bound(i: int, x: int, r: int)
    requires
        0 <= i < usize::MAX,
        0 <= x <= usize::MAX,
        0 <= r <= i * usize::MAX,
    ensures
        r + x <= (i + 1) * usize::MAX,
        (i + 1) * usize::MAX <= usize::MAX * usize::MAX,
        usize::MAX * usize::MAX < u128::MAX,
{
    assert((i + 1) * usize::MAX <= usize::MAX * usize::MAX) by (nonlinear_arith)
        requires
            0 <= i < usize::MAX,
    ;
    assert(usize::MAX * usize::MAX < u128::MAX) by (nonlinear_arith)
        requires
            usize::MAX <= 0xffff_ffff_ffff_ffff,
    ;
}

/// The number of bytes of all segments of `p`.
fn path_len(p: &Vec<String>) -> (r: u128)
    ensures
        r as nat == path_bytes(strs(p@)),
{
    proof {
        lemma_strs_index(p@);
    }
    let mut r: u128 = 0;
    let mut i: usize = 0;
    let n = p.len();
    while i < n
        invariant
            n == p@.len(),
            i <= p@.len(),
            r as nat == path_bytes(strs(p@).take(i as int)),
            r <= i * usize::MAX,
            strs(p@).len() == p@.len(),
            forall|j: int| 0 <= j < p@.len() ==> #[trigger] strs(p@)[j] == p@[j]@,
        decreases p@.len() - i,
    {
        let x = p[i].as_str().len();
        proof {
            lemma_bytes_bound(i as int, x as int, r as int);
            assert(strs(p@).take(i + 1).drop_last() == strs(p@).take(i as int));
        }
        r = r + x as u128;
        i = i + 1;
    }
    assert(strs(p@).take(p@.len() as int) == strs(p@));
    r
}

/// The path from crate `s` to crate `e`, filling the rows of the crates it
/// goes through.
fn find_path(
    paths: &mut Vec<Vec<Option<Vec<String>>>>,
    s: usize,
    e: usize,
    crates: &Vec<AstCrate>,
    Ghost(rank): Ghost<Seq<nat>>,
) -> (r: Option<Vec<String>>)
    requires
        valid_rank(dep_graph(crates@), rank),
        s < crates@.len(),
        e < crates@.len(),
        memo_ok(old(paths)@, dep_graph(crates@), rank),
    ensures
        memo_ok(final(paths)@, dep_graph(crates@), rank),
        opt_strs(r) == best(dep_graph(crates@), s as int, e as int, rank[s as int] + 1),
    decreases rank[s as int],
{
    let ghost g = dep_graph(crates@);
    if s == e {
        let r = vec![String::from_str("crate")];
        assert(strs(r@) =~= seq!["crate"@]);
        return Some(r);
    }
    let deps = &crates[s].deps;
    assert(deps@ == g[s as int]);
    let mut min_cr: Option<(u128, Vec<String>)> = None;
    let mut k: usize = 0;
    while k < deps.len()
        invariant
            g == dep_graph(crates@),
            valid_rank(g, rank),
            s < crates@.len(),
            e < crates@.len(),
            s != e,
            deps@ == g[s as int],
            k <= deps@.len(),
            memo_ok(paths@, g, rank),
            best(g, s as int, e as int, rank[s as int] + 1)
                == scan(g, s as int, e as int, k as int, min_view(min_cr), rank[s as int]),
        decreases deps@.len() - k,
    {
        let c = deps[k].0;
        assert(g[s as int][k as int].0 < g.len() && rank[c as int] < rank[s as int]);
        if c == e {
            let r = vec![deps[k].1.clone()];
            assert(strs(r@) =~= seq![deps@[k as int].1@]);
            return Some(r);
        }
        if paths[c].len() == 0 {
            let mut row: Vec<Option<Vec<String>>> = Vec::new();
            let mut j: usize = 0;
            while j < crates.len()
                invariant
                    g == dep_graph(crates@),
                    valid_rank(g, rank),
                    c < crates@.len(),
                    rank[c as int] < rank[s as int],
                    j <= crates@.len(),
                    row@.len() == j,
                    memo_ok(paths@, g, rank),
                    forall|i: int| 0 <= i < j ==> opt_strs(#[trigger] row@[i]) == best(g, c as int, i, rank[c as int] + 1),
                decreases crates@.len() - j,
            {
                let p = find_path(paths, c, j, crates, Ghost(rank));
                row.push(p);
                j = j + 1;
            }
            paths.set(c, row);
        }
        proof {
            lemma_best_fuel(g, rank, c as int, e as int, rank[s as int], rank[c as int] + 1);
        }
        match &paths[c][e] {
            Some(p) => {
                let mut path = vec![deps[k].1.clone(), String::from_str("_engine")];
                let mut rest = p.clone();
                assert(rest@ =~= p@);
                path.append(&mut rest);
                proof {
                    lemma_strs_concat(seq![deps@[k as int].1, path@[1]], p@);
                    assert(strs(seq![deps@[k as int].1, path@[1]]) =~= seq![deps@[k as int].1@, namespace()]);
                }
                let len = path_len(&path);
                let better = match &min_cr {
                    Some(m) => len < m.0,
                    None => true,
                };
                if better {
                    min_cr = Some((len, path));
                }
            },
            None => {},
        }
        k = k + 1;
    }
    match min_cr {
        Some(m) => Some(m.1),
        None => None,
    }
}

/// The paths from the entry crate (index 0) to every crate, and the table of
/// the rows that the search filled on the way.
fn search_from_entry(crates: &Vec<AstCrate>) -> (r: (Vec<Vec<Option<Vec<String>>>>, Vec<Option<Vec<String>>>))
    requires
        acyclic(dep_graph(crates@)),
    ensures
        memo_ok(r.0@, dep_graph(crates@), some_rank(dep_graph(crates@))),
        r.1@.len() == crates@.len(),
        forall|x: int| 0 <= x < crates@.len() ==> opt_strs(#[trigger] r.1@[x]) == crate_path(crates@, 0, x),
{
    let ghost g = dep_graph(crates@);
    let ghost rank = some_rank(g);
    let mut paths: Vec<Vec<Option<Vec<String>>>> = Vec::new();
    let mut i: usize = 0;
    while i < crates.len()
        invariant
            i <= crates@.len(),
            paths@.len() == i,
            forall|x: int| 0 <= x < i ==> #[trigger] paths@[x]@.len() == 0,
        decreases crates@.len() - i,
    {
        paths.push(Vec::new());
        i = i + 1;
    }
    assert(memo_ok(paths@, g, rank));
    let mut row: Vec<Option<Vec<String>>> = Vec::new();
    let mut j: usize = 0;
    while j < crates.len()
        invariant
            g == dep_graph(crates@),
            valid_rank(g, rank),
            rank == some_rank(g),
            j <= crates@.len(),
            row@.len() == j,
            memo_ok(paths@, g, rank),
            forall|x: int| 0 <= x < j ==> opt_strs(#[trigger] row@[x]) == best(g, 0, x, rank[0] + 1),
        decreases crates@.len() - j,
    {
        let p = find_path(&mut paths, 0, j, crates, Ghost(rank));
        row.push(p);
        j = j + 1;
    }
    (paths, row)
}

/// For each pair of crates, the path by which the first names the second in
/// generated code. The row of the entry crate (index 0) is complete; other
/// rows are filled only as far as the search needed them.
#[derive(Debug)]
pub struct CratePaths {
    paths: Vec<Vec<Option<Vec<String>>>>,
}

impl CratePaths {
    /// The path stored from crate `s` to crate `e`, if any.
    pub closed spec fn entry(&self, s: int, e: int) -> Option<Seq<Seq<char>>> {
        if 0 <= s < self.paths@.len() && 0 <= e < self.paths@[s]@.len() {
            opt_strs(self.paths@[s]@[e])
        } else {
            None
        }
    }

    /// Searches the dependency graph from the entry crate (index 0).
    pub fn new(crates: &Vec<AstCrate>) -> (r: Self)
        requires
            crates@.len() > 0,
            acyclic(dep_graph(crates@)),
        ensures
            forall|j: int| 0 <= j < crates@.len() ==> #[trigger] r.entry(0, j) == crate_path(crates@, 0, j),
            forall|i: int, j: int| #[trigger] r.entry(i, j) is Some ==> r.entry(i, j) == crate_path(crates@, i, j),
    {
        let (mut paths, row) = search_from_entry(crates);
        paths.set(0, row);
        let r = Self { paths };
        assert forall|i: int, j: int| #[trigger] r.entry(i, j) is Some implies r.entry(i, j) == crate_path(crates@, i, j) by {
            assert(0 <= i < r.paths@.len() && 0 <= j < r.paths@[i]@.len());
        }
        r
    }

    /// The stored path from crate `start_idx` to crate `end_idx`.
    pub fn get_path(&self, start_idx: usize, end_idx: usize) -> (r: Option<Vec<String>>)
        ensures
            opt_strs(r) == self.entry(start_idx as int, end_idx as int),
    {
        if start_idx < self.paths.len() && end_idx < self.paths[start_idx].len() {
            match &self.paths[start_idx][end_idx] {
                Some(p) => {
                    let r = p.clone();
                    assert(r@ =~= p@);
                    Some(r)
                },
                None => None,
            }
        } else {
            None
        }
    }

    /// `path` (without a leading `crate`) appended to the stored path from
    /// crate `start_idx` to crate `end_idx`.
    pub fn prepend_path(&self, start_idx: usize, end_idx: usize, path: &Vec<String>) -> (r: Option<Vec<String>>)
        ensures
            match self.entry(start_idx as int, end_idx as int) {
                Some(pre) => opt_strs(r) == Some(pre + strs(path@).skip(
                    if path@.len() > 0 && path@[0]@ == "crate"@ { 1int } else { 0int })),
                None => r is None,
            },
    {
        proof {
            lemma_strs_index(path@);
        }
        let skip: usize = if path.len() > 0 && path[0] == String::from_str("crate") { 1 } else { 0 };
        match self.get_path(start_idx, end_idx) {
            Some(pre) => {
                let mut r = pre;
                let mut i = skip;
                let ghost pre_v = r@;
                while i < path.len()
                    invariant
                        skip <= i <= path@.len(),
                        r@ == pre_v + path@.subrange(skip as int, i as int),
                    decreases path@.len() - i,
                {
                    r.push(path[i].clone());
                    assert(pre_v + path@.subrange(skip as int, i + 1) == (pre_v + path@.subrange(skip as int, i as int)).push(path@[i as int]));
                    i = i + 1;
                }
                proof {
                    assert(path@.subrange(skip as int, path@.len() as int) == path@.skip(skip as int));
                    lemma_strs_concat(pre_v, path@.skip(skip as int));
                    assert(strs(path@.skip(skip as int)) =~= strs(path@).skip(skip as int));
                }
                Some(r)
            },
            None => None,
        }
    }
}

} // verus!

verus! {

/// The candidate path through the `k`-th dependency of `s`: its alias, the
/// namespace module, then that dependency's own path to `e`.
pub open spec fn candidate(g: Seq<Seq<(usize, String)>>, s: int, k: int, q: Seq<Seq<char>>) -> Seq<Seq<char>> {
    seq![g[s][k].1@, namespace()] + q
}

proof fn lemma_scan_min(
    g: Seq<Seq<(usize, String)>>,
    rank: Seq<nat>,
    s: int,
    e: int,
    k0: int,
    min: Option<(nat, Seq<Seq<char>>)>,
    f: nat,
)
    requires
        valid_rank(g, rank),
        0 <= s < g.len(),
        0 <= k0 <= g[s].len(),
        forall|j: int| 0 <= j < g[s].len() ==> (#[trigger] g[s][j]).0 != e,
        min matches Some(m) ==> m.0 == path_bytes(m.1),
    ensures
        ({
            let r = scan(g, s, e, k0, min, f);
            &&& min matches Some(m) ==> (r matches Some(p) && path_bytes(p) <= m.0)
            &&& forall|j: int| k0 <= j < g[s].len() && (#[trigger] best(g, g[s][j].0 as int, e, f)) is Some ==>
                (r matches Some(p) && path_bytes(p) <= path_bytes(candidate(g, s, j, best(g, g[s][j].0 as int, e, f)->0)))
        }),
    decreases g[s].len() - k0,
{
    if k0 < g[s].len() {
        let c = g[s][k0].0 as int;
        let alias = g[s][k0].1@;
        assert(g[s][k0].0 != e);
        match best(g, c, e, f) {
            Some(q) => {
                let path = seq![alias, namespace()] + q;
                let len = path_bytes(path);
                let next = if shorter(len, min) { Some((len, path)) } else { min };
                lemma_scan_min(g, rank, s, e, k0 + 1, next, f);
                assert(candidate(g, s, k0, q) == path);
            },
            None => {
                lemma_scan_min(g, rank, s, e, k0 + 1, min, f);
            },
        }
    }
}

/// When `e` is not a direct dependency of `s`, the path from `s` to `e` is
/// no longer (in bytes) than the path through any dependency of `s` that
/// has a path to `e`.
pub proof fn law_crate_path_shortest(crates: Seq<AstCrate>, s: int, e: int, k: int)
    requires
        acyclic(dep_graph(crates)),
        0 <= s < crates.len(),
        0 <= e < crates.len(),
        s != e,
        forall|j: int| 0 <= j < crates[s].deps@.len() ==> (#[trigger] crates[s].deps@[j]).0 != e,
        0 <= k < crates[s].deps@.len(),
        crate_path(crates, crates[s].deps@[k].0 as int, e) is Some,
    ensures
        crate_path(crates, s, e) matches Some(p) && path_bytes(p) <= path_bytes(
            seq![crates[s].deps@[k].1@, namespace()] + crate_path(crates, crates[s].deps@[k].0 as int, e)->0),
{
    let g = dep_graph(crates);
    let rank = some_rank(g);
    assert(valid_rank(g, rank));
    assert(g[s] == crates[s].deps@);
    let c = g[s][k].0 as int;
    assert(g[s][k].0 < g.len() && rank[c] < rank[s]);
    lemma_best_fuel(g, rank, c, e, rank[s], rank[c] + 1);
    lemma_scan_min(g, rank, s, e, 0, None, rank[s]);
    assert(forall|j: int| 0 <= j < g[s].len() ==> (#[trigger] g[s][j]).0 != e);
}

/// A crate names itself `crate`.
pub proof fn law_crate_path_self(crates: Seq<AstCrate>, s: int)
    requires
        acyclic(dep_graph(crates)),
        0 <= s < crates.len(),
    ensures
        crate_path(crates, s, s) == Some(seq!["crate"@]),
{
}

proof fn lemma_scan_direct(g: Seq<Seq<(usize, String)>>, s: int, e: int, k0: int, k: int, min: Option<(nat, Seq<Seq<char>>)>, f: nat)
    requires
        0 <= s < g.len(),
        0 <= k0 <= k < g[s].len(),
        g[s][k].0 == e,
        forall|j: int| k0 <= j < k ==> (#[trigger] g[s][j]).0 != e,
    ensures
        scan(g, s, e, k0, min, f) == Some(seq![g[s][k].1@]),
    decreases k - k0,
{
    if k0 < k {
        let c = g[s][k0].0 as int;
        let alias = g[s][k0].1@;
        match best(g, c, e, f) {
            Some(q) => {
                let path = seq![alias, namespace()] + q;
                let len = path_bytes(path);
                lemma_scan_direct(g, s, e, k0 + 1, k, if shorter(len, min) { Some((len, path)) } else { min }, f);
            },
            None => lemma_scan_direct(g, s, e, k0 + 1, k, min, f),
        }
    }
}

/// A direct dependency is named by its alias (the first one, if it is
/// listed more than once).
pub proof fn law_crate_path_direct(crates: Seq<AstCrate>, s: int, k: int)
    requires
        acyclic(dep_graph(crates)),
        0 <= s < crates.len(),
        0 <= k < crates[s].deps@.len(),
        crates[s].deps@[k].0 != s,
        forall|j: int| 0 <= j < k ==> (#[trigger] crates[s].deps@[j]).0 != crates[s].deps@[k].0,
    ensures
        crate_path(crates, s, crates[s].deps@[k].0 as int) == Some(seq![crates[s].deps@[k].1@]),
{
    let g = dep_graph(crates);
    let rank = some_rank(g);
    assert(g[s] == crates[s].deps@);
    let e = g[s][k].0 as int;
    lemma_scan_direct(g, s, e, 0, k, None, rank[s]);
    assert(forall|j: int| 0 <= j < k ==> (#[trigger] g[s][j]).0 != e);
}

} // verus!

verus! {

/// The slot of each named crate in a table of crate indices.
pub open spec fn crate_slot(cr: Crate) -> int {
    match cr {
        Crate::Main => 0,
        Crate::Engine => 1,
        Crate::Macros => 2,
    }
}

fn slot_of(cr: Crate) -> (r: usize)
    ensures
        r == crate_slot(cr),
{
    match cr {
        Crate::Main => 0,
        Crate::Engine => 1,
        Crate::Macros => 2,
    }
}

/// A crate index that names no crate.
#[derive(Clone, Copy, Debug, PartialEq, Eq, Structural)]
pub enum CratesError {
    NoCrate(usize),
}

/// The message that reports a missing path between two crates.
pub open spec fn no_path_msg(start_idx: nat, end_idx: nat) -> Seq<char> {
    "No path from crate "@ + decimal(start_idx) + " to crate "@ + decimal(end_idx)
}

/// All crates, the indices of the named ones, and the paths by which each
/// crate names the others in generated code (the row of the main crate holds
/// the paths from the entry crate).
#[derive(Debug)]
pub struct Crates {
    paths: Vec<Vec<Option<Vec<String>>>>,
    crate_idxs: [usize; 3],
    crates: Vec<AstCrate>,
}

impl Crates {
    /// The stored path from crate `s` to crate `e`, if any.
    pub closed spec fn entry(&self, s: int, e: int) -> Option<Seq<Seq<char>>> {
        if 0 <= s < self.paths@.len() && 0 <= e < self.paths@[s]@.len() {
            opt_strs(self.paths@[s]@[e])
        } else {
            None
        }
    }

    /// Whether a row of paths is stored for crate `s`.
    pub closed spec fn has_row(&self, s: int) -> bool {
        0 <= s < self.paths@.len() && self.paths@[s]@.len() > 0
    }

    /// The number of rows of paths.
    pub closed spec fn row_count(&self) -> nat {
        self.paths@.len()
    }

    /// The crates.
    pub closed spec fn crate_list(&self) -> Seq<AstCrate> {
        self.crates@
    }

    /// The index of a named crate.
    pub closed spec fn index_of(&self, cr: Crate) -> usize {
        self.crate_idxs@[crate_slot(cr)]
    }

    /// Searches the dependency graph from the entry crate (index 0) and
    /// stores the paths found as the row of the main crate; fails when the
    /// main crate's index names no crate.
    pub fn new(crates: Vec<AstCrate>, crate_idxs: [usize; 3]) -> (r: Result<Self, CratesError>)
        requires
            acyclic(dep_graph(crates@)),
        ensures
            crate_idxs@[0] >= crates@.len() ==> r == Err::<Self, CratesError>(CratesError::NoCrate(crate_idxs@[0])),
            crate_idxs@[0] < crates@.len() ==> (r matches Ok(c) && {
                &&& c.crate_list() == crates@
                &&& forall|cr: Crate| #[trigger] c.index_of(cr) == crate_idxs@[crate_slot(cr)]
                &&& c.has_row(crate_idxs@[0] as int)
                &&& forall|j: int| 0 <= j < crates@.len() ==> #[trigger] c.entry(crate_idxs@[0] as int, j) == crate_path(crates@, 0, j)
                &&& forall|i: int, j: int| i != crate_idxs@[0] && #[trigger] c.entry(i, j) is Some ==> c.entry(i, j) == crate_path(crates@, i, j)
            }),
    {
        let (mut paths, row) = search_from_entry(&crates);
        let main = crate_idxs[0];
        if main >= paths.len() {
            return Err(CratesError::NoCrate(main));
        }
        assert(row@.len() > 0 || crates@.len() == 0);
        paths.set(main, row);
        let r = Self { paths, crate_idxs, crates };
        assert forall|i: int, j: int| i != crate_idxs@[0] && #[trigger] r.entry(i, j) is Some implies r.entry(i, j) == crate_path(crates@, i, j) by {
            assert(0 <= i < r.paths@.len() && 0 <= j < r.paths@[i]@.len());
        }
        assert forall|cr: Crate| #[trigger] r.index_of(cr) == crate_idxs@[crate_slot(cr)] by {}
        Ok(r)
    }

    /// The paths from crate `cr_idx` to every crate not in `block_crates`
    /// that it can name, with the target's index, in index order.
    pub fn get_crate_paths<const N: usize>(&self, cr_idx: usize, block_crates: [usize; N]) -> (r: Result<Vec<(usize, Vec<String>)>, CratesError>)
        ensures
            cr_idx >= self.row_count() ==> r == Err::<Vec<(usize, Vec<String>)>, CratesError>(CratesError::NoCrate(cr_idx)),
            cr_idx < self.row_count() ==> (r matches Ok(v) && {
                &&& forall|k: int| 0 <= k < v@.len() ==> {
                    &&& !block_crates@.contains(#[trigger] v@[k].0)
                    &&& self.entry(cr_idx as int, v@[k].0 as int) == Some(strs(v@[k].1@))
                }
                &&& forall|k: int, l: int| 0 <= k < l < v@.len() ==> v@[k].0 < v@[l].0
                &&& forall|j: usize| #![trigger self.entry(cr_idx as int, j as int)]
                    !block_crates@.contains(j) && self.entry(cr_idx as int, j as int) is Some
                        ==> exists|k: int| 0 <= k < v@.len() && v@[k].0 == j
            }),
    {
        if cr_idx >= self.paths.len() {
            return Err(CratesError::NoCrate(cr_idx));
        }
        let row = &self.paths[cr_idx];
        let mut out: Vec<(usize, Vec<String>)> = Vec::new();
        let mut i: usize = 0;
        while i < row.len()
            invariant
                cr_idx < self.paths@.len(),
                *row == self.paths@[cr_idx as int],
                i <= row@.len(),
                forall|k: int| 0 <= k < out@.len() ==> {
                    &&& !block_crates@.contains(#[trigger] out@[k].0)
                    &&& out@[k].0 < i
                    &&& self.entry(cr_idx as int, out@[k].0 as int) == Some(strs(out@[k].1@))
                },
                forall|k: int, l: int| 0 <= k < l < out@.len() ==> out@[k].0 < out@[l].0,
                forall|j: usize| #![trigger self.entry(cr_idx as int, j as int)]
                    j < i && !block_crates@.contains(j) && self.entry(cr_idx as int, j as int) is Some
                        ==> exists|k: int| 0 <= k < out@.len() && out@[k].0 == j,
            decreases row@.len() - i,
        {
            let mut blocked = false;
            let mut b: usize = 0;
            while b < N
                invariant
                    b <= N,
                    block_crates@.len() == N,
                    blocked == exists|x: int| 0 <= x < b && block_crates@[x] == i,
                decreases N - b,
            {
                if block_crates[b] == i {
                    blocked = true;
                }
                b = b + 1;
            }
            assert(blocked == block_crates@.contains(i));
            let ghost before = out@;
            if !blocked {
                match &row[i] {
                    Some(p) => {
                        let c = p.clone();
                        assert(c@ =~= p@);
                        out.push((i, c));
                        assert(out@.last().0 == i);
                    },
                    None => {},
                }
            }
            assert forall|j: usize| #![trigger self.entry(cr_idx as int, j as int)]
                j < i + 1 && !block_crates@.contains(j) && self.entry(cr_idx as int, j as int) is Some
                    implies exists|k: int| 0 <= k < out@.len() && out@[k].0 == j by {
                if j == i {
                    assert(out@[out@.len() - 1].0 == i);
                } else {
                    let k = choose|k: int| 0 <= k < before.len() && before[k].0 == j;
                    assert(out@[k].0 == j);
                }
            }
            i = i + 1;
        }
        Ok(out)
    }

    /// The stored path from crate `start_idx` to crate `end_idx`.
    pub fn get_crate_path(&self, start_idx: usize, end_idx: usize) -> (r: Option<Vec<String>>)
        ensures
            opt_strs(r) == self.entry(start_idx as int, end_idx as int),
    {
        if start_idx < self.paths.len() && end_idx < self.paths[start_idx].len() {
            match &self.paths[start_idx][end_idx] {
                Some(p) => {
                    let r = p.clone();
                    assert(r@ =~= p@);
                    Some(r)
                },
                None => None,
            }
        } else {
            None
        }
    }

    /// The stored path from crate `start_idx` to a named crate.
    pub fn get_named_crate_path(&self, start_idx: usize, cr: Crate) -> (r: Option<Vec<String>>)
        ensures
            opt_strs(r) == self.entry(start_idx as int, self.index_of(cr) as int),
    {
        self.get_crate_path(start_idx, self.get_crate_index(cr))
    }

    /// The path by which crate `start_idx` names the item `path`: the path
    /// to the item's crate, then the item's path without a leading `crate`.
    pub fn get_item_path(&self, start_idx: usize, path: &ItemPath) -> (r: Result<Vec<String>, String>)
        ensures
            match self.entry(start_idx as int, path.cr_idx as int) {
                Some(pre) => r matches Ok(v) && strs(v@) == pre + strs(path.path@).skip(
                    if path.path@.len() > 0 && path.path@[0]@ == "crate"@ { 1int } else { 0int }),
                None => r matches Err(m) && m@ == no_path_msg(start_idx as nat, path.cr_idx as nat),
            },
    {
        proof {
            lemma_strs_index(path.path@);
        }
        let skip: usize = if path.path.len() > 0 && path.path[0] == String::from_str("crate") { 1 } else { 0 };
        match self.get_crate_path(start_idx, path.cr_idx) {
            Some(pre) => {
                let mut r = pre;
                let mut i = skip;
                let ghost pre_v = r@;
                while i < path.path.len()
                    invariant
                        skip <= i <= path.path@.len(),
                        r@ == pre_v + path.path@.subrange(skip as int, i as int),
                    decreases path.path@.len() - i,
                {
                    r.push(path.path[i].clone());
                    assert(pre_v + path.path@.subrange(skip as int, i + 1) == (pre_v + path.path@.subrange(skip as int, i as int)).push(path.path@[i as int]));
                    i = i + 1;
                }
                proof {
                    assert(path.path@.subrange(skip as int, path.path@.len() as int) == path.path@.skip(skip as int));
                    lemma_strs_concat(pre_v, path.path@.skip(skip as int));
                    assert(strs(path.path@.skip(skip as int)) =~= strs(path.path@).skip(skip as int));
                }
                Ok(r)
            },
            None => {
                let mut m = String::from_str("No path from crate ");
                m.append(usize_to_string(start_idx).as_str());
                m.append(" to crate ");
                m.append(usize_to_string(path.cr_idx).as_str());
                Err(m)
            },
        }
    }

    /// The path by which crate `start_idx` names a fixed item of a named
    /// crate.
    pub fn get_path(&self, start_idx: usize, item: &CratePath) -> (r: Result<Vec<String>, String>)
        ensures
            match self.entry(start_idx as int, self.index_of(item.cr) as int) {
                Some(pre) => r matches Ok(v) && strs(v@) == pre + strs(item.path@).push(item.ident@),
                None => r matches Err(m) && m@ == no_path_msg(start_idx as nat, self.index_of(item.cr) as nat),
            },
    {
        let full = item.full_path();
        let p = ItemPath { cr_idx: self.get_crate_index(item.cr), path: full };
        proof {
            lemma_strs_index(full@);
            lemma_strs_index(item.path@);
            assert(strs(full@).skip(1) =~= strs(item.path@).push(item.ident@));
        }
        self.get_item_path(start_idx, &p)
    }

    /// All crates.
    pub fn get_crates(&self) -> (r: &Vec<AstCrate>)
        ensures
            r@ == self.crate_list(),
    {
        &self.crates
    }

    /// A named crate.
    pub fn get_crate(&self, cr: Crate) -> (r: Result<&AstCrate, CratesError>)
        ensures
            self.index_of(cr) < self.crate_list().len() ==> (r matches Ok(c) && *c == self.crate_list()[self.index_of(cr) as int]),
            self.index_of(cr) >= self.crate_list().len() ==> r == Err::<&AstCrate, CratesError>(CratesError::NoCrate(self.index_of(cr))),
    {
        let i = self.get_crate_index(cr);
        if i < self.crates.len() {
            Ok(&self.crates[i])
        } else {
            Err(CratesError::NoCrate(i))
        }
    }

    /// A named crate, to change.
    pub fn get_crate_mut(&mut self, cr: Crate) -> (r: Result<&mut AstCrate, CratesError>)
        ensures
            old(self).index_of(cr) < old(self).crate_list().len() ==> (r matches Ok(c) && *c == old(self).crate_list()[old(self).index_of(cr) as int]
                && final(self).crate_list() == old(self).crate_list().update(old(self).index_of(cr) as int, *final(c))),
            old(self).index_of(cr) >= old(self).crate_list().len() ==> (r is Err && r->Err_0 == CratesError::NoCrate(old(self).index_of(cr)) && *final(self) == *old(self)),
            final(self).row_count() == old(self).row_count(),
            forall|i: int, j: int| #[trigger] final(self).entry(i, j) == old(self).entry(i, j),
            forall|c: Crate| #[trigger] final(self).index_of(c) == old(self).index_of(c),
    {
        let i = self.get_crate_index(cr);
        if i < self.crates.len() {
            Ok(&mut self.crates[i])
        } else {
            Err(CratesError::NoCrate(i))
        }
    }

    /// The index of a named crate.
    pub fn get_crate_index(&self, cr: Crate) -> (r: usize)
        ensures
            r == self.index_of(cr),
    {
        self.crate_idxs[slot_of(cr)]
    }

    /// The crate with index `cr_idx`, if any.
    pub fn get(&self, cr_idx: usize) -> (r: Option<&AstCrate>)
        ensures
            cr_idx < self.crate_list().len() ==> (r matches Some(c) && *c == self.crate_list()[cr_idx as int]),
            cr_idx >= self.crate_list().len() ==> r is None,
    {
        if cr_idx < self.crates.len() {
            Some(&self.crates[cr_idx])
        } else {
            None
        }
    }

    /// The crate with index `cr_idx`, if any, to change.
    pub fn get_mut(&mut self, cr_idx: usize) -> (r: Option<&mut AstCrate>)
        ensures
            cr_idx < old(self).crate_list().len() ==> (r matches Some(c) && *c == old(self).crate_list()[cr_idx as int]
                && final(self).crate_list() == old(self).crate_list().update(cr_idx as int, *final(c))),
            cr_idx >= old(self).crate_list().len() ==> (r is None && *final(self) == *old(self)),
            final(self).row_count() == old(self).row_count(),
            forall|i: int, j: int| #[trigger] final(self).entry(i, j) == old(self).entry(i, j),
            forall|c: Crate| #[trigger] final(self).index_of(c) == old(self).index_of(c),
    {
        if cr_idx < self.crates.len() {
            Some(&mut self.crates[cr_idx])
        } else {
            None
        }
    }

    /// The indices of the crates not in `block_crates`, in order.
    pub fn iter_except<const N: usize>(&self, block_crates: [usize; N]) -> (r: Vec<usize>)
        ensures
            forall|k: int| 0 <= k < r@.len() ==> #[trigger] r@[k] < self.crate_list().len() && !block_crates@.contains(r@[k]),
            forall|k: int, l: int| 0 <= k < l < r@.len() ==> r@[k] < r@[l],
            forall|j: usize| j < self.crate_list().len() && !block_crates@.contains(j) ==> #[trigger] r@.contains(j),
    {
        let mut out: Vec<usize> = Vec::new();
        let mut i: usize = 0;
        while i < self.crates.len()
            invariant
                i <= self.crates@.len(),
                forall|k: int| 0 <= k < out@.len() ==> #[trigger] out@[k] < i && !block_crates@.contains(out@[k]),
                forall|k: int, l: int| 0 <= k < l < out@.len() ==> out@[k] < out@[l],
                forall|j: usize| j < i && !block_crates@.contains(j) ==> #[trigger] out@.contains(j),
            decreases self.crates@.len() - i,
        {
            let mut blocked = false;
            let mut b: usize = 0;
            while b < N
                invariant
                    b <= N,
                    block_crates@.len() == N,
                    blocked == exists|x: int| 0 <= x < b && block_crates@[x] == i,
                decreases N - b,
            {
                if block_crates[b] == i {
                    blocked = true;
                }
                b = b + 1;
            }
            assert(blocked == block_crates@.contains(i));
            let ghost before = out@;
            if !blocked {
                out.push(i);
                assert(out@[out@.len() - 1] == i);
            }
            assert forall|j: usize| j < i + 1 && !block_crates@.contains(j) implies #[trigger] out@.contains(j) by {
                if j == i {
                    assert(out@[out@.len() - 1] == i);
                } else {
                    assert(before.contains(j));
                    let k = choose|k: int| 0 <= k < before.len() && before[k] == j;
                    assert(out@[k] == j);
                }
            }
            i = i + 1;
        }
        out
    }
}

} // verus!

verus! {

/// Every dependency of crate `i` names a crate already ranked.
pub open spec fn deps_ready(g: Seq<Seq<(usize, String)>>, done: Seq<bool>, i: int) -> bool {
    forall|k: int| 0 <= k < g[i].len() ==> (#[trigger] g[i][k]).0 < g.len() && done[g[i][k].0 as int]
}

/// The ranks given so far respect every dependency of a ranked crate.
pub open spec fn partial_rank(g: Seq<Seq<(usize, String)>>, done: Seq<bool>, rank: Seq<nat>, cnt: nat) -> bool {
    &&& done.len() == g.len()
    &&& rank.len() == g.len()
    &&& forall|i: int| 0 <= i < g.len() && #[trigger] done[i] ==> rank[i] < cnt
    &&& forall|i: int, k: int| 0 <= i < g.len() && done[i] && 0 <= k < g[i].len() ==>
        (#[trigger] g[i][k]).0 < g.len() && done[g[i][k].0 as int] && rank[g[i][k].0 as int] < rank[i]
}

/// With a valid ranking, no crate that waits on an unranked or missing
/// dependency (when every unranked crate does) has a rank below `m`.
proof fn lemma_stuck_ranks(g: Seq<Seq<(usize, String)>>, done: Seq<bool>, rank: Seq<nat>, m: nat)
    requires
        valid_rank(g, rank),
        done.len() == g.len(),
        forall|i: int| 0 <= i < g.len() && !(#[trigger] done[i]) ==> !deps_ready(g, done, i),
    ensures
        forall|i: int| 0 <= i < g.len() && !(#[trigger] done[i]) ==> rank[i] >= m,
    decreases m,
{
    if m > 0 {
        lemma_stuck_ranks(g, done, rank, (m - 1) as nat);
        assert forall|i: int| 0 <= i < g.len() && !(#[trigger] done[i]) implies rank[i] >= m by {
            assert(!deps_ready(g, done, i));
            let k = choose|k: int| !(0 <= k < g[i].len() ==> (#[trigger] g[i][k]).0 < g.len() && done[g[i][k].0 as int]);
            let d = g[i][k].0 as int;
            assert(d < g.len() && rank[d] < rank[i]);
            assert(!done[d]);
        }
    }
}

proof fn lemma_no_trues(s: Seq<bool>, k: int)
    requires
        0 <= k <= s.len(),
        forall|x: int| 0 <= x < s.len() ==> !#[trigger] s[x],
    ensures
        trues(s.take(k)) == 0,
    decreases k,
{
    if k > 0 {
        lemma_no_trues(s, k - 1);
        assert(s.take(k).drop_last() == s.take(k - 1));
    }
}

/// The number of entries that are set.
pub open spec fn trues(s: Seq<bool>) -> nat
    decreases s.len(),
{
    if s.len() == 0 {
        0
    } else {
        trues(s.drop_last()) + if s.last() { 1nat } else { 0nat }
    }
}

proof fn lemma_trues(s: Seq<bool>, i: int)
    requires
        0 <= i < s.len(),
        !s[i],
    ensures
        trues(s) < s.len(),
        trues(s.update(i, true)) == trues(s) + 1,
    decreases s.len(),
{
    let t = s.update(i, true);
    lemma_trues_le(s.drop_last());
    if i < s.len() - 1 {
        lemma_trues(s.drop_last(), i);
        assert(t.drop_last() == s.drop_last().update(i, true));
    } else {
        assert(t.drop_last() == s.drop_last());
    }
}

proof fn lemma_trues_le(s: Seq<bool>)
    ensures
        trues(s) <= s.len(),
    decreases s.len(),
{
    if s.len() > 0 {
        lemma_trues_le(s.drop_last());
    }
}

fn ready(crates: &Vec<AstCrate>, done: &Vec<bool>, i: usize) -> (r: bool)
    requires
        i < crates@.len(),
        done@.len() == crates@.len(),
    ensures
        r == deps_ready(dep_graph(crates@), done@, i as int),
{
    let ghost g = dep_graph(crates@);
    let deps = &crates[i].deps;
    assert(deps@ == g[i as int]);
    let mut k: usize = 0;
    while k < deps.len()
        invariant
            g == dep_graph(crates@),
            *deps == crates@[i as int].deps,
            deps@ == g[i as int],
            done@.len() == crates@.len(),
            g.len() == crates@.len(),
            k <= deps@.len(),
            forall|j: int| 0 <= j < k ==> (#[trigger] g[i as int][j]).0 < g.len() && done@[g[i as int][j].0 as int],
        decreases deps@.len() - k,
    {
        let d = deps[k].0;
        if d >= done.len() || !done[d] {
            assert(!((g[i as int][k as int]).0 < g.len() && done@[g[i as int][k as int].0 as int]));
            return false;
        }
        k = k + 1;
    }
    true
}

/// Whether the dependency graph of the crates names only crates that exist
/// and has no cycle, so that the crates can be ranked with every dependency
/// below the crate that depends on it.
pub fn is_acyclic(crates: &Vec<AstCrate>) -> (r: bool)
    ensures
        r == acyclic(dep_graph(crates@)),
{
    let ghost g = dep_graph(crates@);
    let n = crates.len();
    let mut done: Vec<bool> = Vec::new();
    let mut j: usize = 0;
    while j < n
        invariant
            n == crates@.len(),
            j <= n,
            done@.len() == j,
            forall|x: int| 0 <= x < j ==> !(#[trigger] done@[x]),
        decreases n - j,
    {
        done.push(false);
        j = j + 1;
    }
    let ghost mut rank: Seq<nat> = Seq::new(n as nat, |x: int| 0nat);
    proof {
        assert forall|k: int| 0 <= k <= done@.len() implies trues(#[trigger] done@.take(k)) == 0 by {
            lemma_no_trues(done@, k);
        }
        assert(done@.take(n as int) == done@);
    }
    let ghost mut cnt: nat = 0;
    let mut ranked: usize = 0;
    loop
        invariant
            g == dep_graph(crates@),
            g.len() == n,
            n == crates@.len(),
            partial_rank(g, done@, rank, cnt),
            ranked <= n,
            ranked == cnt,
            ranked == trues(done@),
        ensures
            partial_rank(g, done@, rank, cnt),
            forall|i: int| 0 <= i < g.len() && !(#[trigger] done@[i]) ==> !deps_ready(g, done@, i),
        decreases n - ranked,
    {
        let mut progress = false;
        let mut i: usize = 0;
        let ghost start = ranked;
        while i < n
            invariant
                g == dep_graph(crates@),
                g.len() == n,
                n == crates@.len(),
                partial_rank(g, done@, rank, cnt),
                ranked == cnt,
                start <= ranked <= n,
                i <= n,
                progress == (ranked > start),
                !progress ==> forall|x: int| 0 <= x < i && !(#[trigger] done@[x]) ==> !deps_ready(g, done@, x),
                ranked <= start + i,
                ranked == trues(done@),
                done@.len() == n,
            decreases n - i,
        {
            if !done[i] {
                let ok = ready(crates, &done, i);
                if ok {
                    let ghost before = done@;
                    proof {
                        lemma_trues(done@, i as int);
                    }
                    done.set(i, true);
                    proof {
                        rank = rank.update(i as int, cnt);
                        cnt = cnt + 1;
                        assert forall|x: int, k: int| 0 <= x < g.len() && done@[x] && 0 <= k < g[x].len() implies
                            (#[trigger] g[x][k]).0 < g.len() && done@[g[x][k].0 as int] && rank[g[x][k].0 as int] < rank[x] by {
                            if x != i {
                                assert(before[x]);
                            } else {
                                assert(before[g[x][k].0 as int]);
                            }
                        }
                    }
                    ranked = ranked + 1;
                    progress = true;
                }
            }
            i = i + 1;
        }
        if !progress {
            break;
        }
    }
    let mut all = true;
    let mut x: usize = 0;
    while x < n
        invariant
            n == done@.len(),
            x <= n,
            all == forall|y: int| 0 <= y < x ==> #[trigger] done@[y],
        decreases n - x,
    {
        if !done[x] {
            all = false;
        }
        x = x + 1;
    }
    proof {
        if all {
            assert(valid_rank(g, rank));
        } else {
            let v = choose|y: int| 0 <= y < n && !(#[trigger] done@[y]);
            if acyclic(g) {
                let rk = some_rank(g);
                lemma_stuck_ranks(g, done@, rk, rk[v] + 1);
            }
        }
    }
    all
}

} // verus!
