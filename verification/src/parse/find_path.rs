use vstd::prelude::*;

use crate::parse::ast_crate::{AstCrate, AstMod};
use crate::parse::symbol::Symbol;
use crate::resolve::util::{decimal, usize_to_string};

verus! {

/// The characters of each string of a list.
pub open spec fn strs(v: Seq<String>) -> Seq<Seq<char>> {
    v.map_values(|s: String| s@)
}

/// The parts joined with `sep` between each two of them.
pub open spec fn join(parts: Seq<Seq<char>>, sep: Seq<char>) -> Seq<char>
    decreases parts.len(),
{
    if parts.len() == 0 {
        Seq::empty()
    } else if parts.len() == 1 {
        parts[0]
    } else {
        join(parts.drop_last(), sep) + sep + parts.last()
    }
}

/// The path separator of Rust paths.
pub open spec fn path_sep() -> Seq<char> {
    seq![':', ':']
}

/// Joins the strings of `parts` with `sep` between each two of them.
pub fn join_strings(parts: &Vec<String>, sep: &str) -> (r: String)
    ensures
        r@ == join(strs(parts@), sep@),
{
    let mut r = String::new();
    let mut i: usize = 0;
    while i < parts.len()
        invariant
            i <= parts.len(),
            r@ == join(strs(parts@.take(i as int)), sep@),
        decreases parts.len() - i,
    {
        let ghost before = strs(parts@.take(i as int));
        assert(strs(parts@.take(i + 1)).drop_last() == before);
        assert(strs(parts@.take(i + 1)).last() == parts@[i as int]@);
        if i > 0 {
            r.append(sep);
        }
        r.append(parts[i].as_str());
        i = i + 1;
    }
    assert(parts@.take(parts.len() as int) == parts@);
    r
}

/// A path to an item, from the root of the crate with index `cr_idx`.
#[derive(Clone, Debug, PartialEq, Eq)]
pub struct ItemPath {
    pub cr_idx: usize,
    pub path: Vec<String>,
}

impl ItemPath {
    pub fn new(cr_idx: usize, path: Vec<String>) -> (r: Self)
        ensures
            r.cr_idx == cr_idx,
            r.path@ == path@,
    {
        Self { cr_idx, path }
    }

    /// The path's segments joined with `::`.
    pub fn to_string(&self) -> (r: String)
        ensures
            r@ == join(strs(self.path@), path_sep()),
    {
        let sep = "::";
        proof {
            reveal_strlit("::");
            assert(sep@ == path_sep());
        }
        join_strings(&self.path, sep)
    }
}

impl Default for ItemPath {
    fn default() -> (r: Self)
        ensures
            r.cr_idx == 0,
            r.path@.len() == 0,
    {
        Self { cr_idx: 0, path: Vec::new() }
    }
}

/// The message that reports a path that names nothing.
pub open spec fn resolve_error_msg(path: Seq<String>) -> Seq<char> {
    "Could not resolve path: "@ + join(strs(path), path_sep())
}

/// The message that reports a path that names nothing.
pub fn resolve_error(path: Vec<String>) -> (r: String)
    ensures
        r@ == resolve_error_msg(path@),
{
    proof {
        reveal_strlit("::");
        assert("::"@ == path_sep());
    }
    let joined = join_strings(&path, "::");
    let mut r = String::from_str("Could not resolve path: ");
    r.append(joined.as_str());
    r
}

} // verus!

verus! {

/// Whether two lists of strings hold the same strings.
pub fn strings_equal(a: &Vec<String>, b: &Vec<String>) -> (r: bool)
    ensures
        r == (strs(a@) == strs(b@)),
{
    if a.len() != b.len() {
        proof {
            assert(strs(a@).len() != strs(b@).len());
        }
        return false;
    }
    let mut i: usize = 0;
    while i < a.len()
        invariant
            i <= a@.len(),
            a@.len() == b@.len(),
            forall|j: int| 0 <= j < i ==> a@[j]@ == b@[j]@,
        decreases a@.len() - i,
    {
        if a[i] != b[i] {
            proof {
                assert(strs(a@)[i as int] != strs(b@)[i as int]);
            }
            return false;
        }
        i = i + 1;
    }
    assert(strs(a@) =~= strs(b@));
    true
}

} // verus!

verus! {

/// Why a path could not be resolved.
#[derive(Debug)]
pub enum ResolveError {
    /// The path names nothing.
    Unresolved(Vec<String>),
    /// The path has no segment.
    EmptyPath,
    /// A module path was followed past its end: the position and the path.
    BadIndex(usize, Vec<String>),
    /// A module refers to a module index that its crate does not have.
    NoMod(usize),
    /// A crate refers to a crate index that does not exist.
    NoCrate(usize),
}

/// The mathematical form of a resolution error.
pub enum ResolveFail {
    Unresolved(Seq<Seq<char>>),
    EmptyPath,
    BadIndex(int, Seq<Seq<char>>),
    NoMod(int),
    NoCrate(int),
}

impl ResolveError {
    pub open spec fn view(&self) -> ResolveFail {
        match self {
            ResolveError::Unresolved(p) => ResolveFail::Unresolved(strs(p@)),
            ResolveError::EmptyPath => ResolveFail::EmptyPath,
            ResolveError::BadIndex(i, p) => ResolveFail::BadIndex(*i as int, strs(p@)),
            ResolveError::NoMod(i) => ResolveFail::NoMod(*i as int),
            ResolveError::NoCrate(i) => ResolveFail::NoCrate(*i as int),
        }
    }
}

/// The outcome of a resolution: the symbol found, or why none was.
pub type SpecResolved = Result<Symbol, ResolveFail>;

pub open spec fn resolved_view(r: Result<&Symbol, ResolveError>) -> SpecResolved {
    match r {
        Ok(s) => Ok(*s),
        Err(e) => Err(e.view()),
    }
}

pub open spec fn crate_kw() -> Seq<char> {
    "crate"@
}

pub open spec fn glob_kw() -> Seq<char> {
    "*"@
}

/// Every child index of `m` names a module of `cr`.
pub open spec fn children_valid(cr: AstCrate, m: AstMod) -> bool {
    forall|i: int| 0 <= i < m.mods@.len() ==> #[trigger] m.mods@[i] < cr.mods@.len()
}

/// The first child index of `m`, from position `k` on, that names no module of `cr`.
pub open spec fn first_bad_child(cr: AstCrate, m: AstMod, k: int) -> int
    decreases m.mods@.len() - k,
{
    if k < 0 || k >= m.mods@.len() {
        0
    } else if m.mods@[k] >= cr.mods@.len() {
        m.mods@[k] as int
    } else {
        first_bad_child(cr, m, k + 1)
    }
}

/// The position, from `k` on, of the first child of `m` named `name`.
pub open spec fn find_child(cr: AstCrate, m: AstMod, name: Seq<char>, k: int) -> Option<int>
    decreases m.mods@.len() - k,
{
    if k < 0 || k >= m.mods@.len() {
        None
    } else if m.mods@[k] < cr.mods@.len() && cr.mods@[m.mods@[k] as int].name@ == name {
        Some(k)
    } else {
        find_child(cr, m, name, k + 1)
    }
}

/// The position, from `k` on, of the first symbol whose path ends with `name`.
pub open spec fn find_symbol(syms: Seq<Symbol>, name: Seq<char>, k: int) -> Option<int>
    decreases syms.len() - k,
{
    if k < 0 || k >= syms.len() {
        None
    } else if syms[k].path@.len() > 0 && syms[k].path@.last()@ == name {
        Some(k)
    } else {
        find_symbol(syms, name, k + 1)
    }
}

/// The position, from `k` on, of the first dependency with alias `name`.
pub open spec fn find_dep(deps: Seq<(usize, String)>, name: Seq<char>, k: int) -> Option<int>
    decreases deps.len() - k,
{
    if k < 0 || k >= deps.len() {
        None
    } else if deps[k].1@ == name {
        Some(k)
    } else {
        find_dep(deps, name, k + 1)
    }
}

/// Resolution of an absolute path (`crate::..` or `alias::..`) from crate `cr`,
/// with `fuel` steps; `None` when the steps run out.
pub open spec fn from_crate(crates: Seq<AstCrate>, path: Seq<Seq<char>>, cr: AstCrate, fuel: nat) -> Option<SpecResolved>
    decreases fuel, 0int,
{
    if fuel == 0 {
        None
    } else if path.len() == 0 {
        Some(Err(ResolveFail::Unresolved(path)))
    } else if path[0] == crate_kw() {
        if cr.main < cr.mods@.len() {
            from_mod(crates, path, 1, cr, cr.mods@[cr.main as int], (fuel - 1) as nat)
        } else {
            Some(Err(ResolveFail::NoMod(cr.main as int)))
        }
    } else {
        match find_dep(cr.deps@, path[0], 0) {
            None => Some(Err(ResolveFail::Unresolved(path))),
            Some(k) => {
                let idx = cr.deps@[k].0;
                if idx < crates.len() {
                    from_crate(crates, seq![crate_kw()] + path.skip(1), crates[idx as int], (fuel - 1) as nat)
                } else {
                    Some(Err(ResolveFail::NoCrate(idx as int)))
                }
            },
        }
    }
}

/// Resolution of `path` from its segment `idx` on, inside module `m` of
/// crate `cr`, with `fuel` steps.
pub open spec fn from_mod(crates: Seq<AstCrate>, path: Seq<Seq<char>>, idx: int, cr: AstCrate, m: AstMod, fuel: nat) -> Option<SpecResolved>
    decreases fuel, 0int,
{
    if fuel == 0 {
        None
    } else if idx < 0 || idx >= path.len() {
        Some(Err(ResolveFail::BadIndex(idx, path)))
    } else if !children_valid(cr, m) {
        Some(Err(ResolveFail::NoMod(first_bad_child(cr, m, 0))))
    } else {
        let name = path[idx];
        let is_end = idx == path.len() - 1;
        match find_child(cr, m, name, 0) {
            Some(k) => if is_end {
                Some(Err(ResolveFail::Unresolved(path)))
            } else {
                from_mod(crates, path, idx + 1, cr, cr.mods@[m.mods@[k] as int], (fuel - 1) as nat)
            },
            None => match find_symbol(m.symbols@, name, 0) {
                Some(k) => if is_end {
                    Some(Ok(m.symbols@[k]))
                } else {
                    Some(Err(ResolveFail::Unresolved(strs(m.symbols@[k].path@))))
                },
                None => mod_uses(crates, path, idx, cr, m, 0, (fuel - 1) as nat),
            },
        }
    }
}

/// The `use` items of `m`, from position `k` on, tried for segment `idx` of
/// `path` when no child module or symbol matched.
pub open spec fn mod_uses(crates: Seq<AstCrate>, path: Seq<Seq<char>>, idx: int, cr: AstCrate, m: AstMod, k: int, fuel: nat) -> Option<SpecResolved>
    decreases fuel, if k <= m.uses@.len() { m.uses@.len() - k + 1 } else { 1 },
{
    if k < 0 || k >= m.uses@.len() || idx < 0 || idx >= path.len() {
        Some(Err(ResolveFail::Unresolved(path)))
    } else {
        let u = m.uses@[k];
        if u.ident@ == glob_kw() {
            match local(crates, strs(u.path@) + path.skip(idx), cr, m, fuel) {
                None => None,
                Some(Ok(s)) => Some(Ok(s)),
                Some(Err(_)) => mod_uses(crates, path, idx, cr, m, k + 1, fuel),
            }
        } else if u.ident@ == path[idx] {
            local(crates, strs(u.path@) + path.skip(idx + 1), cr, m, fuel)
        } else {
            mod_uses(crates, path, idx, cr, m, k + 1, fuel)
        }
    }
}

/// Resolution of `path` as written in module `m` of crate `cr`, with `fuel` steps.
pub open spec fn local(crates: Seq<AstCrate>, path: Seq<Seq<char>>, cr: AstCrate, m: AstMod, fuel: nat) -> Option<SpecResolved>
    decreases fuel, 0int,
{
    if fuel == 0 {
        None
    } else if path.len() == 0 {
        Some(Err(ResolveFail::EmptyPath))
    } else if path[0] == crate_kw() {
        from_crate(crates, path, cr, (fuel - 1) as nat)
    } else if path.len() == 1 && find_symbol(m.symbols@, path[0], 0) is Some {
        Some(Ok(m.symbols@[find_symbol(m.symbols@, path[0], 0)->0]))
    } else if !children_valid(cr, m) {
        Some(Err(ResolveFail::NoMod(first_bad_child(cr, m, 0))))
    } else {
        match find_child(cr, m, path[0], 0) {
            Some(k) => from_crate(crates, strs(cr.mods@[m.mods@[k] as int].path@) + path.skip(1), cr, (fuel - 1) as nat),
            None => local_uses(crates, path, cr, m, 0, (fuel - 1) as nat),
        }
    }
}

/// The `use` items of `m`, from position `k` on, tried for `path`; when none
/// applies the path is read as starting with a dependency.
pub open spec fn local_uses(crates: Seq<AstCrate>, path: Seq<Seq<char>>, cr: AstCrate, m: AstMod, k: int, fuel: nat) -> Option<SpecResolved>
    decreases fuel, if k <= m.uses@.len() { m.uses@.len() - k + 1 } else { 1 },
{
    if k < 0 || k >= m.uses@.len() || path.len() == 0 {
        from_crate(crates, path, cr, fuel)
    } else {
        let u = m.uses@[k];
        if u.ident@ == glob_kw() {
            match from_crate(crates, strs(u.path@) + path, cr, fuel) {
                None => None,
                Some(Ok(s)) => Some(Ok(s)),
                Some(Err(_)) => local_uses(crates, path, cr, m, k + 1, fuel),
            }
        } else if path[0] == u.ident@ {
            from_crate(crates, strs(u.path@) + path.skip(1), cr, fuel)
        } else {
            local_uses(crates, path, cr, m, k + 1, fuel)
        }
    }
}


proof fn lemma_from_crate_step(crates: Seq<AstCrate>, path: Seq<Seq<char>>, cr: AstCrate, fuel: nat)
    requires
        from_crate(crates, path, cr, fuel) is Some,
    ensures
        from_crate(crates, path, cr, fuel + 1) == from_crate(crates, path, cr, fuel),
    decreases fuel, 0int,
{
    let f = (fuel - 1) as nat;
    assert((fuel + 1 - 1) as nat == fuel);
    if path.len() == 0 {
    } else if path[0] == crate_kw() {
        if cr.main < cr.mods@.len() {
            lemma_from_mod_step(crates, path, 1, cr, cr.mods@[cr.main as int], f);
        }
    } else {
        match find_dep(cr.deps@, path[0], 0) {
            None => {},
            Some(k) => {
                let idx = cr.deps@[k].0;
                if idx < crates.len() {
                    lemma_from_crate_step(crates, seq![crate_kw()] + path.skip(1), crates[idx as int], f);
                }
            },
        }
    }
}

proof fn lemma_from_mod_step(crates: Seq<AstCrate>, path: Seq<Seq<char>>, idx: int, cr: AstCrate, m: AstMod, fuel: nat)
    requires
        from_mod(crates, path, idx, cr, m, fuel) is Some,
    ensures
        from_mod(crates, path, idx, cr, m, fuel + 1) == from_mod(crates, path, idx, cr, m, fuel),
    decreases fuel, 0int,
{
    let f = (fuel - 1) as nat;
    assert((fuel + 1 - 1) as nat == fuel);
    if idx < 0 || idx >= path.len() {
    } else if !children_valid(cr, m) {
    } else {
        let name = path[idx];
        let is_end = idx == path.len() - 1;
        match find_child(cr, m, name, 0) {
            Some(k) => if !is_end {
                lemma_from_mod_step(crates, path, idx + 1, cr, cr.mods@[m.mods@[k] as int], f);
            },
            None => match find_symbol(m.symbols@, name, 0) {
                Some(k) => {},
                None => {
                    lemma_mod_uses_step(crates, path, idx, cr, m, 0, f);
                },
            },
        }
    }
}

proof fn lemma_mod_uses_step(crates: Seq<AstCrate>, path: Seq<Seq<char>>, idx: int, cr: AstCrate, m: AstMod, k: int, fuel: nat)
    requires
        mod_uses(crates, path, idx, cr, m, k, fuel) is Some,
    ensures
        mod_uses(crates, path, idx, cr, m, k, fuel + 1) == mod_uses(crates, path, idx, cr, m, k, fuel),
    decreases fuel, if k <= m.uses@.len() { m.uses@.len() - k + 1 } else { 1 },
{
    if k < 0 || k >= m.uses@.len() || idx < 0 || idx >= path.len() {
    } else {
        let u = m.uses@[k];
        if u.ident@ == glob_kw() {
            let p = strs(u.path@) + path.skip(idx);
            lemma_local_step(crates, p, cr, m, fuel);
            match local(crates, p, cr, m, fuel) {
                None => {},
                Some(Ok(s)) => {},
                Some(Err(_)) => {
                    lemma_mod_uses_step(crates, path, idx, cr, m, k + 1, fuel);
                },
            }
        } else if u.ident@ == path[idx] {
            lemma_local_step(crates, strs(u.path@) + path.skip(idx + 1), cr, m, fuel);
        } else {
            lemma_mod_uses_step(crates, path, idx, cr, m, k + 1, fuel);
        }
    }
}

proof fn lemma_local_step(crates: Seq<AstCrate>, path: Seq<Seq<char>>, cr: AstCrate, m: AstMod, fuel: nat)
    requires
        local(crates, path, cr, m, fuel) is Some,
    ensures
        local(crates, path, cr, m, fuel + 1) == local(crates, path, cr, m, fuel),
    decreases fuel, 0int,
{
    let f = (fuel - 1) as nat;
    assert((fuel + 1 - 1) as nat == fuel);
    if path.len() == 0 {
    } else if path[0] == crate_kw() {
        lemma_from_crate_step(crates, path, cr, f);
    } else if path.len() == 1 && find_symbol(m.symbols@, path[0], 0) is Some {
    } else if !children_valid(cr, m) {
    } else {
        match find_child(cr, m, path[0], 0) {
            Some(k) => {
                lemma_from_crate_step(crates, strs(cr.mods@[m.mods@[k] as int].path@) + path.skip(1), cr, f);
            },
            None => {
                lemma_local_uses_step(crates, path, cr, m, 0, f);
            },
        }
    }
}

proof fn lemma_local_uses_step(crates: Seq<AstCrate>, path: Seq<Seq<char>>, cr: AstCrate, m: AstMod, k: int, fuel: nat)
    requires
        local_uses(crates, path, cr, m, k, fuel) is Some,
    ensures
        local_uses(crates, path, cr, m, k, fuel + 1) == local_uses(crates, path, cr, m, k, fuel),
    decreases fuel, if k <= m.uses@.len() { m.uses@.len() - k + 1 } else { 1 },
{
    if k < 0 || k >= m.uses@.len() || path.len() == 0 {
        lemma_from_crate_step(crates, path, cr, fuel);
    } else {
        let u = m.uses@[k];
        if u.ident@ == glob_kw() {
            let p = strs(u.path@) + path;
            lemma_from_crate_step(crates, p, cr, fuel);
            match from_crate(crates, p, cr, fuel) {
                None => {},
                Some(Ok(s)) => {},
                Some(Err(_)) => {
                    lemma_local_uses_step(crates, path, cr, m, k + 1, fuel);
                },
            }
        } else if path[0] == u.ident@ {
            lemma_from_crate_step(crates, strs(u.path@) + path.skip(1), cr, fuel);
        } else {
            lemma_local_uses_step(crates, path, cr, m, k + 1, fuel);
        }
    }
}

proof fn lemma_local_more_fuel(crates: Seq<AstCrate>, path: Seq<Seq<char>>, cr: AstCrate, m: AstMod, f1: nat, f2: nat)
    requires
        local(crates, path, cr, m, f1) is Some,
        f1 <= f2,
    ensures
        local(crates, path, cr, m, f2) == local(crates, path, cr, m, f1),
    decreases f2 - f1,
{
    if f1 < f2 {
        lemma_local_step(crates, path, cr, m, f1);
        lemma_local_more_fuel(crates, path, cr, m, f1 + 1, f2);
    }
}

proof fn lemma_from_crate_more_fuel(crates: Seq<AstCrate>, path: Seq<Seq<char>>, cr: AstCrate, f1: nat, f2: nat)
    requires
        from_crate(crates, path, cr, f1) is Some,
        f1 <= f2,
    ensures
        from_crate(crates, path, cr, f2) == from_crate(crates, path, cr, f1),
    decreases f2 - f1,
{
    if f1 < f2 {
        lemma_from_crate_step(crates, path, cr, f1);
        lemma_from_crate_more_fuel(crates, path, cr, f1 + 1, f2);
    }
}

/// Resolution does not depend on how many steps were allowed: whenever a path
/// resolves within some number of steps, `resolution` is that outcome, and any
/// larger number of steps gives the same outcome.
pub proof fn law_resolution_unique(crates: Seq<AstCrate>, path: Seq<Seq<char>>, cr: AstCrate, m: AstMod, fuel: nat)
    requires
        local(crates, path, cr, m, fuel) is Some,
    ensures
        resolvable(crates, path, cr, m),
        Some(resolution(crates, path, cr, m)) == local(crates, path, cr, m, fuel),
        forall|more: nat| fuel <= more ==> #[trigger] local(crates, path, cr, m, more) == local(crates, path, cr, m, fuel),
{
    let g = choose|f: nat| #[trigger] local(crates, path, cr, m, f) is Some;
    if g <= fuel {
        lemma_local_more_fuel(crates, path, cr, m, g, fuel);
    } else {
        lemma_local_more_fuel(crates, path, cr, m, fuel, g);
    }
    assert forall|more: nat| fuel <= more implies #[trigger] local(crates, path, cr, m, more) == local(crates, path, cr, m, fuel) by {
        lemma_local_more_fuel(crates, path, cr, m, fuel, more);
    }
}

/// The same for absolute paths resolved from a crate.
pub proof fn law_resolution_from_crate_unique(crates: Seq<AstCrate>, path: Seq<Seq<char>>, cr: AstCrate, fuel: nat)
    requires
        from_crate(crates, path, cr, fuel) is Some,
    ensures
        resolvable_from_crate(crates, path, cr),
        Some(resolution_from_crate(crates, path, cr)) == from_crate(crates, path, cr, fuel),
        forall|more: nat| fuel <= more ==> #[trigger] from_crate(crates, path, cr, more) == from_crate(crates, path, cr, fuel),
{
    let g = choose|f: nat| #[trigger] from_crate(crates, path, cr, f) is Some;
    if g <= fuel {
        lemma_from_crate_more_fuel(crates, path, cr, g, fuel);
    } else {
        lemma_from_crate_more_fuel(crates, path, cr, fuel, g);
    }
    assert forall|more: nat| fuel <= more implies #[trigger] from_crate(crates, path, cr, more) == from_crate(crates, path, cr, fuel) by {
        lemma_from_crate_more_fuel(crates, path, cr, fuel, more);
    }
}


/// How a path written in a module starts to resolve: an empty path is an
/// error; a path that starts with `crate` resolves as an absolute path from
/// the module's crate; a one-segment path that names a symbol of the module
/// resolves to the first such symbol.
pub proof fn law_resolve_path_cases(crates: Seq<AstCrate>, path: Seq<Seq<char>>, cr: AstCrate, m: AstMod)
    ensures
        path.len() == 0 ==> resolvable(crates, path, cr, m) && resolution(crates, path, cr, m) == Err::<Symbol, ResolveFail>(ResolveFail::EmptyPath),
        path.len() > 0 && path[0] == crate_kw() ==> {
            &&& resolvable(crates, path, cr, m) <==> resolvable_from_crate(crates, path, cr)
            &&& resolvable(crates, path, cr, m) ==> resolution(crates, path, cr, m) == resolution_from_crate(crates, path, cr)
        },
        path.len() == 1 && path[0] != crate_kw() && find_symbol(m.symbols@, path[0], 0) is Some ==> {
            &&& resolvable(crates, path, cr, m)
            &&& resolution(crates, path, cr, m) == Ok::<Symbol, ResolveFail>(m.symbols@[find_symbol(m.symbols@, path[0], 0)->0])
        },
{
    if path.len() == 0 {
        law_resolution_unique(crates, path, cr, m, 1);
    } else if path[0] == crate_kw() {
        if resolvable_from_crate(crates, path, cr) {
            let f = choose|f: nat| #[trigger] from_crate(crates, path, cr, f) is Some;
            assert(local(crates, path, cr, m, f + 1) == from_crate(crates, path, cr, f));
            law_resolution_unique(crates, path, cr, m, f + 1);
            law_resolution_from_crate_unique(crates, path, cr, f);
        }
        if resolvable(crates, path, cr, m) {
            let g = choose|f: nat| #[trigger] local(crates, path, cr, m, f) is Some;
            assert(g > 0);
            let f = (g - 1) as nat;
            assert(local(crates, path, cr, m, g) == from_crate(crates, path, cr, f));
            assert(from_crate(crates, path, cr, f) is Some);
        }
    } else if path.len() == 1 && find_symbol(m.symbols@, path[0], 0) is Some {
        law_resolution_unique(crates, path, cr, m, 1);
    }
}

/// How an absolute path starts to resolve from a crate: an empty path, or
/// one whose first segment is neither `crate` nor an alias of a dependency,
/// names nothing; `crate::..` with no root module is an error; through the
/// first dependency with that alias, the rest of the path resolves as
/// `crate::..` from that dependency, or fails when it names no crate.
pub proof fn law_resolve_from_crate_cases(crates: Seq<AstCrate>, path: Seq<Seq<char>>, cr: AstCrate)
    ensures
        path.len() == 0 ==> resolvable_from_crate(crates, path, cr)
            && resolution_from_crate(crates, path, cr) == Err::<Symbol, ResolveFail>(ResolveFail::Unresolved(path)),
        path.len() > 0 && path[0] == crate_kw() && cr.main >= cr.mods@.len() ==> resolvable_from_crate(crates, path, cr)
            && resolution_from_crate(crates, path, cr) == Err::<Symbol, ResolveFail>(ResolveFail::NoMod(cr.main as int)),
        path.len() > 0 && path[0] != crate_kw() && find_dep(cr.deps@, path[0], 0) is None ==> resolvable_from_crate(crates, path, cr)
            && resolution_from_crate(crates, path, cr) == Err::<Symbol, ResolveFail>(ResolveFail::Unresolved(path)),
        path.len() > 0 && path[0] != crate_kw() && find_dep(cr.deps@, path[0], 0) is Some ==> ({
            let idx = cr.deps@[find_dep(cr.deps@, path[0], 0)->0].0;
            &&& idx >= crates.len() ==> resolvable_from_crate(crates, path, cr)
                && resolution_from_crate(crates, path, cr) == Err::<Symbol, ResolveFail>(ResolveFail::NoCrate(idx as int))
            &&& idx < crates.len() ==> {
                &&& resolvable_from_crate(crates, path, cr) <==> resolvable_from_crate(crates, seq![crate_kw()] + path.skip(1), crates[idx as int])
                &&& resolvable_from_crate(crates, path, cr) ==> resolution_from_crate(crates, path, cr)
                    == resolution_from_crate(crates, seq![crate_kw()] + path.skip(1), crates[idx as int])
            }
        }),
{
    if path.len() == 0 || (path[0] == crate_kw() && cr.main >= cr.mods@.len()) || (path[0] != crate_kw() && find_dep(cr.deps@, path[0], 0) is None) {
        law_resolution_from_crate_unique(crates, path, cr, 1);
    } else if path[0] != crate_kw() {
        let k = find_dep(cr.deps@, path[0], 0)->0;
        let idx = cr.deps@[k].0;
        if idx >= crates.len() {
            law_resolution_from_crate_unique(crates, path, cr, 1);
        } else {
            let q = seq![crate_kw()] + path.skip(1);
            let d = crates[idx as int];
            if resolvable_from_crate(crates, q, d) {
                let f = choose|f: nat| #[trigger] from_crate(crates, q, d, f) is Some;
                assert(from_crate(crates, path, cr, f + 1) == from_crate(crates, q, d, f));
                law_resolution_from_crate_unique(crates, path, cr, f + 1);
                law_resolution_from_crate_unique(crates, q, d, f);
            }
            if resolvable_from_crate(crates, path, cr) {
                let g = choose|f: nat| #[trigger] from_crate(crates, path, cr, f) is Some;
                assert(g > 0);
                let f = (g - 1) as nat;
                assert(from_crate(crates, path, cr, g) == from_crate(crates, q, d, f));
                assert(from_crate(crates, q, d, f) is Some);
            }
        }
    }
}

} // verus!

verus! {

pub proof fn lemma_strs_index(a: Seq<String>)
    ensures
        strs(a).len() == a.len(),
        forall|i: int| 0 <= i < a.len() ==> #[trigger] strs(a)[i] == a[i]@,
{
}

pub proof fn lemma_strs_concat(a: Seq<String>, b: Seq<String>)
    ensures
        strs(a + b) == strs(a) + strs(b),
{
    assert(strs(a + b) =~= strs(a) + strs(b));
}

pub proof fn lemma_strs_skip(a: Seq<String>, n: int)
    requires
        0 <= n <= a.len(),
    ensures
        strs(a.skip(n)) == strs(a).skip(n),
{
    assert(strs(a.skip(n)) =~= strs(a).skip(n));
}

/// `a` followed by the segments of `b` from position `from` on.
fn concat_from(a: &Vec<String>, b: &Vec<String>, from: usize) -> (r: Vec<String>)
    requires
        from <= b@.len(),
    ensures
        strs(r@) == strs(a@) + strs(b@).skip(from as int),
{
    let mut r = a.clone();
    let mut i = from;
    while i < b.len()
        invariant
            from <= i <= b@.len(),
            r@ == a@ + b@.subrange(from as int, i as int),
        decreases b@.len() - i,
    {
        r.push(b[i].clone());
        assert(a@ + b@.subrange(from as int, i + 1) == (a@ + b@.subrange(from as int, i as int)).push(b@[i as int]));
        i = i + 1;
    }
    proof {
        assert(b@.subrange(from as int, b@.len() as int) == b@.skip(from as int));
        lemma_strs_concat(a@, b@.skip(from as int));
        lemma_strs_skip(b@, from as int);
    }
    r
}

fn find_child_exec(cr: &AstCrate, m: &AstMod, name: &String) -> (r: Option<usize>)
    ensures
        match find_child(*cr, *m, name@, 0) {
            Some(k) => r is Some && r->0 == k && 0 <= k < m.mods@.len(),
            None => r is None,
        },
{
    let mut k: usize = 0;
    while k < m.mods.len()
        invariant
            k <= m.mods@.len(),
            find_child(*cr, *m, name@, 0) == find_child(*cr, *m, name@, k as int),
        decreases m.mods@.len() - k,
    {
        let c = m.mods[k];
        if c < cr.mods.len() && cr.mods[c].name == *name {
            return Some(k);
        }
        k = k + 1;
    }
    None
}

fn find_symbol_exec(syms: &Vec<Symbol>, name: &String) -> (r: Option<usize>)
    ensures
        match find_symbol(syms@, name@, 0) {
            Some(k) => r is Some && r->0 == k && 0 <= k < syms@.len(),
            None => r is None,
        },
{
    let mut k: usize = 0;
    while k < syms.len()
        invariant
            k <= syms@.len(),
            find_symbol(syms@, name@, 0) == find_symbol(syms@, name@, k as int),
        decreases syms@.len() - k,
    {
        let p = &syms[k].path;
        if p.len() > 0 && p[p.len() - 1] == *name {
            return Some(k);
        }
        k = k + 1;
    }
    None
}

fn find_dep_exec(deps: &Vec<(usize, String)>, name: &String) -> (r: Option<usize>)
    ensures
        match find_dep(deps@, name@, 0) {
            Some(k) => r is Some && r->0 == k && 0 <= k < deps@.len(),
            None => r is None,
        },
{
    let mut k: usize = 0;
    while k < deps.len()
        invariant
            k <= deps@.len(),
            find_dep(deps@, name@, 0) == find_dep(deps@, name@, k as int),
        decreases deps@.len() - k,
    {
        if deps[k].1 == *name {
            return Some(k);
        }
        k = k + 1;
    }
    None
}

/// The first child index of `m` that names no module of `cr`, if any.
fn bad_child_exec(cr: &AstCrate, m: &AstMod) -> (r: Option<usize>)
    ensures
        r is None <==> children_valid(*cr, *m),
        r matches Some(x) ==> x == first_bad_child(*cr, *m, 0),
{
    let mut k: usize = 0;
    while k < m.mods.len()
        invariant
            k <= m.mods@.len(),
            forall|i: int| 0 <= i < k ==> #[trigger] m.mods@[i] < cr.mods@.len(),
            first_bad_child(*cr, *m, 0) == first_bad_child(*cr, *m, k as int),
        decreases m.mods@.len() - k,
    {
        if m.mods[k] >= cr.mods.len() {
            return Some(m.mods[k]);
        }
        k = k + 1;
    }
    None
}

fn is_keyword(s: &String, kw: &str) -> (r: bool)
    ensures
        r == (s@ == kw@),
{
    *s == String::from_str(kw)
}

fn resolve_from_crate_fuel<'a>(
    path: Vec<String>,
    cr: &'a AstCrate,
    crates: &'a Vec<AstCrate>,
    Ghost(fuel): Ghost<nat>,
) -> (r: Result<&'a Symbol, ResolveError>)
    requires
        from_crate(crates@, strs(path@), *cr, fuel) is Some,
    ensures
        from_crate(crates@, strs(path@), *cr, fuel) == Some(resolved_view(r)),
    decreases fuel,
{
    proof {
        lemma_strs_index(path@);
    }
    if path.len() == 0 {
        return Err(ResolveError::Unresolved(path));
    }
    if is_keyword(&path[0], "crate") {
        if cr.main < cr.mods.len() {
            resolve_from_mod_fuel(path, 1, &cr.mods[cr.main], cr, crates, Ghost((fuel - 1) as nat))
        } else {
            Err(ResolveError::NoMod(cr.main))
        }
    } else {
        match find_dep_exec(&cr.deps, &path[0]) {
            None => Err(ResolveError::Unresolved(path)),
            Some(k) => {
                let idx = cr.deps[k].0;
                if idx < crates.len() {
                    let head = vec![String::from_str("crate")];
                    let next = concat_from(&head, &path, 1);
                    proof {
                        assert(strs(head@) =~= seq![crate_kw()]);
                    }
                    resolve_from_crate_fuel(next, &crates[idx], crates, Ghost((fuel - 1) as nat))
                } else {
                    Err(ResolveError::NoCrate(idx))
                }
            },
        }
    }
}

fn resolve_from_mod_fuel<'a>(
    path: Vec<String>,
    idx: usize,
    m: &'a AstMod,
    cr: &'a AstCrate,
    crates: &'a Vec<AstCrate>,
    Ghost(fuel): Ghost<nat>,
) -> (r: Result<&'a Symbol, ResolveError>)
    requires
        from_mod(crates@, strs(path@), idx as int, *cr, *m, fuel) is Some,
    ensures
        from_mod(crates@, strs(path@), idx as int, *cr, *m, fuel) == Some(resolved_view(r)),
    decreases fuel,
{
    proof {
        lemma_strs_index(path@);
    }
    if idx >= path.len() {
        return Err(ResolveError::BadIndex(idx, path));
    }
    if let Some(bad) = bad_child_exec(cr, m) {
        return Err(ResolveError::NoMod(bad));
    }
    let is_end = idx == path.len() - 1;
    if let Some(k) = find_child_exec(cr, m, &path[idx]) {
        if is_end {
            return Err(ResolveError::Unresolved(path));
        } else {
            return resolve_from_mod_fuel(path, idx + 1, &cr.mods[m.mods[k]], cr, crates, Ghost((fuel - 1) as nat));
        }
    }
    if let Some(k) = find_symbol_exec(&m.symbols, &path[idx]) {
        if is_end {
            return Ok(&m.symbols[k]);
        } else {
            return Err(ResolveError::Unresolved(m.symbols[k].path.clone()));
        }
    }
    let ghost f = (fuel - 1) as nat;
    let after = idx + 1;
    let mut k: usize = 0;
    while k < m.uses.len()
        invariant
            k <= m.uses@.len(),
            idx < path@.len(),
            after == idx + 1,
            mod_uses(crates@, strs(path@), idx as int, *cr, *m, 0, f) is Some,
            mod_uses(crates@, strs(path@), idx as int, *cr, *m, 0, f)
                == mod_uses(crates@, strs(path@), idx as int, *cr, *m, k as int, f),
            from_mod(crates@, strs(path@), idx as int, *cr, *m, fuel)
                == mod_uses(crates@, strs(path@), idx as int, *cr, *m, 0, f),
            f < fuel,
        decreases m.uses@.len() - k,
    {
        let u = &m.uses[k];
        if is_keyword(&u.ident, "*") {
            let next = concat_from(&u.path, &path, idx);
            let res = resolve_path_fuel(next, m, cr, crates, Ghost(f));
            if res.is_ok() {
                return res;
            }
        } else if u.ident == path[idx] {
            let next = concat_from(&u.path, &path, after);
            return resolve_path_fuel(next, m, cr, crates, Ghost(f));
        }
        k = k + 1;
    }
    Err(ResolveError::Unresolved(path))
}

fn resolve_path_fuel<'a>(
    path: Vec<String>,
    m: &'a AstMod,
    cr: &'a AstCrate,
    crates: &'a Vec<AstCrate>,
    Ghost(fuel): Ghost<nat>,
) -> (r: Result<&'a Symbol, ResolveError>)
    requires
        local(crates@, strs(path@), *cr, *m, fuel) is Some,
    ensures
        local(crates@, strs(path@), *cr, *m, fuel) == Some(resolved_view(r)),
    decreases fuel,
{
    proof {
        lemma_strs_index(path@);
    }
    if path.len() == 0 {
        return Err(ResolveError::EmptyPath);
    }
    if is_keyword(&path[0], "crate") {
        return resolve_from_crate_fuel(path, cr, crates, Ghost((fuel - 1) as nat));
    }
    if path.len() == 1 {
        if let Some(k) = find_symbol_exec(&m.symbols, &path[0]) {
            return Ok(&m.symbols[k]);
        }
    }
    if let Some(bad) = bad_child_exec(cr, m) {
        return Err(ResolveError::NoMod(bad));
    }
    if let Some(k) = find_child_exec(cr, m, &path[0]) {
        let next = concat_from(&cr.mods[m.mods[k]].path, &path, 1);
        return resolve_from_crate_fuel(next, cr, crates, Ghost((fuel - 1) as nat));
    }
    let ghost f = (fuel - 1) as nat;
    let mut k: usize = 0;
    while k < m.uses.len()
        invariant
            k <= m.uses@.len(),
            path@.len() > 0,
            local_uses(crates@, strs(path@), *cr, *m, 0, f) is Some,
            local_uses(crates@, strs(path@), *cr, *m, 0, f)
                == local_uses(crates@, strs(path@), *cr, *m, k as int, f),
            local(crates@, strs(path@), *cr, *m, fuel)
                == local_uses(crates@, strs(path@), *cr, *m, 0, f),
            f < fuel,
        decreases m.uses@.len() - k,
    {
        let u = &m.uses[k];
        if is_keyword(&u.ident, "*") {
            let next = concat_from(&u.path, &path, 0);
            assert(strs(path@).skip(0) == strs(path@));
            let res = resolve_from_crate_fuel(next, cr, crates, Ghost(f));
            if res.is_ok() {
                return res;
            }
        } else if path[0] == u.ident {
            let next = concat_from(&u.path, &path, 1);
            return resolve_from_crate_fuel(next, cr, crates, Ghost(f));
        }
        k = k + 1;
    }
    resolve_from_crate_fuel(path, cr, crates, Ghost(f))
}

/// The outcome of a resolution that may have run out of steps.
pub open spec fn opt_resolved(r: Option<Result<&Symbol, ResolveError>>) -> Option<SpecResolved> {
    match r {
        Some(x) => Some(resolved_view(x)),
        None => None,
    }
}

fn bounded_from_crate<'a>(
    path: Vec<String>,
    cr: &'a AstCrate,
    crates: &'a Vec<AstCrate>,
    fuel: usize,
) -> (r: Option<Result<&'a Symbol, ResolveError>>)
    ensures
        from_crate(crates@, strs(path@), *cr, fuel as nat) == opt_resolved(r),
    decreases fuel,
{
    proof {
        lemma_strs_index(path@);
    }
    if fuel == 0 {
        return None;
    }
    if path.len() == 0 {
        return Some(Err(ResolveError::Unresolved(path)));
    }
    if is_keyword(&path[0], "crate") {
        if cr.main < cr.mods.len() {
            bounded_from_mod(path, 1, &cr.mods[cr.main], cr, crates, fuel - 1)
        } else {
            Some(Err(ResolveError::NoMod(cr.main)))
        }
    } else {
        match find_dep_exec(&cr.deps, &path[0]) {
            None => Some(Err(ResolveError::Unresolved(path))),
            Some(k) => {
                let idx = cr.deps[k].0;
                if idx < crates.len() {
                    let head = vec![String::from_str("crate")];
                    let next = concat_from(&head, &path, 1);
                    proof {
                        assert(strs(head@) =~= seq![crate_kw()]);
                    }
                    bounded_from_crate(next, &crates[idx], crates, fuel - 1)
                } else {
                    Some(Err(ResolveError::NoCrate(idx)))
                }
            },
        }
    }
}

fn bounded_from_mod<'a>(
    path: Vec<String>,
    idx: usize,
    m: &'a AstMod,
    cr: &'a AstCrate,
    crates: &'a Vec<AstCrate>,
    fuel: usize,
) -> (r: Option<Result<&'a Symbol, ResolveError>>)
    ensures
        from_mod(crates@, strs(path@), idx as int, *cr, *m, fuel as nat) == opt_resolved(r),
    decreases fuel,
{
    proof {
        lemma_strs_index(path@);
    }
    if fuel == 0 {
        return None;
    }
    if idx >= path.len() {
        return Some(Err(ResolveError::BadIndex(idx, path)));
    }
    if let Some(bad) = bad_child_exec(cr, m) {
        return Some(Err(ResolveError::NoMod(bad)));
    }
    let is_end = idx == path.len() - 1;
    if let Some(k) = find_child_exec(cr, m, &path[idx]) {
        if is_end {
            return Some(Err(ResolveError::Unresolved(path)));
        } else {
            return bounded_from_mod(path, idx + 1, &cr.mods[m.mods[k]], cr, crates, fuel - 1);
        }
    }
    if let Some(k) = find_symbol_exec(&m.symbols, &path[idx]) {
        if is_end {
            return Some(Ok(&m.symbols[k]));
        } else {
            return Some(Err(ResolveError::Unresolved(m.symbols[k].path.clone())));
        }
    }
    let f = fuel - 1;
    let after = idx + 1;
    let mut k: usize = 0;
    while k < m.uses.len()
        invariant
            k <= m.uses@.len(),
            idx < path@.len(),
            after == idx + 1,
            mod_uses(crates@, strs(path@), idx as int, *cr, *m, 0, f as nat)
                == mod_uses(crates@, strs(path@), idx as int, *cr, *m, k as int, f as nat),
            from_mod(crates@, strs(path@), idx as int, *cr, *m, fuel as nat)
                == mod_uses(crates@, strs(path@), idx as int, *cr, *m, 0, f as nat),
            f < fuel,
        decreases m.uses@.len() - k,
    {
        let u = &m.uses[k];
        if is_keyword(&u.ident, "*") {
            let next = concat_from(&u.path, &path, idx);
            let res = bounded_local(next, m, cr, crates, f);
            match res {
                None => {
                    return None;
                },
                Some(Ok(s)) => {
                    return Some(Ok(s));
                },
                Some(Err(_)) => {},
            }
        } else if u.ident == path[idx] {
            let next = concat_from(&u.path, &path, after);
            return bounded_local(next, m, cr, crates, f);
        }
        k = k + 1;
    }
    Some(Err(ResolveError::Unresolved(path)))
}

fn bounded_local<'a>(
    path: Vec<String>,
    m: &'a AstMod,
    cr: &'a AstCrate,
    crates: &'a Vec<AstCrate>,
    fuel: usize,
) -> (r: Option<Result<&'a Symbol, ResolveError>>)
    ensures
        local(crates@, strs(path@), *cr, *m, fuel as nat) == opt_resolved(r),
    decreases fuel,
{
    proof {
        lemma_strs_index(path@);
    }
    if fuel == 0 {
        return None;
    }
    if path.len() == 0 {
        return Some(Err(ResolveError::EmptyPath));
    }
    if is_keyword(&path[0], "crate") {
        return bounded_from_crate(path, cr, crates, fuel - 1);
    }
    if path.len() == 1 {
        if let Some(k) = find_symbol_exec(&m.symbols, &path[0]) {
            return Some(Ok(&m.symbols[k]));
        }
    }
    if let Some(bad) = bad_child_exec(cr, m) {
        return Some(Err(ResolveError::NoMod(bad)));
    }
    if let Some(k) = find_child_exec(cr, m, &path[0]) {
        let next = concat_from(&cr.mods[m.mods[k]].path, &path, 1);
        return bounded_from_crate(next, cr, crates, fuel - 1);
    }
    let f = fuel - 1;
    let mut k: usize = 0;
    while k < m.uses.len()
        invariant
            k <= m.uses@.len(),
            path@.len() > 0,
            local_uses(crates@, strs(path@), *cr, *m, 0, f as nat)
                == local_uses(crates@, strs(path@), *cr, *m, k as int, f as nat),
            local(crates@, strs(path@), *cr, *m, fuel as nat)
                == local_uses(crates@, strs(path@), *cr, *m, 0, f as nat),
            f < fuel,
        decreases m.uses@.len() - k,
    {
        let u = &m.uses[k];
        if is_keyword(&u.ident, "*") {
            let next = concat_from(&u.path, &path, 0);
            assert(strs(path@).skip(0) == strs(path@));
            let res = bounded_from_crate(next, cr, crates, f);
            match res {
                None => {
                    return None;
                },
                Some(Ok(s)) => {
                    return Some(Ok(s));
                },
                Some(Err(_)) => {},
            }
        } else if path[0] == u.ident {
            let next = concat_from(&u.path, &path, 1);
            return bounded_from_crate(next, cr, crates, f);
        }
        k = k + 1;
    }
    bounded_from_crate(path, cr, crates, f)
}


/// Resolves a path as written in module `m` of crate `cr` within `fuel`
/// steps; none when the steps run out (as on a cycle of `use` items).
pub fn resolve_path_bounded<'a>(path: Vec<String>, m: &'a AstMod, cr: &'a AstCrate, crates: &'a Vec<AstCrate>, fuel: usize)
    -> (r: Option<Result<&'a Symbol, ResolveError>>)
    ensures
        local(crates@, strs(path@), *cr, *m, fuel as nat) == opt_resolved(r),
        r matches Some(x) ==> resolvable(crates@, strs(path@), *cr, *m)
            && resolved_view(x) == resolution(crates@, strs(path@), *cr, *m),
{
    let r = bounded_local(path, m, cr, crates, fuel);
    proof {
        if r is Some {
            law_resolution_unique(crates@, strs(path@), *cr, *m, fuel as nat);
        }
    }
    r
}

/// Resolves an absolute path from crate `cr` within `fuel` steps; none when
/// the steps run out.
pub fn resolve_path_from_crate_bounded<'a>(path: Vec<String>, cr: &'a AstCrate, crates: &'a Vec<AstCrate>, fuel: usize)
    -> (r: Option<Result<&'a Symbol, ResolveError>>)
    ensures
        from_crate(crates@, strs(path@), *cr, fuel as nat) == opt_resolved(r),
        r matches Some(x) ==> resolvable_from_crate(crates@, strs(path@), *cr)
            && resolved_view(x) == resolution_from_crate(crates@, strs(path@), *cr),
{
    let r = bounded_from_crate(path, cr, crates, fuel);
    proof {
        if r is Some {
            law_resolution_from_crate_unique(crates@, strs(path@), *cr, fuel as nat);
        }
    }
    r
}

proof fn lemma_uses_skip(crates: Seq<AstCrate>, path: Seq<Seq<char>>, idx: int, cr: AstCrate, m: AstMod, j: int, k: int, fuel: nat)
    requires
        0 <= idx < path.len(),
        0 <= j <= k < m.uses@.len(),
        forall|t: int| 0 <= t < k ==> (#[trigger] m.uses@[t]).ident@ != path[idx] && m.uses@[t].ident@ != glob_kw(),
    ensures
        mod_uses(crates, path, idx, cr, m, j, fuel) == mod_uses(crates, path, idx, cr, m, k, fuel),
    decreases k - j,
{
    if j < k {
        lemma_uses_skip(crates, path, idx, cr, m, j + 1, k, fuel);
    }
}

/// Inside a module reached along an absolute path, a segment `N` that names
/// no child module and no symbol there is looked up through the module's
/// `use` items. When the first of them that applies is a named `use P as N`
/// (no glob import comes before it), the path continues as `P` followed by
/// the rest of the path after `N`: the segment `N` itself is dropped, so a
/// re-exported item resolves to what `P` names.
pub proof fn law_named_use(crates: Seq<AstCrate>, path: Seq<Seq<char>>, idx: int, cr: AstCrate, m: AstMod, k: int, fuel: nat)
    requires
        0 <= idx < path.len(),
        children_valid(cr, m),
        find_child(cr, m, path[idx], 0) is None,
        find_symbol(m.symbols@, path[idx], 0) is None,
        0 <= k < m.uses@.len(),
        m.uses@[k].ident@ == path[idx],
        path[idx] != glob_kw(),
        forall|t: int| 0 <= t < k ==> (#[trigger] m.uses@[t]).ident@ != path[idx] && m.uses@[t].ident@ != glob_kw(),
    ensures
        from_mod(crates, path, idx, cr, m, fuel + 1) == local(crates, strs(m.uses@[k].path@) + path.skip(idx + 1), cr, m, fuel),
{
    assert((fuel + 1 - 1) as nat == fuel);
    lemma_uses_skip(crates, path, idx, cr, m, 0, k, fuel);
}

/// The conditions under which `law_reexport` applies: `path` is
/// `crate::c::N::rest`, `c` a child of the crate's root module in which `N`
/// names no child module and no symbol, and the first `use` item of `c`
/// that applies to `N` is the named `use P as N` at position `k`.
pub open spec fn reexport_at(cr: AstCrate, path: Seq<Seq<char>>, k: int) -> bool {
    &&& cr.main < cr.mods@.len()
    &&& children_valid(cr, cr.mods@[cr.main as int])
    &&& path.len() >= 3
    &&& path[0] == crate_kw()
    &&& find_child(cr, cr.mods@[cr.main as int], path[1], 0) is Some
    &&& ({
        let root = cr.mods@[cr.main as int];
        let m = cr.mods@[root.mods@[find_child(cr, root, path[1], 0)->0] as int];
        &&& children_valid(cr, m)
        &&& find_child(cr, m, path[2], 0) is None
        &&& find_symbol(m.symbols@, path[2], 0) is None
        &&& 0 <= k < m.uses@.len()
        &&& m.uses@[k].ident@ == path[2]
        &&& path[2] != glob_kw()
        &&& forall|t: int| 0 <= t < k ==> (#[trigger] m.uses@[t]).ident@ != path[2] && m.uses@[t].ident@ != glob_kw()
    })
}

/// A name re-exported by a `use` item of a module under the crate root
/// resolves, through that module, to what the item's path names: resolving
/// `crate::c::N::rest` from the crate is resolving `P::rest` as written in
/// `c`, where `c` holds `use P as N`; one resolves exactly when the other
/// does.
pub proof fn law_reexport(crates: Seq<AstCrate>, cr: AstCrate, path: Seq<Seq<char>>, k: int)
    requires
        reexport_at(cr, path, k),
    ensures
        ({
            let root = cr.mods@[cr.main as int];
            let m = cr.mods@[root.mods@[find_child(cr, root, path[1], 0)->0] as int];
            let q = strs(m.uses@[k].path@) + path.skip(3);
            &&& resolvable_from_crate(crates, path, cr) <==> resolvable(crates, q, cr, m)
            &&& resolvable(crates, q, cr, m) ==> resolution_from_crate(crates, path, cr) == resolution(crates, q, cr, m)
        }),
{
    let root = cr.mods@[cr.main as int];
    let pos = find_child(cr, root, path[1], 0)->0;
    let m = cr.mods@[root.mods@[pos] as int];
    let q = strs(m.uses@[k].path@) + path.skip(3);
    assert forall|f: nat| #[trigger] from_crate(crates, path, cr, f + 3) == local(crates, q, cr, m, f) by {
        assert((f + 3 - 1) as nat == f + 2);
        assert((f + 2 - 1) as nat == f + 1);
        assert(from_crate(crates, path, cr, f + 3) == from_mod(crates, path, 1, cr, root, f + 2));
        assert(from_mod(crates, path, 1, cr, root, f + 2) == from_mod(crates, path, 2, cr, m, f + 1));
        law_named_use(crates, path, 2, cr, m, k, f);
    }
    if resolvable(crates, q, cr, m) {
        let f = choose|f: nat| #[trigger] local(crates, q, cr, m, f) is Some;
        assert(from_crate(crates, path, cr, f + 3) == local(crates, q, cr, m, f));
        law_resolution_unique(crates, q, cr, m, f);
        law_resolution_from_crate_unique(crates, path, cr, f + 3);
    }
    if resolvable_from_crate(crates, path, cr) {
        let g = choose|f: nat| #[trigger] from_crate(crates, path, cr, f) is Some;
        if g < 3 {
            if g == 1 {
                assert(from_crate(crates, path, cr, 1) == from_mod(crates, path, 1, cr, root, 0));
            } else if g == 2 {
                assert(from_crate(crates, path, cr, 2) == from_mod(crates, path, 1, cr, root, 1));
                assert(from_mod(crates, path, 1, cr, root, 1) == from_mod(crates, path, 2, cr, m, 0));
            }
            assert(false);
        }
        let f = (g - 3) as nat;
        assert(from_crate(crates, path, cr, f + 3) == local(crates, q, cr, m, f));
        assert(local(crates, q, cr, m, f) is Some);
    }
}

/// `path`, written in module `m` of crate `cr`, resolves in finitely many steps.
pub open spec fn resolvable(crates: Seq<AstCrate>, path: Seq<Seq<char>>, cr: AstCrate, m: AstMod) -> bool {
    exists|f: nat| #[trigger] local(crates, path, cr, m, f) is Some
}

/// What `path`, written in module `m` of crate `cr`, resolves to.
pub open spec fn resolution(crates: Seq<AstCrate>, path: Seq<Seq<char>>, cr: AstCrate, m: AstMod) -> SpecResolved {
    local(crates, path, cr, m, choose|f: nat| #[trigger] local(crates, path, cr, m, f) is Some)->0
}

/// The absolute `path` resolves from crate `cr` in finitely many steps.
pub open spec fn resolvable_from_crate(crates: Seq<AstCrate>, path: Seq<Seq<char>>, cr: AstCrate) -> bool {
    exists|f: nat| #[trigger] from_crate(crates, path, cr, f) is Some
}

/// What the absolute `path` resolves to from crate `cr`.
pub open spec fn resolution_from_crate(crates: Seq<AstCrate>, path: Seq<Seq<char>>, cr: AstCrate) -> SpecResolved {
    from_crate(crates, path, cr, choose|f: nat| #[trigger] from_crate(crates, path, cr, f) is Some)->0
}

/// Resolves a path as written in module `m` of crate `cr`: a local symbol,
/// a child module, a `use` item, or a dependency.
pub fn resolve_path<'a>(path: Vec<String>, m: &'a AstMod, cr: &'a AstCrate, crates: &'a Vec<AstCrate>) -> (r: Result<&'a Symbol, ResolveError>)
    requires
        resolvable(crates@, strs(path@), *cr, *m),
    ensures
        resolved_view(r) == resolution(crates@, strs(path@), *cr, *m),
        strs(path@).len() == 0 ==> resolved_view(r) == Err::<Symbol, ResolveFail>(ResolveFail::EmptyPath),
        strs(path@).len() > 0 && strs(path@)[0] == crate_kw() ==> resolved_view(r) == resolution_from_crate(crates@, strs(path@), *cr),
        strs(path@).len() == 1 && strs(path@)[0] != crate_kw() && find_symbol(m.symbols@, strs(path@)[0], 0) is Some
            ==> resolved_view(r) == Ok::<Symbol, ResolveFail>(m.symbols@[find_symbol(m.symbols@, strs(path@)[0], 0)->0]),
{
    proof {
        law_resolve_path_cases(crates@, strs(path@), *cr, *m);
    }
    let ghost f = choose|f: nat| #[trigger] local(crates@, strs(path@), *cr, *m, f) is Some;
    resolve_path_fuel(path, m, cr, crates, Ghost(f))
}

/// Resolves an absolute path (`crate::..` or `alias::..`) from crate `cr`.
pub fn resolve_path_from_crate<'a>(path: Vec<String>, cr: &'a AstCrate, crates: &'a Vec<AstCrate>) -> (r: Result<&'a Symbol, ResolveError>)
    requires
        resolvable_from_crate(crates@, strs(path@), *cr),
    ensures
        resolved_view(r) == resolution_from_crate(crates@, strs(path@), *cr),
        ({
            let p = strs(path@);
            &&& p.len() == 0 ==> resolved_view(r) == Err::<Symbol, ResolveFail>(ResolveFail::Unresolved(p))
            &&& p.len() > 0 && p[0] == crate_kw() && cr.main >= cr.mods@.len()
                ==> resolved_view(r) == Err::<Symbol, ResolveFail>(ResolveFail::NoMod(cr.main as int))
            &&& p.len() > 0 && p[0] != crate_kw() && find_dep(cr.deps@, p[0], 0) is None
                ==> resolved_view(r) == Err::<Symbol, ResolveFail>(ResolveFail::Unresolved(p))
            &&& p.len() > 0 && p[0] != crate_kw() && find_dep(cr.deps@, p[0], 0) is Some ==> ({
                let idx = cr.deps@[find_dep(cr.deps@, p[0], 0)->0].0;
                &&& idx >= crates@.len() ==> resolved_view(r) == Err::<Symbol, ResolveFail>(ResolveFail::NoCrate(idx as int))
                &&& idx < crates@.len() ==> resolved_view(r) == resolution_from_crate(crates@, seq![crate_kw()] + p.skip(1), crates@[idx as int])
            })
        }),
{
    proof {
        law_resolve_from_crate_cases(crates@, strs(path@), *cr);
    }
    let ghost f = choose|f: nat| #[trigger] from_crate(crates@, strs(path@), *cr, f) is Some;
    resolve_from_crate_fuel(path, cr, crates, Ghost(f))
}

} // verus!

verus! {

/// The message that reports a resolution error.
pub open spec fn resolve_fail_message(f: ResolveFail) -> Seq<char> {
    match f {
        ResolveFail::Unresolved(p) => "Could not resolve path: "@ + join(p, path_sep()),
        ResolveFail::EmptyPath => "Empty resolve path: "@,
        ResolveFail::BadIndex(i, p) => "Bad resolve path index: "@ + decimal(i as nat) + " in path: \""@ + join(p, path_sep()) + "\""@,
        ResolveFail::NoMod(i) => "Invalid mod index: "@ + decimal(i as nat),
        ResolveFail::NoCrate(_) => "Invalid dependency index"@,
    }
}

impl ResolveError {
    /// The message that reports the error.
    pub fn message(&self) -> (r: String)
        ensures
            r@ == resolve_fail_message(self.view()),
    {
        match self {
            ResolveError::Unresolved(p) => resolve_error(p.clone()),
            ResolveError::EmptyPath => String::from_str("Empty resolve path: "),
            ResolveError::BadIndex(i, p) => {
                let sep = "::";
                proof {
                    reveal_strlit("::");
                    assert(sep@ == path_sep());
                }
                let mut m = String::from_str("Bad resolve path index: ");
                m.append(usize_to_string(*i).as_str());
                m.append(" in path: \"");
                m.append(join_strings(p, sep).as_str());
                m.append("\"");
                m
            },
            ResolveError::NoMod(i) => {
                let mut m = String::from_str("Invalid mod index: ");
                m.append(usize_to_string(*i).as_str());
                m
            },
            ResolveError::NoCrate(_) => String::from_str("Invalid dependency index"),
        }
    }
}

} // verus!
