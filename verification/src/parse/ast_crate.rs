use vstd::prelude::*;

use crate::codegen::crate_paths::{namespace, Crates, CratesError};
use crate::parse::find_path::{lemma_strs_index, strs, strings_equal};
use crate::resolve::paths::Crate;
use crate::parse::symbol::{hardcoded_location, HardcodedSymbol, Symbol, SymbolType};

verus! {

/// How a module was declared.
#[derive(Clone, Copy, Debug, PartialEq, Eq, Structural)]
pub enum AstModType {
    Main,
    Lib,
    Mod,
    File,
    Internal,
}

/// The root file of a module directory.
#[derive(Clone, Copy, Debug, PartialEq, Eq, Structural)]
pub enum DirType {
    Main,
    Lib,
    Mod,
}

impl DirType {
    /// The file name of the module's root file.
    pub fn to_file(&self) -> (r: &'static str)
        ensures
            r@ == match *self {
                DirType::Main => "main.rs"@,
                DirType::Lib => "lib.rs"@,
                DirType::Mod => "mod.rs"@,
            },
    {
        match self {
            DirType::Main => "main.rs",
            DirType::Lib => "lib.rs",
            DirType::Mod => "mod.rs",
        }
    }
}

/// The module type of a module read from a directory's root file.
pub open spec fn dir_mod_type(d: DirType) -> AstModType {
    match d {
        DirType::Main => AstModType::Main,
        DirType::Lib => AstModType::Lib,
        DirType::Mod => AstModType::Mod,
    }
}

impl From<DirType> for AstModType {
    fn from(value: DirType) -> (r: Self) {
        match value {
            DirType::Main => AstModType::Main,
            DirType::Lib => AstModType::Lib,
            DirType::Mod => AstModType::Mod,
        }
    }
}

impl vstd::std_specs::convert::FromSpecImpl<DirType> for AstModType {
    open spec fn obeys_from_spec() -> bool {
        true
    }

    open spec fn from_spec(v: DirType) -> AstModType {
        dir_mod_type(v)
    }
}

/// One name brought in by a `use` item: the name (`*` for a glob), the first
/// segment of the path, the full path, and whether the item is `pub`.
#[derive(Debug)]
pub struct AstUse {
    pub ident: String,
    pub first: String,
    pub path: Vec<String>,
    pub public: bool,
}

impl AstUse {
    /// The use of `ident` at the end of `path`; none for an empty path.
    pub fn from(path: Vec<String>, ident: String, public: bool) -> (r: Option<Self>)
        ensures
            path@.len() == 0 <==> r is None,
            r matches Some(u) ==> {
                &&& u.ident == ident
                &&& u.first == path@[0]
                &&& u.path@ == path@.push(ident)
                &&& u.public == public
            },
    {
        if path.len() == 0 {
            return None;
        }
        let first = path[0].clone();
        let mut path = path;
        path.push(ident.clone());
        Some(Self { ident, first, path, public })
    }
}

/// The path of a `use` item after local resolution: when some child module
/// (the first whose name is the use's first segment) is named by it, the
/// child's path followed by the rest of the use's path.
pub open spec fn local_use_path(u: AstUse, children: Seq<Vec<String>>) -> Seq<Seq<char>> {
    match first_child_named(children, u.first@, 0) {
        Some(c) => strs(children[c]@) + strs(u.path@).skip(1),
        None => strs(u.path@),
    }
}

/// The first path of `children`, from `k` on, whose last segment is `name`.
pub open spec fn first_child_named(children: Seq<Vec<String>>, name: Seq<char>, k: int) -> Option<int>
    decreases children.len() - k,
{
    if k < 0 || k >= children.len() {
        None
    } else if children[k]@.len() > 0 && children[k]@.last()@ == name {
        Some(k)
    } else {
        first_child_named(children, name, k + 1)
    }
}

fn find_child_named(children: &Vec<Vec<String>>, name: &String) -> (r: Option<usize>)
    ensures
        match first_child_named(children@, name@, 0) {
            Some(c) => r is Some && r->0 == c && 0 <= c < children@.len(),
            None => r is None,
        },
{
    let mut k: usize = 0;
    while k < children.len()
        invariant
            k <= children@.len(),
            first_child_named(children@, name@, 0) == first_child_named(children@, name@, k as int),
        decreases children@.len() - k,
    {
        let c = &children[k];
        if c.len() > 0 && c[c.len() - 1] == *name {
            return Some(k);
        }
        k = k + 1;
    }
    None
}

/// Makes the `use` items of a module that start with the name of one of its
/// child modules (given by their paths) start from that module's path, as in
/// `mod foo; use foo::Bar;`. Each use's path must be non-empty.
pub fn resolve_local_uses(uses: &mut Vec<AstUse>, children: &Vec<Vec<String>>)
    requires
        forall|i: int| 0 <= i < old(uses)@.len() ==> (#[trigger] old(uses)@[i]).path@.len() > 0,
    ensures
        final(uses)@.len() == old(uses)@.len(),
        forall|i: int| 0 <= i < old(uses)@.len() ==> {
            let (a, b) = (#[trigger] final(uses)@[i], old(uses)@[i]);
            &&& strs(a.path@) == local_use_path(b, children@)
            &&& a.ident == b.ident
            &&& a.first == b.first
            &&& a.public == b.public
        },
{
    let ghost orig = uses@;
    let mut i: usize = 0;
    while i < uses.len()
        invariant
            i <= uses@.len(),
            uses@.len() == orig.len(),
            forall|j: int| 0 <= j < orig.len() ==> (#[trigger] orig[j]).path@.len() > 0,
            forall|j: int| 0 <= j < i ==> {
                let (a, b) = (#[trigger] uses@[j], orig[j]);
                &&& strs(a.path@) == local_use_path(b, children@)
                &&& a.ident == b.ident
                &&& a.first == b.first
                &&& a.public == b.public
            },
            forall|j: int| i <= j < orig.len() ==> #[trigger] uses@[j] == orig[j],
        decreases uses@.len() - i,
    {
        let found = find_child_named(children, &uses[i].first);
        match found {
            Some(c) => {
                let u = uses.remove(i);
                let ghost b = u;
                let AstUse { ident, first, path, public } = u;
                let pre = &children[c];
                let mut np: Vec<String> = Vec::new();
                let mut k: usize = 0;
                while k < pre.len()
                    invariant
                        k <= pre@.len(),
                        strs(np@) == strs(pre@.take(k as int)),
                    decreases pre@.len() - k,
                {
                    let ghost before = np@;
                    let s = pre[k].clone();
                    np.push(s);
                    assert(strs(np@) =~= strs(before).push(s@));
                    assert(strs(pre@.take(k + 1)) =~= strs(pre@.take(k as int)).push(pre@[k as int]@));
                    k = k + 1;
                }
                assert(pre@.take(pre@.len() as int) == pre@);
                let mut j: usize = 1;
                while j < path.len()
                    invariant
                        1 <= j <= path@.len(),
                        strs(np@) == strs(pre@) + strs(path@).subrange(1, j as int),
                    decreases path@.len() - j,
                {
                    let ghost before = np@;
                    let s = path[j].clone();
                    np.push(s);
                    assert(strs(np@) =~= strs(before).push(s@));
                    assert(strs(path@).subrange(1, j + 1) =~= strs(path@).subrange(1, j as int).push(path@[j as int]@));
                    j = j + 1;
                }
                assert(strs(path@).subrange(1, path@.len() as int) =~= strs(path@).skip(1));
                uses.insert(i, AstUse { ident, first, path: np, public });
            },
            None => {},
        }
        i = i + 1;
    }
}

/// A module: its index in its crate, how it was declared, its path from the
/// crate root, its name, the indices of its child modules, its `use`
/// items and the symbols it defines.
#[derive(Debug)]
pub struct AstMod {
    pub idx: usize,
    pub ty: AstModType,
    pub path: Vec<String>,
    pub name: String,
    pub mods: Vec<usize>,
    pub uses: Vec<AstUse>,
    pub symbols: Vec<Symbol>,
}

impl AstMod {
    pub fn new(idx: usize, path: Vec<String>, name: String, ty: AstModType) -> (r: Self)
        ensures
            r.idx == idx,
            r.path@ == path@,
            r.name == name,
            r.ty == ty,
            r.mods@.len() == 0,
            r.uses@.len() == 0,
            r.symbols@.len() == 0,
    {
        Self { idx, ty, path, name, mods: Vec::new(), uses: Vec::new(), symbols: Vec::new() }
    }

    pub fn add_symbol(&mut self, symbol: Symbol)
        ensures
            final(self).symbols@ == old(self).symbols@.push(symbol),
            final(self).idx == old(self).idx,
            final(self).ty == old(self).ty,
            final(self).path == old(self).path,
            final(self).name == old(self).name,
            final(self).mods == old(self).mods,
            final(self).uses == old(self).uses,
    {
        self.symbols.push(symbol)
    }
}

/// A crate: its index, its name, the index of its root module, its modules,
/// and its dependencies as (crate index, alias) pairs.
#[derive(Debug)]
pub struct AstCrate {
    pub idx: usize,
    pub name: String,
    pub main: usize,
    pub mods: Vec<AstMod>,
    pub deps: Vec<(usize, String)>,
}

/// Errors of module lookups.
#[derive(Debug)]
pub enum ModError {
    /// No module has this index.
    NoMod(usize),
    /// No module has this path.
    NoModAtPath(Vec<String>),
}

/// The position of the first module, from position `k` on, whose path is `path`.
pub open spec fn first_mod_from(mods: Seq<AstMod>, path: Seq<Seq<char>>, k: int) -> Option<int>
    decreases mods.len() - k,
{
    if k < 0 || k >= mods.len() {
        None
    } else if strs(mods[k].path@) == path {
        Some(k)
    } else {
        first_mod_from(mods, path, k + 1)
    }
}

/// The position of the first module whose path is `path`.
pub open spec fn first_mod_at(mods: Seq<AstMod>, path: Seq<Seq<char>>) -> Option<int> {
    first_mod_from(mods, path, 0)
}

/// The path without its last segment (empty for an empty path).
pub open spec fn parent_path(p: Seq<Seq<char>>) -> Seq<Seq<char>> {
    if p.len() == 0 {
        p
    } else {
        p.drop_last()
    }
}

impl AstCrate {
    pub fn get_mod(&self, i: usize) -> (r: Result<&AstMod, ModError>)
        ensures
            i < self.mods@.len() ==> (r matches Ok(m) && *m == self.mods@[i as int]),
            i >= self.mods@.len() ==> (r matches Err(ModError::NoMod(j)) && j == i),
    {
        if i < self.mods.len() {
            Ok(&self.mods[i])
        } else {
            Err(ModError::NoMod(i))
        }
    }

    pub fn get_main_mod(&self) -> (r: Result<&AstMod, ModError>)
        ensures
            self.main < self.mods@.len() ==> (r matches Ok(m) && *m == self.mods@[self.main as int]),
            self.main >= self.mods@.len() ==> (r matches Err(ModError::NoMod(j)) && j == self.main),
    {
        self.get_mod(self.main)
    }

    /// The first module whose path is `path`.
    pub fn find_mod(&self, path: &Vec<String>) -> (r: Result<&AstMod, ModError>)
        ensures
            match first_mod_at(self.mods@, strs(path@)) {
                Some(i) => r matches Ok(m) && *m == self.mods@[i],
                None => r matches Err(ModError::NoModAtPath(p)) && p@ == path@,
            },
    {
        match self.find_mod_index(path) {
            Some(i) => Ok(&self.mods[i]),
            None => Err(ModError::NoModAtPath(path.clone())),
        }
    }

    fn find_mod_index(&self, path: &Vec<String>) -> (r: Option<usize>)
        ensures
            r matches Some(i) ==> i < self.mods@.len() && first_mod_at(self.mods@, strs(path@)) == Some(i as int),
            r is None ==> first_mod_at(self.mods@, strs(path@)) is None,
    {
        let mut i: usize = 0;
        while i < self.mods.len()
            invariant
                i <= self.mods@.len(),
                first_mod_at(self.mods@, strs(path@)) == first_mod_from(self.mods@, strs(path@), i as int),
            decreases self.mods@.len() - i,
        {
            if strings_equal(&self.mods[i].path, path) {
                return Some(i);
            }
            i = i + 1;
        }
        None
    }

    /// Adds `sym` to the module whose path is the symbol's path without its
    /// last segment.
    pub fn add_symbol(&mut self, sym: Symbol) -> (r: Result<(), ModError>)
        ensures
            final(self).idx == old(self).idx,
            final(self).name == old(self).name,
            final(self).main == old(self).main,
            final(self).deps@ == old(self).deps@,
            final(self).mods@.len() == old(self).mods@.len(),
            match first_mod_at(old(self).mods@, parent_path(strs(sym.path@))) {
                Some(i) => {
                    &&& r is Ok
                    &&& final(self).mods@[i].symbols@ == old(self).mods@[i].symbols@.push(sym)
                    &&& final(self).mods@[i].idx == old(self).mods@[i].idx
                    &&& final(self).mods@[i].ty == old(self).mods@[i].ty
                    &&& final(self).mods@[i].path == old(self).mods@[i].path
                    &&& final(self).mods@[i].name == old(self).mods@[i].name
                    &&& final(self).mods@[i].mods == old(self).mods@[i].mods
                    &&& final(self).mods@[i].uses == old(self).mods@[i].uses
                    &&& forall|j: int| 0 <= j < old(self).mods@.len() && j != i ==> final(self).mods@[j] == old(self).mods@[j]
                },
                None => r is Err && final(self).mods@ == old(self).mods@,
            },
    {
        let mut parent: Vec<String> = Vec::new();
        let mut k: usize = 0;
        while sym.path.len() > 0 && k < sym.path.len() - 1
            invariant
                k <= sym.path@.len(),
                sym.path@.len() == 0 || k < sym.path@.len(),
                parent@ == sym.path@.take(k as int),
            decreases sym.path@.len() - k,
        {
            parent.push(sym.path[k].clone());
            k = k + 1;
        }
        assert(strs(parent@) =~= parent_path(strs(sym.path@)));
        match self.find_mod_index(&parent) {
            Some(i) => {
                let mut m = self.mods.remove(i);
                m.add_symbol(sym);
                self.mods.insert(i, m);
                Ok(())
            },
            None => Err(ModError::NoModAtPath(parent)),
        }
    }
}

} // verus!

verus! {

/// `new` is `old` with `sym` added to the module at the symbol's parent path,
/// or unchanged when it has no such module.
pub open spec fn symbol_added(old: AstCrate, new: AstCrate, sym: Symbol) -> bool {
    &&& new.idx == old.idx
    &&& new.name == old.name
    &&& new.main == old.main
    &&& new.deps@ == old.deps@
    &&& new.mods@.len() == old.mods@.len()
    &&& match first_mod_at(old.mods@, parent_path(strs(sym.path@))) {
        Some(i) => {
            &&& new.mods@[i].symbols@ == old.mods@[i].symbols@.push(sym)
            &&& new.mods@[i].idx == old.mods@[i].idx
            &&& new.mods@[i].ty == old.mods@[i].ty
            &&& new.mods@[i].path == old.mods@[i].path
            &&& new.mods@[i].name == old.mods@[i].name
            &&& new.mods@[i].mods == old.mods@[i].mods
            &&& new.mods@[i].uses == old.mods@[i].uses
            &&& forall|j: int| 0 <= j < old.mods@.len() && j != i ==> new.mods@[j] == old.mods@[j]
        },
        None => new.mods@ == old.mods@,
    }
}

/// The symbol that stands for a hardcoded engine item: public, at the item's
/// full path.
pub open spec fn is_hardcoded_symbol(s: Symbol, h: HardcodedSymbol) -> bool {
    &&& s.kind == SymbolType::Hardcoded(h)
    &&& strs(s.path@) == seq!["crate"@] + hardcoded_location(h).1 + seq![hardcoded_location(h).2]
    &&& s.public
}

impl AstCrate {
    /// Adds the symbol of a hardcoded engine item to the crate that defines
    /// it; fails when that crate is unknown. Whether a module took the symbol
    /// is not reported.
    pub fn add_hardcoded_symbol(crates: &mut Crates, sym: HardcodedSymbol) -> (r: Result<(), CratesError>)
        ensures
            ({
                let idx = old(crates).index_of(hardcoded_location(sym).0);
                &&& final(crates).row_count() == old(crates).row_count()
                &&& forall|i: int, j: int| #[trigger] final(crates).entry(i, j) == old(crates).entry(i, j)
                &&& forall|c: Crate| #[trigger] final(crates).index_of(c) == old(crates).index_of(c)
                &&& idx >= old(crates).crate_list().len() ==> r == Err::<(), CratesError>(CratesError::NoCrate(idx))
                    && final(crates).crate_list() == old(crates).crate_list()
                &&& idx < old(crates).crate_list().len() ==> {
                    &&& r is Ok
                    &&& final(crates).crate_list().len() == old(crates).crate_list().len()
                    &&& forall|k: int| 0 <= k < old(crates).crate_list().len() && k != idx
                        ==> #[trigger] final(crates).crate_list()[k] == old(crates).crate_list()[k]
                    &&& exists|s: Symbol| is_hardcoded_symbol(s, sym)
                        && symbol_added(old(crates).crate_list()[idx as int], final(crates).crate_list()[idx as int], s)
                }
            }),
    {
        let path = sym.get_path();
        let full = path.full_path();
        let symbol = Symbol { kind: SymbolType::Hardcoded(sym), path: full, public: true };
        proof {
            lemma_strs_index(full@);
            lemma_strs_index(path.path@);
            let want = seq!["crate"@] + hardcoded_location(sym).1 + seq![hardcoded_location(sym).2];
            assert forall|k: int| 0 <= k < strs(full@).len() implies #[trigger] strs(full@)[k] == want[k] by {
                if 1 <= k <= path.path@.len() {
                    assert(full@[(k - 1) + 1] == path.path@[k - 1]);
                }
            }
            assert(strs(full@) =~= want);
        }
        let ghost idx = crates.index_of(path.cr);
        let found = crates.get_crate_mut(path.cr);
        match found {
            Ok(cr) => {
                let ghost before = *cr;
                let ghost s = symbol;
                let _ = cr.add_symbol(symbol);
                assert(is_hardcoded_symbol(s, sym) && symbol_added(before, *cr, s));
                Ok(())
            },
            Err(e) => Err(e),
        }
    }
}

} // verus!

verus! {

/// A dependency as found on disk: its name, its path as written in the
/// manifest, and the canonical directory it points to.
#[derive(Debug)]
pub struct FoundDependency {
    pub name: String,
    pub path: String,
    pub dir: String,
}

/// The first crate whose directory is `dir`.
pub open spec fn crate_position(dirs: Seq<String>, dir: Seq<char>, k: int) -> Option<int>
    decreases dirs.len() - k,
{
    if k < 0 || k >= dirs.len() {
        None
    } else if dirs[k]@ == dir {
        Some(k)
    } else {
        crate_position(dirs, dir, k + 1)
    }
}

/// The crate index and alias of each dependency, and the paths of the crates
/// to add: a dependency on a known directory takes that crate's index, any
/// other gets the index of a new crate appended after the known ones.
pub open spec fn dependency_indices(dirs: Seq<String>, deps: Seq<FoundDependency>) -> (Seq<(usize, Seq<char>)>, Seq<Seq<char>>)
    decreases deps.len(),
{
    if deps.len() == 0 {
        (Seq::empty(), Seq::empty())
    } else {
        let (idxs, new_deps) = dependency_indices(dirs, deps.drop_last());
        let d = deps.last();
        match crate_position(dirs, d.dir@, 0) {
            Some(i) => (idxs.push((i as usize, d.name@)), new_deps),
            None => (idxs.push(((dirs.len() + new_deps.len()) as usize, d.name@)), new_deps.push(d.path@)),
        }
    }
}

proof fn lemma_dependency_indices_len(dirs: Seq<String>, deps: Seq<FoundDependency>)
    ensures
        dependency_indices(dirs, deps).1.len() <= deps.len(),
    decreases deps.len(),
{
    if deps.len() > 0 {
        lemma_dependency_indices_len(dirs, deps.drop_last());
    }
}

fn position_of(dirs: &Vec<String>, dir: &String) -> (r: Option<usize>)
    ensures
        match crate_position(dirs@, dir@, 0) {
            Some(i) => r is Some && r->0 == i,
            None => r is None,
        },
{
    let mut k: usize = 0;
    while k < dirs.len()
        invariant
            k <= dirs@.len(),
            crate_position(dirs@, dir@, 0) == crate_position(dirs@, dir@, k as int),
        decreases dirs@.len() - k,
    {
        if dirs[k] == *dir {
            return Some(k);
        }
        k = k + 1;
    }
    None
}

/// The message that reports a named crate missing from the crate tree.
pub open spec fn missing_crate_msg(which: Seq<char>, dir: Seq<char>) -> Seq<char> {
    "Could not find "@ + which + " crate: '"@ + dir + "'"@
}

impl AstCrate {
    /// The indices of the main crate (the entry crate, index 0), the engine
    /// crate and the macros crate, found among the crates by their
    /// directories; fails on the first of the engine and macros crates that
    /// is missing.
    pub fn named_crate_indices(crate_dirs: &Vec<String>, engine_dir: &String, macros_dir: &String) -> (r: Result<[usize; 3], String>)
        ensures
            match (crate_position(crate_dirs@, engine_dir@, 0), crate_position(crate_dirs@, macros_dir@, 0)) {
                (Some(e), Some(m)) => r matches Ok(a) && a@ == seq![0usize, e as usize, m as usize],
                (None, _) => r matches Err(msg) && msg@ == missing_crate_msg("engine"@, engine_dir@),
                (Some(_), None) => r matches Err(msg) && msg@ == missing_crate_msg("macros"@, macros_dir@),
            },
    {
        let engine = position_of(crate_dirs, engine_dir);
        let e = match engine {
            Some(e) => e,
            None => {
                let mut msg = String::from_str("Could not find engine crate: '");
                msg.append(engine_dir.as_str());
                msg.append("'");
                proof {
                    reveal_strlit("Could not find engine crate: '");
                    reveal_strlit("Could not find ");
                    reveal_strlit("engine");
                    reveal_strlit(" crate: '");
                    reveal_strlit("'");
                    assert(msg@ =~= missing_crate_msg("engine"@, engine_dir@));
                }
                return Err(msg);
            },
        };
        let macros = position_of(crate_dirs, macros_dir);
        let m = match macros {
            Some(m) => m,
            None => {
                let mut msg = String::from_str("Could not find macros crate: '");
                msg.append(macros_dir.as_str());
                msg.append("'");
                proof {
                    reveal_strlit("Could not find macros crate: '");
                    reveal_strlit("Could not find ");
                    reveal_strlit("macros");
                    reveal_strlit(" crate: '");
                    reveal_strlit("'");
                    assert(msg@ =~= missing_crate_msg("macros"@, macros_dir@));
                }
                return Err(msg);
            },
        };
        let a = [0usize, e, m];
        assert(a@ =~= seq![0usize, e, m]);
        Ok(a)
    }

    /// The crate index and alias of each dependency, given the directories of
    /// the crates known so far, and the paths of the crates to add.
    pub fn get_crate_dependencies(crate_dirs: &Vec<String>, deps: Vec<FoundDependency>) -> (r: (Vec<(usize, String)>, Vec<String>))
        requires
            crate_dirs@.len() + deps@.len() <= usize::MAX,
        ensures
            ({
                let (idxs, new_deps) = dependency_indices(crate_dirs@, deps@);
                &&& r.0@.map_values(|e: (usize, String)| (e.0, e.1@)) == idxs
                &&& strs(r.1@) == new_deps
            }),
    {
        let ghost all = deps@;
        let mut cr_deps: Vec<(usize, String)> = Vec::new();
        let mut new_deps: Vec<String> = Vec::new();
        for d in it: deps
            invariant
                it.seq() == all,
                crate_dirs@.len() + all.len() <= usize::MAX,
                ({
                    let (idxs, nd) = dependency_indices(crate_dirs@, all.take(it.index() as int));
                    &&& cr_deps@.map_values(|e: (usize, String)| (e.0, e.1@)) == idxs
                    &&& strs(new_deps@) == nd
                }),
                new_deps@.len() <= it.index(),
        {
            let ghost i = it.index() as int;
            proof {
                assert(all.take(i + 1).drop_last() == all.take(i));
                assert(all.take(i + 1).last() == d);
            }
            let found = position_of(crate_dirs, &d.dir);
            let ghost before_c = cr_deps@;
            let ghost before_n = new_deps@;
            match found {
                Some(i) => {
                    cr_deps.push((i, d.name));
                },
                None => {
                    new_deps.push(d.path);
                    let idx = crate_dirs.len() + new_deps.len() - 1;
                    cr_deps.push((idx, d.name));
                    assert(strs(new_deps@) =~= strs(before_n).push(new_deps@.last()@));
                },
            }
            assert(cr_deps@.map_values(|e: (usize, String)| (e.0, e.1@)) =~= before_c.map_values(|e: (usize, String)| (e.0, e.1@)).push((cr_deps@.last().0, cr_deps@.last().1@)));
        }
        assert(all.take(all.len() as int) == all);
        (cr_deps, new_deps)
    }
}

} // verus!

verus! {

/// A module to add: its name, its own new modules, its `use` items and its
/// symbols.
#[derive(Debug)]
pub struct NewMod {
    pub name: String,
    pub mods: Vec<NewMod>,
    pub uses: Vec<AstUse>,
    pub symbols: Vec<Symbol>,
}

/// The number of modules in a tree of new modules.
pub open spec fn tree_size(m: NewMod) -> nat
    decreases m,
{
    1 + trees_size(m.mods@)
}

pub open spec fn trees_size(ms: Seq<NewMod>) -> nat
    decreases ms,
{
    if ms.len() == 0 {
        0
    } else {
        trees_size(ms.drop_last()) + tree_size(ms.last())
    }
}

/// The indices that the roots of the trees `ms` get when their modules are
/// numbered from `start` on, each tree after its children.
pub open spec fn tree_roots(ms: Seq<NewMod>, start: int) -> Seq<usize>
    decreases ms.len(),
{
    if ms.len() == 0 {
        Seq::empty()
    } else {
        tree_roots(ms.drop_last(), start).push((start + trees_size(ms.drop_last()) + tree_size(ms.last()) - 1) as usize)
    }
}

/// What `add_mod` records of a module: its index, kind, name, path, child
/// indices, `use` items and symbols.
pub open spec fn mod_shape(m: AstMod) -> (int, AstModType, String, Seq<Seq<char>>, Seq<usize>, Vec<AstUse>, Vec<Symbol>) {
    (m.idx as int, m.ty, m.name, strs(m.path@), m.mods@, m.uses, m.symbols)
}

/// The modules made from the tree `d` under a module at path `parent`,
/// numbered from `start` on, each after its children: a new module lists the
/// indices of its children's roots.
pub open spec fn built_mods(d: NewMod, start: int, parent: Seq<Seq<char>>)
    -> Seq<(int, AstModType, String, Seq<Seq<char>>, Seq<usize>, Vec<AstUse>, Vec<Symbol>)>
    decreases d,
{
    let path = parent.push(d.name@);
    built_list(d.mods@, start, path).push(
        (start + trees_size(d.mods@), AstModType::Internal, d.name, path, tree_roots(d.mods@, start), d.uses, d.symbols),
    )
}

/// The modules made from the trees `ms`, one after another, numbered from
/// `start` on.
pub open spec fn built_list(ms: Seq<NewMod>, start: int, parent: Seq<Seq<char>>)
    -> Seq<(int, AstModType, String, Seq<Seq<char>>, Seq<usize>, Vec<AstUse>, Vec<Symbol>)>
    decreases ms,
{
    if ms.len() == 0 {
        Seq::empty()
    } else {
        built_list(ms.drop_last(), start, parent) + built_mods(ms.last(), start + trees_size(ms.drop_last()), parent)
    }
}

pub open spec fn mod_shapes(v: Seq<AstMod>) -> Seq<(int, AstModType, String, Seq<Seq<char>>, Seq<usize>, Vec<AstUse>, Vec<Symbol>)> {
    v.map_values(|m: AstMod| mod_shape(m))
}

impl AstMod {
    /// Adds the tree `data` as a child of this module, numbering its modules
    /// from `num_mods` on (each after its children); returns the new modules
    /// in that order.
    pub fn add_mod(&mut self, num_mods: usize, data: NewMod) -> (r: Vec<AstMod>)
        requires
            num_mods + tree_size(data) <= usize::MAX,
        ensures
            r@.len() == tree_size(data),
            forall|i: int| 0 <= i < r@.len() ==> #[trigger] r@[i].idx == num_mods + i,
            r@.last().name == data.name,
            strs(r@.last().path@) == strs(old(self).path@).push(data.name@),
            r@.last().ty == AstModType::Internal,
            r@.last().uses == data.uses,
            r@.last().symbols == data.symbols,
            r@.last().mods@ == tree_roots(data.mods@, num_mods as int),
            mod_shapes(r@) == built_mods(data, num_mods as int, strs(old(self).path@)),
            final(self).mods@ == old(self).mods@.push((num_mods + tree_size(data) - 1) as usize),
            final(self).idx == old(self).idx,
            final(self).ty == old(self).ty,
            final(self).path == old(self).path,
            final(self).name == old(self).name,
            final(self).uses == old(self).uses,
            final(self).symbols == old(self).symbols,
        decreases data,
    {
        let ghost d = data;
        let NewMod { name, mods: children, uses, symbols } = data;
        let mut path = self.path.clone();
        assert(path@ =~= self.path@);
        let ghost p0 = path@;
        path.push(name.clone());
        assert(strs(path@) =~= strs(p0).push(name@));
        let mut new_mod = AstMod::new(0, path, name, AstModType::Internal);
        new_mod.symbols = symbols;
        new_mod.uses = uses;
        let ghost all = children@;
        let mut out: Vec<AstMod> = Vec::new();
        let mut n = num_mods;
        for m in it: children
            invariant
                it.seq() == all,
                d == data,
                data == (NewMod { name: data.name, mods: data.mods, uses: data.uses, symbols: data.symbols }),
                d.mods@ == all,
                num_mods + tree_size(d) <= usize::MAX,
                tree_size(d) == 1 + trees_size(all),
                n == num_mods + trees_size(all.take(it.index() as int)),
                out@.len() == trees_size(all.take(it.index() as int)),
                forall|i: int| 0 <= i < out@.len() ==> #[trigger] out@[i].idx == num_mods + i,
                mod_shapes(out@) == built_list(all.take(it.index() as int), num_mods as int, strs(self.path@).push(d.name@)),
                new_mod.mods@ == tree_roots(all.take(it.index() as int), num_mods as int),
                new_mod.name == d.name,
                strs(new_mod.path@) == strs(self.path@).push(d.name@),
                new_mod.ty == AstModType::Internal,
                new_mod.uses == d.uses,
                new_mod.symbols == d.symbols,
        {
            let ghost i = it.index() as int;
            proof {
                assert(all.take(i + 1).drop_last() == all.take(i));
                assert(all.take(i + 1).last() == m);
                assert(decreases_to!(data => m)) by {
                    assert(m == data.mods@[i]);
                }
                lemma_trees_size_prefix(all, i + 1);
            }
            let child = new_mod.add_mod(n, m);
            let ghost before = out@;
            let ghost child_v = child@;
            let count = child.len();
            let mut child = child;
            out.append(&mut child);
            n = n + count;
            assert(mod_shapes(out@) =~= mod_shapes(before) + mod_shapes(child_v));
            assert forall|j: int| 0 <= j < out@.len() implies #[trigger] out@[j].idx == num_mods + j by {
                if j >= before.len() {
                    assert(out@[j] == child_v[j - before.len()]);
                }
            }
        }
        assert(all.take(all.len() as int) == all);
        new_mod.idx = n;
        self.mods.push(n);
        let ghost before = out@;
        out.push(new_mod);
        assert(mod_shapes(out@) =~= mod_shapes(before).push(mod_shape(new_mod)));
        out
    }
}

/// The `use` item by which the namespace module re-exports a dependency:
/// public, its alias alone.
pub open spec fn is_alias_use(u: AstUse, alias: Seq<char>) -> bool {
    &&& u.ident@ == alias
    &&& u.first@ == alias
    &&& strs(u.path@) == seq![alias]
    &&& u.public
}

impl AstCrate {
    /// Adds the namespace module under the crate's main module, as the last
    /// module of the crate: it re-exports each dependency by its alias.
    pub fn add_namespace_mod(&mut self) -> (r: Result<(), ModError>)
        requires
            old(self).mods@.len() < usize::MAX,
        ensures
            old(self).main >= old(self).mods@.len()
                ==> (r matches Err(ModError::NoMod(j)) && j == old(self).main && *final(self) == *old(self)),
            old(self).main < old(self).mods@.len() ==> {
                let n = old(self).mods@.len() as int;
                let main = old(self).main as int;
                let ns = final(self).mods@[n];
                &&& r is Ok
                &&& final(self).idx == old(self).idx
                &&& final(self).name == old(self).name
                &&& final(self).main == old(self).main
                &&& final(self).deps@ == old(self).deps@
                &&& final(self).mods@.len() == n + 1
                &&& forall|j: int| 0 <= j < n && j != main ==> final(self).mods@[j] == old(self).mods@[j]
                &&& final(self).mods@[main].mods@ == old(self).mods@[main].mods@.push(n as usize)
                &&& final(self).mods@[main].idx == old(self).mods@[main].idx
                &&& final(self).mods@[main].ty == old(self).mods@[main].ty
                &&& final(self).mods@[main].path == old(self).mods@[main].path
                &&& final(self).mods@[main].name == old(self).mods@[main].name
                &&& final(self).mods@[main].uses == old(self).mods@[main].uses
                &&& final(self).mods@[main].symbols == old(self).mods@[main].symbols
                &&& ns.idx == n
                &&& ns.name@ == namespace()
                &&& strs(ns.path@) == strs(old(self).mods@[main].path@).push(namespace())
                &&& ns.ty == AstModType::Internal
                &&& ns.mods@.len() == 0
                &&& ns.symbols@.len() == 0
                &&& ns.uses@.len() == old(self).deps@.len()
                &&& forall|k: int| 0 <= k < ns.uses@.len() ==> is_alias_use(#[trigger] ns.uses@[k], old(self).deps@[k].1@)
            },
    {
        if self.main >= self.mods.len() {
            return Err(ModError::NoMod(self.main));
        }
        let mut uses: Vec<AstUse> = Vec::new();
        let mut k: usize = 0;
        while k < self.deps.len()
            invariant
                k <= self.deps@.len(),
                uses@.len() == k,
                forall|t: int| 0 <= t < k ==> is_alias_use(#[trigger] uses@[t], self.deps@[t].1@),
            decreases self.deps@.len() - k,
        {
            let a = self.deps[k].1.clone();
            let p = vec![a.clone()];
            assert(strs(p@) =~= seq![a@]);
            uses.push(AstUse { ident: a.clone(), first: a.clone(), path: p, public: true });
            k = k + 1;
        }
        let name = String::from_str("_engine");
        proof {
            reveal_strlit("_engine");
        }
        let data = NewMod { name, mods: Vec::new(), uses, symbols: Vec::new() };
        assert(tree_size(data) == 1) by {
            assert(trees_size(data.mods@) == 0);
        }
        assert(tree_roots(data.mods@, self.mods@.len() as int) =~= Seq::<usize>::empty());
        let n = self.mods.len();
        let main = self.main;
        let ghost before = self.mods@;
        let mut m = self.mods.remove(main);
        let mut new_mods = m.add_mod(n, data);
        self.mods.insert(main, m);
        assert(self.mods@ =~= before.update(main as int, m));
        self.mods.append(&mut new_mods);
        Ok(())
    }
}

proof fn lemma_trees_size_prefix(ms: Seq<NewMod>, k: int)
    requires
        0 <= k <= ms.len(),
    ensures
        trees_size(ms.take(k)) <= trees_size(ms),
    decreases ms.len() - k,
{
    if k < ms.len() {
        lemma_trees_size_prefix(ms, k + 1);
        assert(ms.take(k + 1).drop_last() == ms.take(k));
    } else {
        assert(ms.take(k) == ms);
    }
}

} // verus!
