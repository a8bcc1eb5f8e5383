use vstd::prelude::*;

use crate::parse::ast_crate::{AstMod, AstModType};
use crate::parse::attributes::{ast_attr_views, item_attributes, read_item_attributes, AstAttribute, AttrMeta};
use crate::parse::find_path::strs;
use crate::parse::tokens::{Delimiter, TokenTree};
use crate::component_set::parse::{GenericArg, TypeShape};
use crate::resolve::function_arg::SigInput;

verus! {

/// The kinds of named items that can carry engine attributes.
#[derive(Clone, Copy, Debug, PartialEq, Eq, Structural)]
pub enum ItemKind {
    Fn,
    Struct,
    Enum,
}

/// An item of a Rust source file, as far as the module reader looks at it:
/// a module (with its items when they are written inline), a function,
/// struct or enum with its name (and, for a function, the parameters of its
/// signature), or anything else. Attributes are kept as their path and what
/// follows it.
#[derive(Debug)]
pub enum FileItem {
    Mod { name: String, attrs: Vec<(Vec<String>, AttrMeta)>, content: Option<Vec<FileItem>> },
    Named { kind: ItemKind, name: String, attrs: Vec<(Vec<String>, AttrMeta)>, inputs: Vec<SigInput> },
    Other,
}

/// `syn::Item`, an item of a parsed file, carried opaque until converted.
#[verifier::external_type_specification]
#[verifier::external_body]
pub struct ExSynItem(syn::Item);

/// `syn::ItemMod`, a module item, carried opaque until converted.
#[verifier::external_type_specification]
#[verifier::external_body]
pub struct ExSynItemMod(syn::ItemMod);

/// `syn::Meta`, what an attribute holds, carried opaque until converted.
#[verifier::external_type_specification]
#[verifier::external_body]
pub struct ExSynMeta(syn::Meta);

/// `syn::Signature`, a function signature, carried opaque until converted.
#[verifier::external_type_specification]
#[verifier::external_body]
pub struct ExSynSignature(syn::Signature);

/// `syn::Type`, a written type, carried opaque until converted.
#[verifier::external_type_specification]
#[verifier::external_body]
pub struct ExSynType(syn::Type);

/// `syn::Path`, a written path, carried opaque until converted.
#[verifier::external_type_specification]
#[verifier::external_body]
pub struct ExSynPath(syn::Path);

/// `syn::GenericArgument`, carried opaque until converted.
#[verifier::external_type_specification]
#[verifier::external_body]
pub struct ExSynGenericArgument(syn::GenericArgument);

/// `syn::TypeTraitObject`, carried opaque until converted.
#[verifier::external_type_specification]
#[verifier::external_body]
pub struct ExSynTypeTraitObject(syn::TypeTraitObject);

/// `proc_macro2::TokenStream`, carried opaque until converted.
#[verifier::external_type_specification]
#[verifier::external_body]
pub struct ExTokenStream(proc_macro2::TokenStream);

/// `proc_macro2::Group`, a delimited group, carried opaque until converted.
#[verifier::external_type_specification]
#[verifier::external_body]
pub struct ExTokenGroup(proc_macro2::Group);

/// The items that `syn::parse_file` reads from a file's text, as plain data,
/// or none when the text is not a Rust file.
pub uninterp spec fn rust_file(text: Seq<char>) -> Option<Seq<FileItem>>;

/// A delimited group as plain data.
#[verifier::external_body]
fn group_tree(g: proc_macro2::Group) -> TokenTree {
    let delim = match g.delimiter() {
        proc_macro2::Delimiter::Parenthesis => Delimiter::Parenthesis,
        proc_macro2::Delimiter::Brace => Delimiter::Brace,
        proc_macro2::Delimiter::Bracket => Delimiter::Bracket,
        proc_macro2::Delimiter::None => Delimiter::Invisible,
    };
    TokenTree::Group { delim, stream: token_list(g.stream()) }
}

/// A token stream as plain data, token by token.
#[verifier::external_body]
fn token_list(ts: proc_macro2::TokenStream) -> Vec<TokenTree> {
    ts.into_iter().map(|t| match t {
        proc_macro2::TokenTree::Group(g) => group_tree(g),
        proc_macro2::TokenTree::Ident(i) => TokenTree::Ident(i.to_string()),
        proc_macro2::TokenTree::Punct(p) => TokenTree::Punct { ch: p.as_char(), joint: p.spacing() == proc_macro2::Spacing::Joint },
        proc_macro2::TokenTree::Literal(l) => TokenTree::Literal(l.to_string()),
    }).collect()
}

/// An attribute as plain data: the identifiers of its path, and the list
/// that follows the path as text and as tokens.
#[verifier::external_body]
fn attr_parts(meta: syn::Meta) -> (Vec<String>, AttrMeta) {
    let path = meta.path().segments.iter().map(|s| s.ident.to_string()).collect();
    let data = match meta {
        syn::Meta::Path(_) => AttrMeta::Path,
        syn::Meta::List(l) => {
            let ts = quote::ToTokens::to_token_stream(&l);
            AttrMeta::List { text: ts.to_string(), tokens: token_list(ts) }
        },
        syn::Meta::NameValue(_) => AttrMeta::NameValue,
    };
    (path, data)
}

/// The identifiers of a path's segments.
#[verifier::external_body]
fn segment_names(p: syn::Path) -> Vec<String> {
    p.segments.into_iter().map(|s| s.ident.to_string()).collect()
}

/// A generic argument as plain data.
#[verifier::external_body]
fn generic_arg(a: syn::GenericArgument) -> GenericArg {
    match a {
        syn::GenericArgument::Type(t) => GenericArg::Type(type_shape(t)),
        _ => GenericArg::Other,
    }
}

/// A path type as plain data: its segments, and the generic arguments of its
/// last segment when they are in angle brackets.
#[verifier::external_body]
fn path_shape(p: syn::Path) -> TypeShape {
    let generics = match p.segments.last().map(|s| &s.arguments) {
        Some(syn::PathArguments::AngleBracketed(ab)) => Some(ab.args.iter().cloned().map(generic_arg).collect()),
        _ => None,
    };
    TypeShape::Path { path: segment_names(p), generics }
}

/// A trait object as plain data: each bound's trait path, or none.
#[verifier::external_body]
fn trait_object(t: syn::TypeTraitObject, text: String) -> TypeShape {
    let bounds = t.bounds.into_iter().map(|b| match b {
        syn::TypeParamBound::Trait(tr) => Some(segment_names(tr.path)),
        _ => None,
    });
    TypeShape::TraitObject { bounds: bounds.collect(), text }
}

/// A written type as plain data.
#[verifier::external_body]
fn type_shape(ty: syn::Type) -> TypeShape {
    let text = quote::ToTokens::to_token_stream(&ty).to_string();
    match ty {
        syn::Type::Path(p) => path_shape(p.path),
        syn::Type::Reference(r) => TypeShape::Reference { mutable: r.mutability.is_some(), elem: Box::new(type_shape(*r.elem)) },
        syn::Type::TraitObject(t) => trait_object(t, text),
        _ => TypeShape::Other(text),
    }
}

/// A signature's parameters as plain data.
#[verifier::external_body]
fn sig_inputs(sig: syn::Signature) -> Vec<SigInput> {
    sig.inputs.into_iter().map(|i| match i {
        syn::FnArg::Receiver(_) => SigInput::Receiver,
        syn::FnArg::Typed(pt) => SigInput::Typed(type_shape(*pt.ty)),
    }).collect()
}

/// A module item as plain data.
#[verifier::external_body]
fn mod_item(m: syn::ItemMod) -> FileItem {
    FileItem::Mod {
        name: m.ident.to_string(),
        attrs: m.attrs.into_iter().map(|a| attr_parts(a.meta)).collect(),
        content: m.content.map(|c| c.1.into_iter().map(file_item).collect()),
    }
}

/// An item as plain data.
#[verifier::external_body]
fn file_item(i: syn::Item) -> FileItem {
    let (kind, ident, attrs, inputs) = match i {
        syn::Item::Mod(m) => return mod_item(m),
        syn::Item::Fn(f) => (ItemKind::Fn, f.sig.ident.clone(), f.attrs, sig_inputs(f.sig)),
        syn::Item::Struct(s) => (ItemKind::Struct, s.ident, s.attrs, Vec::new()),
        syn::Item::Enum(e) => (ItemKind::Enum, e.ident, e.attrs, Vec::new()),
        _ => return FileItem::Other,
    };
    let attrs = attrs.into_iter().map(|a| attr_parts(a.meta)).collect();
    FileItem::Named { kind, name: ident.to_string(), attrs, inputs }
}

/// Parses a file's text with `syn::parse_file`: its items as plain data, or
/// none when the text does not parse. Which texts parse, and to what, is left
/// to the name `rust_file`.
#[verifier::external_body]
fn parse_rust_file(text: &str) -> (r: Option<Vec<FileItem>>)
    ensures
        match r {
            Some(v) => rust_file(text@) == Some(v@),
            None => rust_file(text@) is None,
        },
{
    match syn::parse_file(text) {
        Ok(f) => Some(f.items.into_iter().map(file_item).collect()),
        Err(_) => None,
    }
}

/// A named item kept in a module: its kind, its name, its path (the
/// module's path and the name), its engine attributes, and the parameters of
/// its signature (none but for a function).
#[derive(Debug)]
pub struct ParsedItem {
    pub kind: ItemKind,
    pub ident: String,
    pub path: Vec<String>,
    pub attrs: Vec<AstAttribute>,
    pub inputs: Vec<SigInput>,
}

/// A child module: one written inline, read already, or one that lives in a
/// file of its own, still to be read, given by its path.
#[derive(Debug)]
pub enum ModEntry {
    Inline(ParsedMod),
    File(Vec<String>),
}

/// A module read from source: its kind, name and path, its kept items, its
/// child modules in the order written, and the errors met reading attributes.
#[derive(Debug)]
pub struct ParsedMod {
    pub ty: AstModType,
    pub name: String,
    pub path: Vec<String>,
    pub items: Vec<ParsedItem>,
    pub mods: Vec<ModEntry>,
    pub errs: Vec<String>,
}

/// The mathematical form of a kept item.
pub struct SpecItem {
    pub kind: ItemKind,
    pub ident: Seq<char>,
    pub path: Seq<Seq<char>>,
    pub attrs: Seq<(Seq<Seq<char>>, Seq<TokenTree>)>,
    pub inputs: Seq<SigInput>,
}

/// The mathematical form of a child module.
pub enum SpecEntry {
    Inline(SpecMod),
    File(Seq<Seq<char>>),
}

/// The mathematical form of a module read from source.
pub struct SpecMod {
    pub ty: AstModType,
    pub name: Seq<char>,
    pub path: Seq<Seq<char>>,
    pub items: Seq<SpecItem>,
    pub mods: Seq<SpecEntry>,
    pub errs: Seq<Seq<char>>,
}

impl ParsedItem {
    pub open spec fn view(self) -> SpecItem {
        SpecItem { kind: self.kind, ident: self.ident@, path: strs(self.path@), attrs: ast_attr_views(self.attrs@), inputs: self.inputs@ }
    }
}

pub open spec fn item_views(v: Seq<ParsedItem>) -> Seq<SpecItem> {
    v.map_values(|i: ParsedItem| i.view())
}

impl ParsedMod {
    pub open spec fn view(self) -> SpecMod
        decreases self,
    {
        SpecMod {
            ty: self.ty,
            name: self.name@,
            path: strs(self.path@),
            items: item_views(self.items@),
            mods: entry_views(self.mods@),
            errs: strs(self.errs@),
        }
    }
}

pub open spec fn entry_views(v: Seq<ModEntry>) -> Seq<SpecEntry>
    decreases v,
{
    if v.len() == 0 {
        Seq::empty()
    } else {
        entry_views(v.drop_last()).push(
            match v.last() {
                ModEntry::Inline(m) => SpecEntry::Inline(m.view()),
                ModEntry::File(p) => SpecEntry::File(strs(p@)),
            },
        )
    }
}

/// What a module at `path` keeps of its items, read in order: each function,
/// struct or enum that is switched on and carries an engine attribute; each
/// module that is switched on, inline ones read in turn (as internal
/// modules), the others left to be read from their files; and the errors met
/// reading attributes, an item with such errors being dropped. Other items
/// are passed over.
pub open spec fn read_items(items: Seq<FileItem>, path: Seq<Seq<char>>, features: Seq<Seq<char>>)
    -> (Seq<SpecItem>, Seq<SpecEntry>, Seq<Seq<char>>)
    decreases items,
{
    if items.len() == 0 {
        (Seq::empty(), Seq::empty(), Seq::empty())
    } else {
        let (is, ms, es) = read_items(items.drop_last(), path, features);
        match items.last() {
            FileItem::Named { kind, name, attrs, inputs } => match item_attributes(attrs@, features) {
                Err(e) => (is, ms, es + e),
                Ok(None) => (is, ms, es),
                Ok(Some(a)) => if a.len() == 0 {
                    (is, ms, es)
                } else {
                    (is.push(SpecItem { kind, ident: name@, path: path.push(name@), attrs: a, inputs: inputs@ }), ms, es)
                },
            },
            FileItem::Mod { name, attrs, content } => match item_attributes(attrs@, features) {
                Err(e) => (is, ms, es + e),
                Ok(None) => (is, ms, es),
                Ok(Some(_)) => match content {
                    Some(c) => {
                        let p = path.push(name@);
                        let (ci, cm, ce) = read_items(c@, p, features);
                        let m = SpecMod { ty: AstModType::Internal, name: name@, path: p, items: ci, mods: cm, errs: ce };
                        (is, ms.push(SpecEntry::Inline(m)), es)
                    },
                    None => (is, ms.push(SpecEntry::File(path.push(name@))), es),
                },
            },
            FileItem::Other => (is, ms, es),
        }
    }
}

proof fn lemma_strs_append(a: Seq<String>, b: Seq<String>)
    ensures
        strs(a + b) == strs(a) + strs(b),
{
    assert(strs(a + b) =~= strs(a) + strs(b));
}

/// Reads the items of the module at `path` (see `read_items`).
fn read_mod_items(items: Vec<FileItem>, path: &Vec<String>, features: &Vec<String>)
    -> (r: (Vec<ParsedItem>, Vec<ModEntry>, Vec<String>))
    ensures
        (item_views(r.0@), entry_views(r.1@), strs(r.2@)) == read_items(items@, strs(path@), strs(features@)),
    decreases items,
{
    let ghost all = items@;
    let ghost p = strs(path@);
    let ghost f = strs(features@);
    let mut out: Vec<ParsedItem> = Vec::new();
    let mut mods: Vec<ModEntry> = Vec::new();
    let mut errs: Vec<String> = Vec::new();
    let mut rest = items;
    assert(item_views(out@) =~= Seq::<SpecItem>::empty());
    assert(strs(errs@) =~= Seq::<Seq<char>>::empty());
    proof {
        assert(all.take(0) =~= Seq::<FileItem>::empty());
    }
    for item in it: rest
        invariant
            it.seq() == all,
            all == items@,
            p == strs(path@),
            f == strs(features@),
            (item_views(out@), entry_views(mods@), strs(errs@)) == read_items(all.take(it.index() as int), p, f),
    {
        let ghost k = it.index() as int;
        proof {
            assert(all.take(k + 1).drop_last() == all.take(k));
            assert(all.take(k + 1).last() == item);
        }
        let ghost before_out = out@;
        let ghost before_mods = mods@;
        let ghost before_errs = errs@;
        match item {
            FileItem::Named { kind, name, attrs, inputs } => {
                match read_item_attributes(attrs, features) {
                    Err(e) => {
                        let mut e = e;
                        errs.append(&mut e);
                        proof { lemma_strs_append(before_errs, e@); }
                    },
                    Ok(None) => {},
                    Ok(Some(a)) => {
                        if a.len() > 0 {
                            let mut ipath = path.clone();
                            assert(ipath@ =~= path@);
                            ipath.push(name.clone());
                            assert(strs(ipath@) =~= p.push(name@));
                            out.push(ParsedItem { kind, ident: name, path: ipath, attrs: a, inputs });
                            assert(item_views(out@) =~= item_views(before_out).push(out@.last().view()));
                        } else {
                            assert(ast_attr_views(a@).len() == 0);
                        }
                    },
                }
            },
            FileItem::Mod { name, attrs, content } => {
                match read_item_attributes(attrs, features) {
                    Err(e) => {
                        let mut e = e;
                        errs.append(&mut e);
                        proof { lemma_strs_append(before_errs, e@); }
                    },
                    Ok(None) => {},
                    Ok(Some(_)) => {
                        let mut mpath = path.clone();
                        assert(mpath@ =~= path@);
                        mpath.push(name.clone());
                        assert(strs(mpath@) =~= p.push(name@));
                        match content {
                            Some(c) => {
                                proof {
                                    assert(decreases_to!(items => c)) by {
                                        assert(item == items@[k]);
                                    }
                                }
                                let (ci, cm, ce) = read_mod_items(c, &mpath, features);
                                let m = ParsedMod { ty: AstModType::Internal, name, path: mpath, items: ci, mods: cm, errs: ce };
                                let ghost sm = SpecMod { ty: AstModType::Internal, name: m.name@, path: p.push(m.name@), items: item_views(ci@), mods: entry_views(cm@), errs: strs(ce@) };
                                assert(m.view() == sm);
                                mods.push(ModEntry::Inline(m));
                                assert(mods@.drop_last() == before_mods);
                                assert(entry_views(mods@) == entry_views(before_mods).push(SpecEntry::Inline(sm)));
                            },
                            None => {
                                mods.push(ModEntry::File(mpath));
                                assert(mods@.drop_last() == before_mods);
                            },
                        }
                    },
                }
            },
            FileItem::Other => {},
        }
    }
    proof {
        assert(all.take(all.len() as int) == all);
    }
    (out, mods, errs)
}

/// Why a module's source could not be read.
#[derive(Clone, Copy, Debug, PartialEq, Eq, Structural)]
pub enum ModParseError {
    /// The text is not a Rust file.
    Syntax,
    /// The module's path is empty, so it has no name.
    EmptyPath,
}

/// The module at `path`, of kind `ty`, read from the items of its file.
pub open spec fn mod_from_items(ty: AstModType, path: Seq<Seq<char>>, items: Seq<FileItem>) -> SpecMod {
    let (is, ms, es) = read_items(items, path, Seq::empty());
    SpecMod { ty, name: path.last(), path, items: is, mods: ms, errs: es }
}

/// Reads a module from the items of its file: names the module after the
/// last segment of its path, and keeps its items and child modules as
/// `read_items` says, with no features enabled.
pub fn read_mod(items: Vec<FileItem>, path: Vec<String>, ty: AstModType) -> (r: Result<ParsedMod, ModParseError>)
    ensures
        path@.len() == 0 ==> r == Err::<ParsedMod, ModParseError>(ModParseError::EmptyPath),
        path@.len() > 0 ==> (r matches Ok(m) && m.view() == mod_from_items(ty, strs(path@), items@)),
{
    if path.len() == 0 {
        return Err(ModParseError::EmptyPath);
    }
    let name = path[path.len() - 1].clone();
    let features: Vec<String> = Vec::new();
    assert(strs(features@) =~= Seq::<Seq<char>>::empty());
    let (is, ms, es) = read_mod_items(items, &path, &features);
    let m = ParsedMod { ty, name, path, items: is, mods: ms, errs: es };
    assert(strs(m.path@).last() == m.path@.last()@);
    Ok(m)
}

/// Reads a module from its file's text: parses the text as Rust, then reads
/// the module from the items (see `read_mod`). `use` items and macro calls
/// are not read here.
pub fn parse_mod(text: &str, path: Vec<String>, ty: AstModType) -> (r: Result<ParsedMod, ModParseError>)
    ensures
        rust_file(text@) is None ==> r == Err::<ParsedMod, ModParseError>(ModParseError::Syntax),
        rust_file(text@) is Some && path@.len() == 0 ==> r == Err::<ParsedMod, ModParseError>(ModParseError::EmptyPath),
        rust_file(text@) is Some && path@.len() > 0 ==> (r matches Ok(m) && m.view() == mod_from_items(ty, strs(path@), rust_file(text@)->0)),
{
    match parse_rust_file(text) {
        Some(items) => read_mod(items, path, ty),
        None => Err(ModParseError::Syntax),
    }
}

/// Every item a module keeps carries an engine attribute and sits at the
/// module's path followed by its name; every child module, inline or in its
/// own file, sits at the module's path followed by one more name, and an
/// inline one is an internal module.
pub proof fn law_read_items_paths(items: Seq<FileItem>, path: Seq<Seq<char>>, features: Seq<Seq<char>>)
    ensures
        forall|i: int| 0 <= i < read_items(items, path, features).0.len() ==> {
            let it = #[trigger] read_items(items, path, features).0[i];
            it.path == path.push(it.ident) && it.attrs.len() > 0
        },
        forall|i: int| 0 <= i < read_items(items, path, features).1.len() ==>
            match #[trigger] read_items(items, path, features).1[i] {
                SpecEntry::Inline(m) => m.path == path.push(m.name) && m.ty == AstModType::Internal,
                SpecEntry::File(p) => p.len() == path.len() + 1 && p.drop_last() == path,
            },
    decreases items.len(),
{
    if items.len() > 0 {
        law_read_items_paths(items.drop_last(), path, features);
        let (is, ms, es) = read_items(items.drop_last(), path, features);
        let r = read_items(items, path, features);
        assert forall|i: int| 0 <= i < r.0.len() implies {
            let it = #[trigger] r.0[i];
            it.path == path.push(it.ident) && it.attrs.len() > 0
        } by {
            if i < is.len() {
                assert(r.0[i] == is[i]);
            }
        }
        assert forall|i: int| 0 <= i < r.1.len() implies
            match #[trigger] r.1[i] {
                SpecEntry::Inline(m) => m.path == path.push(m.name) && m.ty == AstModType::Internal,
                SpecEntry::File(p) => p.len() == path.len() + 1 && p.drop_last() == path,
            } by {
            if i < ms.len() {
                assert(r.1[i] == ms[i]);
            } else {
                match items.last() {
                    FileItem::Mod { name, .. } => {
                        assert(path.push(name@).drop_last() == path);
                    },
                    _ => {},
                }
            }
        }
    }
}

/// The number of modules in a tree read from source (children still to be
/// read from their own files are not counted).
pub open spec fn mod_count(m: SpecMod) -> nat
    decreases m,
{
    1 + entries_count(m.mods)
}

pub open spec fn entries_count(es: Seq<SpecEntry>) -> nat
    decreases es,
{
    if es.len() == 0 {
        0
    } else {
        entries_count(es.drop_last()) + match es.last() {
            SpecEntry::Inline(m) => mod_count(m),
            SpecEntry::File(_) => 0,
        }
    }
}

/// The indices that the inline children `es` get when the modules are
/// numbered from `start` on, each after its children.
pub open spec fn entry_roots(es: Seq<SpecEntry>, start: int) -> Seq<usize>
    decreases es.len(),
{
    if es.len() == 0 {
        Seq::empty()
    } else {
        let r = entry_roots(es.drop_last(), start);
        match es.last() {
            SpecEntry::Inline(m) => r.push((start + entries_count(es.drop_last()) + mod_count(m) - 1) as usize),
            SpecEntry::File(_) => r,
        }
    }
}

/// What a numbered module holds: its index, kind, name, path, child indices,
/// kept items and errors.
pub open spec fn flat_shape(f: FlatMod) -> (int, AstModType, Seq<char>, Seq<Seq<char>>, Seq<usize>, Seq<SpecItem>, Seq<Seq<char>>) {
    (f.module.idx as int, f.module.ty, f.module.name@, strs(f.module.path@), f.module.mods@, item_views(f.items@), strs(f.errs@))
}

pub open spec fn flat_shapes(v: Seq<FlatMod>) -> Seq<(int, AstModType, Seq<char>, Seq<Seq<char>>, Seq<usize>, Seq<SpecItem>, Seq<Seq<char>>)> {
    v.map_values(|f: FlatMod| flat_shape(f))
}

/// The modules of the tree `m`, numbered from `start` on, each after its
/// children; a module lists the indices of its inline children.
pub open spec fn flat_mod(m: SpecMod, start: int) -> Seq<(int, AstModType, Seq<char>, Seq<Seq<char>>, Seq<usize>, Seq<SpecItem>, Seq<Seq<char>>)>
    decreases m,
{
    flat_entries(m.mods, start).push(
        (start + entries_count(m.mods), m.ty, m.name, m.path, entry_roots(m.mods, start), m.items, m.errs),
    )
}

pub open spec fn flat_entries(es: Seq<SpecEntry>, start: int) -> Seq<(int, AstModType, Seq<char>, Seq<Seq<char>>, Seq<usize>, Seq<SpecItem>, Seq<Seq<char>>)>
    decreases es,
{
    if es.len() == 0 {
        Seq::empty()
    } else {
        flat_entries(es.drop_last(), start) + match es.last() {
            SpecEntry::Inline(m) => flat_mod(m, start + entries_count(es.drop_last())),
            SpecEntry::File(_) => Seq::empty(),
        }
    }
}

/// A module of a crate once the tree is numbered, with its kept items and the
/// errors met reading it.
#[derive(Debug)]
pub struct FlatMod {
    pub module: AstMod,
    pub items: Vec<ParsedItem>,
    pub errs: Vec<String>,
}

/// Numbers the modules of the tree `m` from `start` on, each after its
/// children, the way a crate lists its modules (so the root comes last).
/// Children still to be read from their own files are left out.
pub fn flatten_mod(m: ParsedMod, start: usize) -> (r: Vec<FlatMod>)
    requires
        start + mod_count(m.view()) <= usize::MAX,
    ensures
        r@.len() == mod_count(m.view()),
        forall|i: int| 0 <= i < r@.len() ==> #[trigger] r@[i].module.idx == start + i,
        flat_shapes(r@) == flat_mod(m.view(), start as int),
    decreases m,
{
    let ghost mv = m.view();
    let ParsedMod { ty, name, path, items, mods, errs } = m;
    let ghost all = mods@;
    let mut out: Vec<FlatMod> = Vec::new();
    let mut roots: Vec<usize> = Vec::new();
    let mut n = start;
    proof {
        assert(all.take(0) =~= Seq::<ModEntry>::empty());
        assert(flat_shapes(out@) =~= Seq::empty());
    }
    for e in it: mods
        invariant
            it.seq() == all,
            all == m.mods@,
            mv == m.view(),
            mv.mods == entry_views(all),
            start + mod_count(mv) <= usize::MAX,
            n == start + entries_count(entry_views(all.take(it.index() as int))),
            out@.len() == entries_count(entry_views(all.take(it.index() as int))),
            forall|i: int| 0 <= i < out@.len() ==> #[trigger] out@[i].module.idx == start + i,
            flat_shapes(out@) == flat_entries(entry_views(all.take(it.index() as int)), start as int),
            roots@ == entry_roots(entry_views(all.take(it.index() as int)), start as int),
    {
        let ghost i = it.index() as int;
        let ghost ev = entry_views(all.take(i + 1));
        proof {
            assert(all.take(i + 1).drop_last() == all.take(i));
            assert(all.take(i + 1).last() == e);
            assert(ev.drop_last() == entry_views(all.take(i)));
            lemma_entries_count_prefix(all, i + 1);
        }
        match e {
            ModEntry::Inline(child) => {
                proof {
                    assert(decreases_to!(m => child)) by {
                        assert(e == m.mods@[i]);
                    }
                }
                let sub = flatten_mod(child, n);
                let ghost before = out@;
                let ghost sub_v = sub@;
                let count = sub.len();
                let mut sub = sub;
                out.append(&mut sub);
                n = n + count;
                roots.push(n - 1);
                assert(flat_shapes(out@) =~= flat_shapes(before) + flat_shapes(sub_v));
                assert forall|j: int| 0 <= j < out@.len() implies #[trigger] out@[j].module.idx == start + j by {
                    if j >= before.len() {
                        assert(out@[j] == sub_v[j - before.len()]);
                    }
                }
            },
            ModEntry::File(_) => {},
        }
    }
    proof {
        assert(all.take(all.len() as int) == all);
    }
    let ghost item_v = item_views(items@);
    let ghost errs_v = strs(errs@);
    let mut module = AstMod::new(n, path, name, ty);
    module.mods = roots;
    let ghost before = out@;
    let f = FlatMod { module, items, errs };
    out.push(f);
    assert(flat_shapes(out@) =~= flat_shapes(before).push(flat_shape(f)));
    out
}

proof fn lemma_entries_count_prefix(es: Seq<ModEntry>, k: int)
    requires
        0 <= k <= es.len(),
    ensures
        entries_count(entry_views(es.take(k))) <= entries_count(entry_views(es)),
    decreases es.len() - k,
{
    if k < es.len() {
        lemma_entries_count_prefix(es, k + 1);
        assert(es.take(k + 1).drop_last() == es.take(k));
        assert(entry_views(es.take(k + 1)).drop_last() == entry_views(es.take(k)));
    } else {
        assert(es.take(k) == es);
    }
}

} // verus!
