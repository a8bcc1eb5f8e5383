use vstd::prelude::*;

use crate::parse::find_path::{join, join_strings, path_sep, strs};
use crate::parse::tokens::TokenTree;

verus! {

/// The engine attributes an item can carry.
#[derive(Clone, Copy, Debug, PartialEq, Eq, Structural)]
pub enum EcsAttribute {
    Component,
    Global,
    System,
    Event,
}

pub open spec fn ecs_attribute_named(s: Seq<char>) -> Option<EcsAttribute> {
    if s == "component"@ {
        Some(EcsAttribute::Component)
    } else if s == "global"@ {
        Some(EcsAttribute::Global)
    } else if s == "system"@ {
        Some(EcsAttribute::System)
    } else if s == "event"@ {
        Some(EcsAttribute::Event)
    } else {
        None
    }
}

impl EcsAttribute {
    /// The attribute with this name, if any.
    pub fn from(value: String) -> (r: Option<Self>)
        ensures
            r == ecs_attribute_named(value@),
    {
        if value == String::from_str("component") {
            Some(EcsAttribute::Component)
        } else if value == String::from_str("global") {
            Some(EcsAttribute::Global)
        } else if value == String::from_str("system") {
            Some(EcsAttribute::System)
        } else if value == String::from_str("event") {
            Some(EcsAttribute::Event)
        } else {
            None
        }
    }
}

/// A `cfg` predicate.
#[derive(Debug)]
pub enum CfgPredicate {
    Any(Vec<CfgPredicate>),
    All(Vec<CfgPredicate>),
    Not(Box<CfgPredicate>),
    Equal(String, String),
    Is(String),
}

/// The mathematical form of a `cfg` predicate.
pub enum SpecCfg {
    Any(Seq<SpecCfg>),
    All(Seq<SpecCfg>),
    Not(Box<SpecCfg>),
    Equal(Seq<char>, Seq<char>),
    Is(Seq<char>),
}

impl CfgPredicate {
    pub open spec fn view(self) -> SpecCfg
        decreases self,
    {
        match self {
            CfgPredicate::Any(v) => SpecCfg::Any(cfg_views(v@)),
            CfgPredicate::All(v) => SpecCfg::All(cfg_views(v@)),
            CfgPredicate::Not(c) => SpecCfg::Not(Box::new((*c).view())),
            CfgPredicate::Equal(k, v) => SpecCfg::Equal(k@, v@),
            CfgPredicate::Is(k) => SpecCfg::Is(k@),
        }
    }
}

pub open spec fn cfg_views(v: Seq<CfgPredicate>) -> Seq<SpecCfg>
    decreases v,
{
    if v.len() == 0 {
        Seq::empty()
    } else {
        cfg_views(v.drop_last()).push(v.last().view())
    }
}

#[verifier::external_type_specification]
#[verifier::external_body]
#[verifier::reject_recursive_types(S)]
pub struct ExParseCfg<S>(parse_cfg::Cfg<S>);

/// The predicate that `parse_cfg` reads from a `cfg(..)` text, or none when
/// the text is not one.
pub uninterp spec fn cfg_expression(text: Seq<char>) -> Option<SpecCfg>;

/// The same predicate as plain data.
#[verifier::external_body]
fn convert_cfg(c: parse_cfg::Cfg) -> CfgPredicate {
    match c {
        parse_cfg::Cfg::Any(v) => CfgPredicate::Any(v.into_iter().map(convert_cfg).collect()),
        parse_cfg::Cfg::All(v) => CfgPredicate::All(v.into_iter().map(convert_cfg).collect()),
        parse_cfg::Cfg::Not(c) => CfgPredicate::Not(Box::new(convert_cfg(*c))),
        parse_cfg::Cfg::Equal(k, v) => CfgPredicate::Equal(k, v),
        parse_cfg::Cfg::Is(k) => CfgPredicate::Is(k),
    }
}

/// Reads a `cfg(..)` text with `parse_cfg`'s `FromStr` for `Cfg`: the
/// predicate as plain data, or none when the text does not parse. Which texts
/// parse, and to what, is left to the name `cfg_expression`.
#[verifier::external_body]
fn parse_cfg_text(text: &str) -> (r: Option<CfgPredicate>)
    ensures
        match r {
            Some(c) => cfg_expression(text@) == Some(c.view()),
            None => cfg_expression(text@) is None,
        },
{
    match text.parse::<parse_cfg::Cfg>() {
        Ok(c) => Some(convert_cfg(c)),
        Err(_) => None,
    }
}

/// The value of a `cfg` predicate with the given features enabled; none when
/// it depends on something other than features.
pub open spec fn cfg_value(cfg: CfgPredicate, features: Seq<Seq<char>>) -> Option<bool>
    decreases cfg,
{
    match cfg {
        CfgPredicate::Any(cfgs) => Some(any_true(cfgs@, features)),
        CfgPredicate::All(cfgs) => Some(!any_false(cfgs@, features)),
        CfgPredicate::Not(c) => match cfg_value(*c, features) {
            Some(b) => Some(!b),
            None => None,
        },
        CfgPredicate::Equal(k, v) => if k@ == "feature"@ { Some(features.contains(v@)) } else { None },
        CfgPredicate::Is(_) => None,
    }
}

/// Some predicate of the list is known true.
pub open spec fn any_true(cfgs: Seq<CfgPredicate>, features: Seq<Seq<char>>) -> bool
    decreases cfgs,
{
    if cfgs.len() == 0 {
        false
    } else {
        any_true(cfgs.drop_last(), features) || cfg_value(cfgs.last(), features) == Some(true)
    }
}

/// Some predicate of the list is known false.
pub open spec fn any_false(cfgs: Seq<CfgPredicate>, features: Seq<Seq<char>>) -> bool
    decreases cfgs,
{
    if cfgs.len() == 0 {
        false
    } else {
        any_false(cfgs.drop_last(), features) || cfg_value(cfgs.last(), features) == Some(false)
    }
}

proof fn lemma_any_value(cfgs: Seq<CfgPredicate>, features: Seq<Seq<char>>)
    ensures
        any_true(cfgs, features) <==> exists|i: int| 0 <= i < cfgs.len() && #[trigger] cfg_value(cfgs[i], features) == Some(true),
        any_false(cfgs, features) <==> exists|i: int| 0 <= i < cfgs.len() && #[trigger] cfg_value(cfgs[i], features) == Some(false),
    decreases cfgs.len(),
{
    if cfgs.len() > 0 {
        let rest = cfgs.drop_last();
        lemma_any_value(rest, features);
        assert forall|i: int| 0 <= i < rest.len() implies #[trigger] rest[i] == cfgs[i] by {}
        if exists|i: int| 0 <= i < cfgs.len() && #[trigger] cfg_value(cfgs[i], features) == Some(true) {
            let i = choose|i: int| 0 <= i < cfgs.len() && #[trigger] cfg_value(cfgs[i], features) == Some(true);
            if i < cfgs.len() - 1 {
                assert(cfg_value(rest[i], features) == Some(true));
            }
        }
        if exists|i: int| 0 <= i < cfgs.len() && #[trigger] cfg_value(cfgs[i], features) == Some(false) {
            let i = choose|i: int| 0 <= i < cfgs.len() && #[trigger] cfg_value(cfgs[i], features) == Some(false);
            if i < cfgs.len() - 1 {
                assert(cfg_value(rest[i], features) == Some(false));
            }
        }
        if any_true(rest, features) {
            let i = choose|i: int| 0 <= i < rest.len() && #[trigger] cfg_value(rest[i], features) == Some(true);
            assert(cfg_value(cfgs[i], features) == Some(true));
        }
        if any_false(rest, features) {
            let i = choose|i: int| 0 <= i < rest.len() && #[trigger] cfg_value(rest[i], features) == Some(false);
            assert(cfg_value(cfgs[i], features) == Some(false));
        }
        let n = cfgs.len() - 1;
        assert(cfgs.last() == cfgs[n]);
        if cfg_value(cfgs.last(), features) == Some(true) {
            assert(cfg_value(cfgs[n], features) == Some(true));
        }
        if cfg_value(cfgs.last(), features) == Some(false) {
            assert(cfg_value(cfgs[n], features) == Some(false));
        }
    }
}

/// How predicates combine: `any(..)` holds when some part is known to hold
/// (a part that cannot be decided counts as false), `all(..)` holds unless
/// some part is known not to hold (a part that cannot be decided counts as
/// true), and `not(..)` flips a decided value and leaves an undecided one
/// undecided.
pub proof fn law_cfg_combinators(cfgs: Seq<CfgPredicate>, inner: CfgPredicate, features: Seq<Seq<char>>)
    ensures
        forall|c: CfgPredicate| c matches CfgPredicate::Any(v) && v@ == cfgs ==> #[trigger] cfg_value(c, features)
            == Some(exists|i: int| 0 <= i < cfgs.len() && #[trigger] cfg_value(cfgs[i], features) == Some(true)),
        forall|c: CfgPredicate| c matches CfgPredicate::All(v) && v@ == cfgs ==> #[trigger] cfg_value(c, features)
            == Some(!exists|i: int| 0 <= i < cfgs.len() && #[trigger] cfg_value(cfgs[i], features) == Some(false)),
        forall|c: CfgPredicate| c matches CfgPredicate::Not(b) && *b == inner ==> #[trigger] cfg_value(c, features)
            == match cfg_value(inner, features) {
                Some(x) => Some(!x),
                None => None,
            },
{
    lemma_any_value(cfgs, features);
}

fn contains_string(v: &Vec<String>, x: &String) -> (r: bool)
    ensures
        r == strs(v@).contains(x@),
{
    let mut i: usize = 0;
    while i < v.len()
        invariant
            i <= v@.len(),
            forall|j: int| 0 <= j < i ==> v@[j]@ != x@,
        decreases v@.len() - i,
    {
        if v[i] == *x {
            assert(strs(v@)[i as int] == x@);
            return true;
        }
        i = i + 1;
    }
    assert forall|j: int| 0 <= j < strs(v@).len() implies strs(v@)[j] != x@ by {
        assert(strs(v@)[j] == v@[j]@);
    }
    false
}

/// Evaluates a `cfg` predicate with the given features enabled.
pub fn eval_cfg_args(cfg: &CfgPredicate, features: &Vec<String>) -> (r: Option<bool>)
    ensures
        r == cfg_value(*cfg, strs(features@)),
    decreases cfg, 1nat,
{
    match cfg {
        CfgPredicate::Any(cfgs) => Some(some_value(cfgs, true, features)),
        CfgPredicate::All(cfgs) => Some(!some_value(cfgs, false, features)),
        CfgPredicate::Not(c) => match eval_cfg_args(c, features) {
            Some(b) => Some(!b),
            None => None,
        },
        CfgPredicate::Equal(k, v) => {
            if *k == String::from_str("feature") {
                Some(contains_string(features, v))
            } else {
                None
            }
        },
        CfgPredicate::Is(_) => None,
    }
}

/// Whether some predicate of `cfgs` is known to have the value `value`.
fn some_value(cfgs: &Vec<CfgPredicate>, value: bool, features: &Vec<String>) -> (r: bool)
    ensures
        value ==> r == any_true(cfgs@, strs(features@)),
        !value ==> r == any_false(cfgs@, strs(features@)),
    decreases cfgs, 0nat,
{
    let mut found = false;
    let mut i: usize = 0;
    while i < cfgs.len()
        invariant
            i <= cfgs@.len(),
            value ==> found == any_true(cfgs@.take(i as int), strs(features@)),
            !value ==> found == any_false(cfgs@.take(i as int), strs(features@)),
        decreases cfgs@.len() - i,
    {
        assert(cfgs@.take(i + 1).drop_last() == cfgs@.take(i as int));
        let v = eval_cfg_args(&cfgs[i], features);
        found = found || v == Some(value);
        i = i + 1;
    }
    assert(cfgs@.take(cfgs@.len() as int) == cfgs@);
    found
}

/// An engine attribute on an item: its path as written and its arguments.
#[derive(Debug)]
pub struct AstAttribute {
    pub path: Vec<String>,
    pub args: Vec<TokenTree>,
}

/// An attribute: an engine attribute or a `cfg` predicate.
#[derive(Debug)]
pub enum Attribute {
    Ecs(AstAttribute),
    Cfg(CfgPredicate),
}

impl Attribute {
    /// The attribute named by `path`: a `cfg` predicate (to be filled in) when
    /// the path reads `cfg`, else an engine attribute with no arguments yet.
    pub fn from(path: Vec<String>) -> (r: Self)
        ensures
            join(strs(path@), path_sep()) == "cfg"@ ==> (r matches Attribute::Cfg(CfgPredicate::Is(s)) && s@.len() == 0),
            join(strs(path@), path_sep()) != "cfg"@ ==> (r matches Attribute::Ecs(a) && a.path@ == path@ && a.args@.len() == 0),
    {
        let sep = "::";
        proof {
            reveal_strlit("::");
            assert(sep@ == path_sep());
        }
        let joined = join_strings(&path, sep);
        if joined == String::from_str("cfg") {
            Attribute::Cfg(CfgPredicate::Is(String::new()))
        } else {
            Attribute::Ecs(AstAttribute { path, args: Vec::new() })
        }
    }
}

/// What an attribute holds after its path, as written in the source.
#[derive(Debug)]
pub enum AttrMeta {
    /// `#[name]`
    Path,
    /// `#[name(..)]`: the text of the whole list and its tokens, the path
    /// included.
    List { text: String, tokens: Vec<TokenTree> },
    /// `#[name = ..]`
    NameValue,
}

/// The mathematical form of an attribute.
pub enum AttrView {
    Ecs(Seq<Seq<char>>, Seq<TokenTree>),
    Cfg(SpecCfg),
}

impl Attribute {
    pub open spec fn view(self) -> AttrView {
        match self {
            Attribute::Ecs(a) => AttrView::Ecs(strs(a.path@), a.args@),
            Attribute::Cfg(c) => AttrView::Cfg(c.view()),
        }
    }
}

/// The stream of the last delimited group among `tokens`.
pub open spec fn last_group(tokens: Seq<TokenTree>) -> Option<Seq<TokenTree>>
    decreases tokens.len(),
{
    if tokens.len() == 0 {
        None
    } else {
        match tokens.last() {
            TokenTree::Group { stream, .. } => Some(stream@),
            _ => last_group(tokens.drop_last()),
        }
    }
}

/// An attribute once its arguments are read: an engine attribute takes the
/// last group of its list; a `cfg` predicate is read from its list's text.
pub open spec fn with_args(attr: AttrView, meta: AttrMeta) -> Result<AttrView, Seq<char>> {
    match meta {
        AttrMeta::List { text, tokens } => match attr {
            AttrView::Ecs(p, args) => Ok(AttrView::Ecs(p, match last_group(tokens@) {
                Some(s) => s,
                None => args,
            })),
            AttrView::Cfg(_) => match cfg_expression(text@) {
                Some(c) => Ok(AttrView::Cfg(c)),
                None => Err("Could not parse cfg_str"@),
            },
        },
        _ => Ok(attr),
    }
}

/// The attribute that `Attribute::from` makes of a path.
pub open spec fn named_attribute(path: Seq<Seq<char>>) -> AttrView {
    if join(path, path_sep()) == "cfg"@ {
        AttrView::Cfg(SpecCfg::Is(Seq::empty()))
    } else {
        AttrView::Ecs(path, Seq::empty())
    }
}

/// The attributes read from (path, arguments) pairs, and the errors met.
pub open spec fn read_attributes(attrs: Seq<(Vec<String>, AttrMeta)>) -> (Seq<AttrView>, Seq<Seq<char>>)
    decreases attrs.len(),
{
    if attrs.len() == 0 {
        (Seq::empty(), Seq::empty())
    } else {
        let (oks, errs) = read_attributes(attrs.drop_last());
        let (p, meta) = attrs.last();
        match with_args(named_attribute(strs(p@)), meta) {
            Ok(a) => (oks.push(a), errs),
            Err(e) => (oks, errs.push(e)),
        }
    }
}

pub open spec fn attr_views(v: Seq<Attribute>) -> Seq<AttrView> {
    v.map_values(|a: Attribute| a.view())
}

/// Fills in an attribute's arguments: an engine attribute takes the stream of
/// the last group of its list, a `cfg` predicate is parsed from its list.
pub fn parse_attr_args(attr: Attribute, meta: AttrMeta) -> (r: Result<Attribute, String>)
    ensures
        match with_args(attr.view(), meta) {
            Ok(a) => r matches Ok(b) && b.view() == a,
            Err(e) => r matches Err(m) && m@ == e,
        },
{
    match meta {
        AttrMeta::List { text, tokens } => match attr {
            Attribute::Ecs(ast_attr) => {
                let AstAttribute { path, args } = ast_attr;
                let mut args = args;
                let ghost all = tokens@;
                for t in it: tokens
                    invariant
                        it.seq() == all,
                        args@ == match last_group(all.take(it.index() as int)) {
                            Some(s) => s,
                            None => ast_attr.args@,
                        },
                {
                    assert(all.take(it.index() + 1).drop_last() == all.take(it.index() as int));
                    assert(all.take(it.index() + 1).last() == t);
                    match t {
                        TokenTree::Group { delim, stream } => {
                            args = stream;
                        },
                        _ => {},
                    }
                }
                assert(all.take(all.len() as int) == all);
                Ok(Attribute::Ecs(AstAttribute { path, args }))
            },
            Attribute::Cfg(_) => {
                let parsed = parse_cfg_text(text.as_str());
                match parsed {
                    Some(c) => Ok(Attribute::Cfg(c)),
                    None => Err(String::from_str("Could not parse cfg_str")),
                }
            },
        },
        _ => Ok(attr),
    }
}

/// Reads the attributes of an item from their paths and arguments; all the
/// errors met when any arguments could not be read.
pub fn get_attributes(attrs: Vec<(Vec<String>, AttrMeta)>) -> (r: Result<Vec<Attribute>, Vec<String>>)
    ensures
        ({
            let (oks, errs) = read_attributes(attrs@);
            match r {
                Ok(v) => errs.len() == 0 && attr_views(v@) == oks,
                Err(v) => errs.len() > 0 && strs(v@) == errs,
            }
        }),
{
    let ghost all = attrs@;
    let mut new_attrs: Vec<Attribute> = Vec::new();
    let mut errs: Vec<String> = Vec::new();
    for a in it: attrs
        invariant
            it.seq() == all,
            attr_views(new_attrs@) == read_attributes(all.take(it.index() as int)).0,
            strs(errs@) == read_attributes(all.take(it.index() as int)).1,
    {
        assert(all.take(it.index() + 1).drop_last() == all.take(it.index() as int));
        assert(all.take(it.index() + 1).last() == a);
        let (path, meta) = a;
        let named = Attribute::from(path);
        proof {
            assert(named.view() == named_attribute(strs(a.0@))) by {
                match named {
                    Attribute::Cfg(c) => {
                        assert(c.view()->Is_0 =~= Seq::<char>::empty());
                    },
                    Attribute::Ecs(e) => {
                        assert(e.args@ =~= Seq::<TokenTree>::empty());
                        assert(strs(a.0@) == strs(e.path@));
                    },
                }
            }
        }
        let res = parse_attr_args(named, meta);
        match res {
            Ok(attr) => {
                let ghost before = new_attrs@;
                new_attrs.push(attr);
                assert(attr_views(new_attrs@) =~= attr_views(before).push(attr.view()));
            },
            Err(e) => {
                let ghost before = errs@;
                errs.push(e);
                assert(strs(errs@) =~= strs(before).push(e@));
            },
        }
    }
    assert(all.take(all.len() as int) == all);
    if errs.len() == 0 {
        Ok(new_attrs)
    } else {
        Err(errs)
    }
}

/// Whether the item is kept: the last `cfg` predicate that can be decided
/// says so (an item with none is kept).
pub open spec fn attrs_active(attrs: Seq<Attribute>, features: Seq<Seq<char>>) -> bool
    decreases attrs.len(),
{
    if attrs.len() == 0 {
        true
    } else {
        match attrs.last() {
            Attribute::Cfg(c) => match cfg_value(c, features) {
                Some(b) => b,
                None => true,
            },
            Attribute::Ecs(_) => attrs_active(attrs.drop_last(), features),
        }
    }
}

/// The engine attributes among `attrs`, in order.
pub open spec fn ecs_attrs(attrs: Seq<Attribute>) -> Seq<AstAttribute>
    decreases attrs.len(),
{
    if attrs.len() == 0 {
        Seq::empty()
    } else {
        match attrs.last() {
            Attribute::Ecs(a) => ecs_attrs(attrs.drop_last()).push(a),
            Attribute::Cfg(_) => ecs_attrs(attrs.drop_last()),
        }
    }
}

/// The engine attributes of an item, or none when a `cfg` predicate turns
/// the item off.
pub fn get_attributes_if_active(attrs: Vec<Attribute>, features: &Vec<String>) -> (r: Option<Vec<AstAttribute>>)
    ensures
        attrs_active(attrs@, strs(features@)) ==> (r matches Some(v) && v@ == ecs_attrs(attrs@)),
        !attrs_active(attrs@, strs(features@)) ==> r is None,
{
    let ghost all = attrs@;
    let mut is_active = true;
    let mut new_attrs: Vec<AstAttribute> = Vec::new();
    for a in it: attrs
        invariant
            it.seq() == all,
            is_active == attrs_active(all.take(it.index() as int), strs(features@)),
            new_attrs@ == ecs_attrs(all.take(it.index() as int)),
    {
        assert(all.take(it.index() + 1).drop_last() == all.take(it.index() as int));
        assert(all.take(it.index() + 1).last() == a);
        match a {
            Attribute::Ecs(attr) => new_attrs.push(attr),
            Attribute::Cfg(cfg) => {
                is_active = match eval_cfg_args(&cfg, features) {
                    Some(b) => b,
                    None => true,
                };
            },
        }
    }
    assert(all.take(all.len() as int) == all);
    if is_active {
        Some(new_attrs)
    } else {
        None
    }
}

/// The value of a `cfg` predicate, read from its mathematical form.
pub open spec fn spec_cfg_value(cfg: SpecCfg, features: Seq<Seq<char>>) -> Option<bool>
    decreases cfg,
{
    match cfg {
        SpecCfg::Any(cfgs) => Some(spec_any_true(cfgs, features)),
        SpecCfg::All(cfgs) => Some(!spec_any_false(cfgs, features)),
        SpecCfg::Not(c) => match spec_cfg_value(*c, features) {
            Some(b) => Some(!b),
            None => None,
        },
        SpecCfg::Equal(k, v) => if k == "feature"@ { Some(features.contains(v)) } else { None },
        SpecCfg::Is(_) => None,
    }
}

pub open spec fn spec_any_true(cfgs: Seq<SpecCfg>, features: Seq<Seq<char>>) -> bool
    decreases cfgs,
{
    if cfgs.len() == 0 {
        false
    } else {
        spec_any_true(cfgs.drop_last(), features) || spec_cfg_value(cfgs.last(), features) == Some(true)
    }
}

pub open spec fn spec_any_false(cfgs: Seq<SpecCfg>, features: Seq<Seq<char>>) -> bool
    decreases cfgs,
{
    if cfgs.len() == 0 {
        false
    } else {
        spec_any_false(cfgs.drop_last(), features) || spec_cfg_value(cfgs.last(), features) == Some(false)
    }
}

proof fn lemma_cfg_value_view(cfg: CfgPredicate, features: Seq<Seq<char>>)
    ensures
        cfg_value(cfg, features) == spec_cfg_value(cfg.view(), features),
    decreases cfg, 1nat,
{
    match cfg {
        CfgPredicate::Any(v) => lemma_cfg_list_view(v@, features),
        CfgPredicate::All(v) => lemma_cfg_list_view(v@, features),
        CfgPredicate::Not(c) => lemma_cfg_value_view(*c, features),
        _ => {},
    }
}

proof fn lemma_cfg_list_view(cfgs: Seq<CfgPredicate>, features: Seq<Seq<char>>)
    ensures
        any_true(cfgs, features) == spec_any_true(cfg_views(cfgs), features),
        any_false(cfgs, features) == spec_any_false(cfg_views(cfgs), features),
    decreases cfgs, 0nat,
{
    if cfgs.len() > 0 {
        lemma_cfg_list_view(cfgs.drop_last(), features);
        lemma_cfg_value_view(cfgs.last(), features);
        assert(cfg_views(cfgs).drop_last() == cfg_views(cfgs.drop_last()));
    }
}

/// Whether an item with these attributes is kept (see `attrs_active`).
pub open spec fn views_active(attrs: Seq<AttrView>, features: Seq<Seq<char>>) -> bool
    decreases attrs.len(),
{
    if attrs.len() == 0 {
        true
    } else {
        match attrs.last() {
            AttrView::Cfg(c) => match spec_cfg_value(c, features) {
                Some(b) => b,
                None => true,
            },
            AttrView::Ecs(_, _) => views_active(attrs.drop_last(), features),
        }
    }
}

/// The engine attributes among `attrs`, as paths and arguments, in order.
pub open spec fn views_ecs(attrs: Seq<AttrView>) -> Seq<(Seq<Seq<char>>, Seq<TokenTree>)>
    decreases attrs.len(),
{
    if attrs.len() == 0 {
        Seq::empty()
    } else {
        match attrs.last() {
            AttrView::Ecs(p, a) => views_ecs(attrs.drop_last()).push((p, a)),
            AttrView::Cfg(_) => views_ecs(attrs.drop_last()),
        }
    }
}

/// An engine attribute as its path and arguments.
pub open spec fn ast_attr_views(v: Seq<AstAttribute>) -> Seq<(Seq<Seq<char>>, Seq<TokenTree>)> {
    v.map_values(|a: AstAttribute| (strs(a.path@), a.args@))
}

/// What an item's attributes, as written, come to: the errors met reading
/// them, or none when a `cfg` predicate turns the item off, or its engine
/// attributes.
pub open spec fn item_attributes(attrs: Seq<(Vec<String>, AttrMeta)>, features: Seq<Seq<char>>)
    -> Result<Option<Seq<(Seq<Seq<char>>, Seq<TokenTree>)>>, Seq<Seq<char>>>
{
    let (oks, errs) = read_attributes(attrs);
    if errs.len() > 0 {
        Err(errs)
    } else if views_active(oks, features) {
        Ok(Some(views_ecs(oks)))
    } else {
        Ok(None)
    }
}

proof fn lemma_attrs_views(attrs: Seq<Attribute>, features: Seq<Seq<char>>)
    ensures
        attrs_active(attrs, features) == views_active(attr_views(attrs), features),
        ast_attr_views(ecs_attrs(attrs)) == views_ecs(attr_views(attrs)),
    decreases attrs.len(),
{
    if attrs.len() > 0 {
        let rest = attrs.drop_last();
        lemma_attrs_views(rest, features);
        assert(attr_views(attrs).drop_last() =~= attr_views(rest));
        match attrs.last() {
            Attribute::Cfg(c) => lemma_cfg_value_view(c, features),
            Attribute::Ecs(a) => {
                assert(ast_attr_views(ecs_attrs(attrs)) =~= ast_attr_views(ecs_attrs(rest)).push((strs(a.path@), a.args@)));
            },
        }
    }
}

/// Reads an item's attributes and keeps its engine attributes, or none when
/// a `cfg` predicate turns the item off with the given features.
pub fn read_item_attributes(attrs: Vec<(Vec<String>, AttrMeta)>, features: &Vec<String>)
    -> (r: Result<Option<Vec<AstAttribute>>, Vec<String>>)
    ensures
        match item_attributes(attrs@, strs(features@)) {
            Err(e) => r matches Err(v) && strs(v@) == e,
            Ok(None) => r matches Ok(None),
            Ok(Some(a)) => r matches Ok(Some(v)) && ast_attr_views(v@) == a,
        },
{
    match get_attributes(attrs) {
        Err(e) => Err(e),
        Ok(v) => {
            proof {
                lemma_attrs_views(v@, strs(features@));
            }
            Ok(get_attributes_if_active(v, features))
        },
    }
}

} // verus!
