use vstd::prelude::*;

use crate::component_set::parse::{
    AstComponentSetItem, AstLabelItem, Expression, GenericArg, LabelOp, SpecAst, SpecGeneric, SpecType, TypeShape,
    item_shape, ref_depth,
    expression_tree, generic_views, lemma_tree_of, lemma_views_index, lemma_views_push, tree_of, views,
};
use crate::parse::find_path::strs;
use crate::parse::tokens::TokenTree;

verus! {

/// The number of tokens in a token tree, groups counted with their contents.
pub open spec fn size(t: TokenTree) -> nat
    decreases t,
{
    match t {
        TokenTree::Group { stream, .. } => 1 + sizes(stream@),
        _ => 1,
    }
}

pub open spec fn sizes(ts: Seq<TokenTree>) -> nat
    decreases ts,
{
    if ts.len() == 0 {
        0
    } else {
        sizes(ts.drop_last()) + size(ts.last())
    }
}

pub proof fn lemma_sizes(ts: Seq<TokenTree>, i: int)
    requires
        0 <= i < ts.len(),
    ensures
        size(ts[i]) <= sizes(ts),
    decreases ts.len(),
{
    if i < ts.len() - 1 {
        lemma_sizes(ts.drop_last(), i);
    }
}

pub open spec fn is_punct(ts: Seq<TokenTree>, pos: int, c: char) -> bool {
    &&& 0 <= pos < ts.len()
    &&& ts[pos] matches TokenTree::Punct { ch, .. } && ch == c
}

pub open spec fn is_joint_punct(ts: Seq<TokenTree>, pos: int, c: char) -> bool {
    &&& 0 <= pos < ts.len()
    &&& ts[pos] matches TokenTree::Punct { ch, joint } && ch == c && joint
}

/// A two-character operator `cc` starting at `pos`.
pub open spec fn is_double(ts: Seq<TokenTree>, pos: int, c: char) -> bool {
    is_joint_punct(ts, pos, c) && is_punct(ts, pos + 1, c)
}

/// The leading `!`s from `pos` on: whether their number is odd, and where
/// they end.
pub open spec fn p_not(ts: Seq<TokenTree>, pos: int) -> (bool, int)
    decreases ts.len() - pos,
{
    if pos >= 0 && is_punct(ts, pos, '!') {
        let (n, end) = p_not(ts, pos + 1);
        (!n, end)
    } else {
        (false, pos)
    }
}

pub open spec fn label_type_error() -> Seq<char> {
    "Expected label type"@
}

pub open spec fn op_error() -> Seq<char> {
    "Expected Op: '||' or '&&'"@
}

/// The segments `:: ident` from `pos` on, after the segments `acc`.
pub open spec fn p_segments(ts: Seq<TokenTree>, pos: int, acc: Seq<Seq<char>>) -> Result<(Seq<Seq<char>>, int), Seq<char>>
    decreases ts.len() - pos,
{
    if pos >= 0 && is_double(ts, pos, ':') {
        if pos + 2 < ts.len() && ts[pos + 2] is Ident {
            p_segments(ts, pos + 3, acc.push(ts[pos + 2]->Ident_0@))
        } else {
            Err(label_type_error())
        }
    } else {
        Ok((acc, pos))
    }
}

/// A type path (an optional leading `::`, then identifiers joined by `::`).
pub open spec fn p_path(ts: Seq<TokenTree>, pos: int) -> Result<(Seq<Seq<char>>, int), Seq<char>> {
    let start = if is_double(ts, pos, ':') { pos + 2 } else { pos };
    if 0 <= start < ts.len() && ts[start] is Ident {
        p_segments(ts, start + 1, seq![ts[start]->Ident_0@])
    } else {
        Err(label_type_error())
    }
}

/// `&&` or `||` at `pos`.
pub open spec fn p_op(ts: Seq<TokenTree>, pos: int) -> Result<LabelOp, Seq<char>> {
    if is_double(ts, pos, '&') {
        Ok(LabelOp::And)
    } else if is_double(ts, pos, '|') {
        Ok(LabelOp::Or)
    } else {
        Err(op_error())
    }
}

/// A label item from `pos` on: `!`s, then a parenthesized expression or a
/// type path; the tree and where it ends.
pub open spec fn p_item(ts: Seq<TokenTree>, pos: int) -> Result<(SpecAst, int), Seq<char>>
    decreases sizes(ts), ts.len() - pos + 3, 0int,
{
    let (not, p1) = p_not(ts, pos);
    if 0 <= p1 < ts.len() && ts[p1] is Group {
        let stream = ts[p1]->stream@;
        proof {
            lemma_sizes(ts, p1);
        }
        match p_expression(stream) {
            Ok(x) => Ok((if not { x.negation() } else { x }, p1 + 1)),
            Err(m) => Err(m),
        }
    } else {
        match p_path(ts, p1) {
            Ok((segs, p2)) => Ok((SpecAst::Leaf { not, ty: segs }, p2)),
            Err(m) => Err(m),
        }
    }
}

/// The operator / item pairs from `pos` to the end.
pub open spec fn p_rest(ts: Seq<TokenTree>, pos: int, first: SpecAst, noops: Seq<SpecAst>, ops: Seq<LabelOp>) -> Result<SpecAst, Seq<char>>
    decreases sizes(ts), if pos <= ts.len() { ts.len() - pos + 1 } else { 0 }, 1int,
{
    if pos < 0 || pos >= ts.len() {
        Ok(tree_of(first, noops, ops))
    } else {
        match p_op(ts, pos) {
            Err(m) => Err(m),
            Ok(op) => match p_item(ts, pos + 2) {
                Err(m) => Err(m),
                Ok((x, next)) => if next > pos {
                    p_rest(ts, next, first, noops.push(x), ops.push(op))
                } else {
                    Err(op_error())
                },
            },
        }
    }
}

/// A whole token stream read as a label expression: the tree `to_item` builds.
pub open spec fn p_expression(ts: Seq<TokenTree>) -> Result<SpecAst, Seq<char>>
    decreases sizes(ts), ts.len() + 4, 2int,
{
    match p_item(ts, 0) {
        Err(m) => Err(m),
        Ok((first, next)) => if next > 0 {
            p_rest(ts, next, first, Seq::empty(), Seq::empty())
        } else {
            Err(label_type_error())
        },
    }
}

} // verus!

verus! {

fn punct_at(ts: &Vec<TokenTree>, pos: usize, c: char) -> (r: bool)
    ensures
        r == is_punct(ts@, pos as int, c),
{
    if pos < ts.len() {
        match &ts[pos] {
            TokenTree::Punct { ch, .. } => *ch == c,
            _ => false,
        }
    } else {
        false
    }
}

fn double_at(ts: &Vec<TokenTree>, pos: usize, c: char) -> (r: bool)
    ensures
        r == is_double(ts@, pos as int, c),
{
    if pos < ts.len() && pos + 1 < ts.len() {
        let first = match &ts[pos] {
            TokenTree::Punct { ch, joint } => *ch == c && *joint,
            _ => false,
        };
        first && punct_at(ts, pos + 1, c)
    } else {
        false
    }
}

fn parse_not(ts: &Vec<TokenTree>, pos: usize) -> (r: (bool, usize))
    requires
        pos <= ts@.len(),
    ensures
        (r.0, r.1 as int) == p_not(ts@, pos as int),
        pos <= r.1 <= ts@.len(),
    decreases ts@.len() - pos,
{
    let _n: usize = ts.len();
    if punct_at(ts, pos, '!') {
        let (n, end) = parse_not(ts, pos + 1);
        (!n, end)
    } else {
        (false, pos)
    }
}

fn ident_at(ts: &Vec<TokenTree>, pos: usize) -> (r: Option<String>)
    ensures
        (0 <= pos < ts@.len() && ts@[pos as int] is Ident) <==> r is Some,
        r matches Some(s) ==> s@ == ts@[pos as int]->Ident_0@,
{
    if pos < ts.len() {
        match &ts[pos] {
            TokenTree::Ident(s) => Some(s.clone()),
            _ => None,
        }
    } else {
        None
    }
}

fn parse_path(ts: &Vec<TokenTree>, pos: usize) -> (r: Result<(Vec<String>, usize), String>)
    requires
        pos <= ts@.len(),
    ensures
        match p_path(ts@, pos as int) {
            Ok((segs, end)) => r matches Ok((v, e)) && strs(v@) == segs && e == end && pos < e <= ts@.len(),
            Err(m) => r matches Err(mm) && mm@ == m,
        },
{
    let n: usize = ts.len();
    let start = if double_at(ts, pos, ':') { pos + 2 } else { pos };
    let first = ident_at(ts, start);
    match first {
        None => Err(String::from_str("Expected label type")),
        Some(s) => {
            let mut segs: Vec<String> = vec![s];
            assert(strs(segs@) =~= seq![ts@[start as int]->Ident_0@]);
            let mut p = start + 1;
            while double_at(ts, p, ':')
                invariant
                    start < p <= ts@.len(),
                    n == ts@.len(),
                    pos <= start,
                    p_path(ts@, pos as int) == p_segments(ts@, p as int, strs(segs@)),
                decreases ts@.len() - p,
            {
                let next = ident_at(ts, p + 2);
                match next {
                    None => return Err(String::from_str("Expected label type")),
                    Some(n) => {
                        let ghost before = segs@;
                        segs.push(n);
                        assert(strs(segs@) =~= strs(before).push(n@));
                        p = p + 3;
                    },
                }
            }
            Ok((segs, p))
        },
    }
}

fn parse_op(ts: &Vec<TokenTree>, pos: usize) -> (r: Result<LabelOp, String>)
    ensures
        match p_op(ts@, pos as int) {
            Ok(op) => r == Ok::<LabelOp, String>(op),
            Err(m) => r matches Err(mm) && mm@ == m,
        },
{
    if double_at(ts, pos, '&') {
        Ok(LabelOp::And)
    } else if double_at(ts, pos, '|') {
        Ok(LabelOp::Or)
    } else {
        Err(String::from_str("Expected Op: '||' or '&&'"))
    }
}

fn parse_item(ts: &Vec<TokenTree>, pos: usize) -> (r: Result<(AstLabelItem, usize), String>)
    requires
        pos <= ts@.len(),
    ensures
        match p_item(ts@, pos as int) {
            Ok((x, end)) => r matches Ok((it, e)) && it.view() == x && e == end && pos < e <= ts@.len(),
            Err(m) => r matches Err(mm) && mm@ == m,
        },
    decreases sizes(ts@), 1nat,
{
    let (not, p1) = parse_not(ts, pos);
    if p1 < ts.len() {
        if let TokenTree::Group { stream, .. } = &ts[p1] {
            proof {
                lemma_sizes(ts@, p1 as int);
            }
            let e = parse_expression(stream);
            return match e {
                Ok(e) => {
                    proof {
                        lemma_tree_of(e);
                    }
                    match e.to_item(not) {
                        Ok(x) => Ok((x, p1 + 1)),
                        Err(m) => Err(m),
                    }
                },
                Err(m) => Err(m),
            };
        }
    }
    let path = parse_path(ts, p1);
    match path {
        Ok((segs, p2)) => Ok((AstLabelItem::Item { not, ty: segs }, p2)),
        Err(m) => Err(m),
    }
}

fn parse_expression(ts: &Vec<TokenTree>) -> (r: Result<Expression, String>)
    ensures
        match p_expression(ts@) {
            Ok(x) => r matches Ok(e) && expression_tree(e) == x,
            Err(m) => r matches Err(mm) && mm@ == m,
        },
    decreases sizes(ts@), 2nat,
{
    let first_r = parse_item(ts, 0);
    let (first, mut pos) = match first_r {
        Ok(p) => p,
        Err(m) => return Err(m),
    };
    let ghost f = first.view();
    let mut noops: Vec<AstLabelItem> = Vec::new();
    let mut ops: Vec<LabelOp> = Vec::new();
    while pos < ts.len()
        invariant
            0 < pos <= ts@.len(),
            noops@.len() == ops@.len(),
            first.view() == f,
            p_expression(ts@) == p_rest(ts@, pos as int, f, views(noops@), ops@),
        decreases ts@.len() - pos,
    {
        let op = match parse_op(ts, pos) {
            Ok(op) => op,
            Err(m) => return Err(m),
        };
        let item_r = parse_item(ts, pos + 2);
        match item_r {
            Ok((x, next)) => {
                proof {
                    lemma_views_push(noops@, x);
                }
                noops.push(x);
                ops.push(op);
                pos = next;
            },
            Err(m) => return Err(m),
        }
    }
    proof {
        lemma_views_index(noops@);
    }
    if ops.len() == 0 {
        let e = Expression::Item(first);
        proof {
            lemma_tree_of(e);
            assert(views(noops@) =~= Seq::<SpecAst>::empty());
            assert(ops@ =~= Seq::<LabelOp>::empty());
        }
        Ok(e)
    } else {
        let e = Expression::Expr { first, noops, ops };
        proof {
            lemma_tree_of(e);
        }
        Ok(e)
    }
}

} // verus!

verus! {

impl LabelOp {
    /// `&&` or `||` at position `pos` of `input`.
    pub fn parse(input: &Vec<TokenTree>, pos: usize) -> (r: Result<LabelOp, String>)
        ensures
            match p_op(input@, pos as int) {
                Ok(op) => r == Ok::<LabelOp, String>(op),
                Err(m) => r matches Err(mm) && mm@ == m,
            },
    {
        parse_op(input, pos)
    }
}

impl AstLabelItem {
    /// A label item from position `pos` of `input`, and where it ends.
    pub fn parse(input: &Vec<TokenTree>, pos: usize) -> (r: Result<(AstLabelItem, usize), String>)
        requires
            pos <= input@.len(),
        ensures
            match p_item(input@, pos as int) {
                Ok((x, end)) => r matches Ok((it, e)) && it.view() == x && e == end,
                Err(m) => r matches Err(mm) && mm@ == m,
            },
    {
        parse_item(input, pos)
    }
}

impl Expression {
    /// A whole token stream as a label expression.
    pub fn parse(input: &Vec<TokenTree>) -> (r: Result<Expression, String>)
        ensures
            match p_expression(input@) {
                Ok(x) => r matches Ok(e) && expression_tree(e) == x,
                Err(m) => r matches Err(mm) && mm@ == m,
            },
    {
        parse_expression(input)
    }
}

} // verus!

verus! {

/// A lifetime (`'a`) at `pos`.
pub open spec fn is_lifetime(ts: Seq<TokenTree>, pos: int) -> bool {
    is_joint_punct(ts, pos, '\'') && 0 <= pos + 1 < ts.len() && ts[pos + 1] is Ident
}

pub open spec fn is_ident(ts: Seq<TokenTree>, pos: int, word: Seq<char>) -> bool {
    &&& 0 <= pos < ts.len()
    &&& ts[pos] matches TokenTree::Ident(s) && s@ == word
}

/// A type from `pos` on: `&` (with an optional lifetime and `mut`) before a
/// type, or a path with optional generic arguments on its last segment.
pub open spec fn p_type(ts: Seq<TokenTree>, pos: int) -> Result<(SpecType, int), ()>
    decreases ts.len() - pos + 2, 0int,
{
    if pos < 0 || pos >= ts.len() {
        Err(())
    } else if is_punct(ts, pos, '&') {
        let p1 = if is_lifetime(ts, pos + 1) { pos + 3 } else { pos + 1 };
        let mutable = is_ident(ts, p1, "mut"@);
        let p2 = if mutable { p1 + 1 } else { p1 };
        match p_type(ts, p2) {
            Ok((t, e)) => Ok((SpecType::Reference { mutable, elem: Box::new(t) }, e)),
            Err(_) => Err(()),
        }
    } else {
        match p_path(ts, pos) {
            Err(_) => Err(()),
            Ok((segs, e)) => if is_punct(ts, e, '<') && e > pos {
                match p_args(ts, e + 1, Seq::empty()) {
                    Ok((args, e2)) => Ok((SpecType::Path { path: segs, generics: Some(args) }, e2)),
                    Err(_) => Err(()),
                }
            } else {
                Ok((SpecType::Path { path: segs, generics: None }, e))
            },
        }
    }
}

/// Generic arguments from `pos` on, after the arguments `acc`, up to the
/// closing `>`.
pub open spec fn p_args(ts: Seq<TokenTree>, pos: int, acc: Seq<SpecGeneric>) -> Result<(Seq<SpecGeneric>, int), ()>
    decreases ts.len() - pos + 2, 1int,
{
    if pos < 0 || pos >= ts.len() {
        Err(())
    } else if is_punct(ts, pos, '>') {
        Ok((acc, pos + 1))
    } else {
        let arg = if is_lifetime(ts, pos) {
            Ok((SpecGeneric::Other, pos + 2))
        } else {
            match p_type(ts, pos) {
                Ok((t, e)) => Ok((SpecGeneric::Type(t), e)),
                Err(_) => Err(()),
            }
        };
        match arg {
            Err(_) => Err(()),
            Ok((a, next)) => if next <= pos {
                Err(())
            } else if is_punct(ts, next, ',') {
                p_args(ts, next + 1, acc.push(a))
            } else if is_punct(ts, next, '>') {
                Ok((acc.push(a), next + 1))
            } else {
                Err(())
            },
        }
    }
}

fn lifetime_at(ts: &Vec<TokenTree>, pos: usize) -> (r: bool)
    ensures
        r == is_lifetime(ts@, pos as int),
{
    if pos < ts.len() && pos + 1 < ts.len() {
        let first = match &ts[pos] {
            TokenTree::Punct { ch, joint } => *ch == '\'' && *joint,
            _ => false,
        };
        first && match &ts[pos + 1] {
            TokenTree::Ident(_) => true,
            _ => false,
        }
    } else {
        false
    }
}

fn word_at(ts: &Vec<TokenTree>, pos: usize, word: &str) -> (r: bool)
    ensures
        r == is_ident(ts@, pos as int, word@),
{
    if pos < ts.len() {
        match &ts[pos] {
            TokenTree::Ident(s) => *s == String::from_str(word),
            _ => false,
        }
    } else {
        false
    }
}

fn parse_type(ts: &Vec<TokenTree>, pos: usize) -> (r: Result<(TypeShape, usize), ()>)
    requires
        pos <= ts@.len(),
    ensures
        match p_type(ts@, pos as int) {
            Ok((t, e)) => r matches Ok((x, e2)) && x.view() == t && e2 == e && pos < e <= ts@.len(),
            Err(_) => r is Err,
        },
    decreases ts@.len() - pos + 2, 0nat,
{
    let n: usize = ts.len();
    if pos >= n {
        return Err(());
    }
    if punct_at(ts, pos, '&') {
        let p1 = if lifetime_at(ts, pos + 1) { pos + 3 } else { pos + 1 };
        let mutable = word_at(ts, p1, "mut");
        let p2 = if mutable { p1 + 1 } else { p1 };
        let inner = parse_type(ts, p2);
        return match inner {
            Ok((t, e)) => Ok((TypeShape::Reference { mutable, elem: Box::new(t) }, e)),
            Err(_) => Err(()),
        };
    }
    let path = parse_path(ts, pos);
    match path {
        Err(_) => Err(()),
        Ok((segs, e)) => {
            if punct_at(ts, e, '<') {
                let args = parse_args(ts, e + 1);
                match args {
                    Ok((args, e2)) => Ok((TypeShape::Path { path: segs, generics: Some(args) }, e2)),
                    Err(_) => Err(()),
                }
            } else {
                Ok((TypeShape::Path { path: segs, generics: None }, e))
            }
        },
    }
}

fn parse_args(ts: &Vec<TokenTree>, pos: usize) -> (r: Result<(Vec<GenericArg>, usize), ()>)
    requires
        pos <= ts@.len(),
    ensures
        match p_args(ts@, pos as int, Seq::empty()) {
            Ok((args, e)) => r matches Ok((v, e2)) && generic_views(v@) == args && e2 == e && pos < e <= ts@.len(),
            Err(_) => r is Err,
        },
    decreases ts@.len() - pos + 2, 1nat,
{
    let n: usize = ts.len();
    let mut acc: Vec<GenericArg> = Vec::new();
    let mut p = pos;
    while p < n
        invariant
            n == ts@.len(),
            pos <= p <= n,
            p_args(ts@, pos as int, Seq::empty()) == p_args(ts@, p as int, generic_views(acc@)),
        decreases n - p,
    {
        if punct_at(ts, p, '>') {
            return Ok((acc, p + 1));
        }
        let arg: Result<(GenericArg, usize), ()> = if lifetime_at(ts, p) {
            Ok((GenericArg::Other, p + 2))
        } else {
            let t = parse_type(ts, p);
            match t {
                Ok((t, e)) => Ok((GenericArg::Type(t), e)),
                Err(_) => Err(()),
            }
        };
        match arg {
            Err(_) => return Err(()),
            Ok((a, next)) => {
                let ghost av = a.view();
                proof {
                    assert(acc@.push(a).drop_last() == acc@);
                }
                if punct_at(ts, next, ',') {
                    acc.push(a);
                    p = next + 1;
                } else if punct_at(ts, next, '>') {
                    acc.push(a);
                    return Ok((acc, next + 1));
                } else {
                    return Err(());
                }
            },
        }
    }
    Err(())
}

} // verus!

verus! {

proof fn lemma_type_depth(ts: Seq<TokenTree>, pos: int)
    ensures
        p_type(ts, pos) matches Ok((t, e)) ==> e > pos && ref_depth(t) <= e - pos,
    decreases ts.len() - pos + 2, 0int,
{
    if 0 <= pos < ts.len() {
        if is_punct(ts, pos, '&') {
            let p1 = if is_lifetime(ts, pos + 1) { pos + 3 } else { pos + 1 };
            let p2 = if is_ident(ts, p1, "mut"@) { p1 + 1 } else { p1 };
            lemma_type_depth(ts, p2);
        } else {
            match p_path(ts, pos) {
                Ok((segs, e)) => {
                    lemma_path_end(ts, pos);
                    if is_punct(ts, e, '<') && e > pos {
                        lemma_args_depth(ts, e + 1, Seq::empty());
                    }
                },
                Err(_) => {},
            }
        }
    }
}

proof fn lemma_path_end(ts: Seq<TokenTree>, pos: int)
    ensures
        p_path(ts, pos) matches Ok((segs, e)) ==> e > pos,
{
    let start = if is_double(ts, pos, ':') { pos + 2 } else { pos };
    if 0 <= start < ts.len() && ts[start] is Ident {
        lemma_segments_end(ts, start + 1, seq![ts[start]->Ident_0@]);
    }
}

proof fn lemma_segments_end(ts: Seq<TokenTree>, pos: int, acc: Seq<Seq<char>>)
    ensures
        p_segments(ts, pos, acc) matches Ok((segs, e)) ==> e >= pos,
    decreases ts.len() - pos,
{
    if pos >= 0 && is_double(ts, pos, ':') && pos + 2 < ts.len() && ts[pos + 2] is Ident {
        lemma_segments_end(ts, pos + 3, acc.push(ts[pos + 2]->Ident_0@));
    }
}

proof fn lemma_args_depth(ts: Seq<TokenTree>, pos: int, acc: Seq<SpecGeneric>)
    ensures
        p_args(ts, pos, acc) matches Ok((args, e)) ==> {
            &&& e > pos
            &&& args.len() >= acc.len()
            &&& args.take(acc.len() as int) == acc
            &&& forall|i: int| acc.len() <= i < args.len() && (#[trigger] args[i]) is Type
                ==> ref_depth(args[i]->Type_0) <= e - pos
        },
    decreases ts.len() - pos + 2, 1int,
{
    if 0 <= pos < ts.len() && !is_punct(ts, pos, '>') {
        if !is_lifetime(ts, pos) {
            lemma_type_depth(ts, pos);
        }
        let arg = if is_lifetime(ts, pos) {
            Ok((SpecGeneric::Other, pos + 2))
        } else {
            match p_type(ts, pos) {
                Ok((t, e)) => Ok((SpecGeneric::Type(t), e)),
                Err(_) => Err(()),
            }
        };
        match arg {
            Err(_) => {},
            Ok((a, next)) => {
                if next > pos {
                    let acc2 = acc.push(a);
                    if is_punct(ts, next, ',') {
                        lemma_args_depth(ts, next + 1, acc2);
                        match p_args(ts, next + 1, acc2) {
                            Ok((args, e)) => {
                                assert(args.take(acc.len() as int) == acc2.take(acc.len() as int));
                                assert(args.take(acc2.len() as int)[acc.len() as int] == args[acc.len() as int]);
                                assert(args[acc.len() as int] == a);
                            },
                            Err(_) => {},
                        }
                    } else if is_punct(ts, next, '>') {
                        assert(acc2.take(acc.len() as int) == acc);
                    }
                }
            },
        }
    }
}

/// One entity-set argument from `pos` on: `name : Type`; its variable,
/// component path, references, mutability and optionality, and where it ends.
pub open spec fn p_set_item(ts: Seq<TokenTree>, pos: int) -> Result<((Seq<char>, Seq<Seq<char>>, nat, bool, bool), int), Seq<char>> {
    if !(0 <= pos < ts.len() && ts[pos] is Ident) {
        Err("Expected variable name"@)
    } else if !is_punct(ts, pos + 1, ':') {
        Err("Expected ':'"@)
    } else {
        match p_type(ts, pos + 2) {
            Err(_) => Err("Expected variable type"@),
            Ok((t, e)) => match item_shape(t) {
                Ok((p, n, m, o)) => Ok(((ts[pos]->Ident_0@, p, n, m, o), e)),
                Err(msg) => Err(msg),
            },
        }
    }
}

pub open spec fn set_item_view(i: AstComponentSetItem) -> (Seq<char>, Seq<Seq<char>>, nat, bool, bool) {
    (i.var@, strs(i.ty.path@), i.ref_cnt as nat, i.is_mut, i.is_opt)
}

pub open spec fn set_item_views(v: Seq<AstComponentSetItem>) -> Seq<(Seq<char>, Seq<Seq<char>>, nat, bool, bool)> {
    v.map_values(|i: AstComponentSetItem| set_item_view(i))
}

/// The arguments `, item` from `pos` on (a trailing comma is allowed), after
/// the arguments `acc`.
pub open spec fn p_set_args(ts: Seq<TokenTree>, pos: int, acc: Seq<(Seq<char>, Seq<Seq<char>>, nat, bool, bool)>)
    -> Result<(Seq<(Seq<char>, Seq<Seq<char>>, nat, bool, bool)>, int), Seq<char>>
    decreases ts.len() - pos,
{
    if pos >= 0 && is_punct(ts, pos, ',') {
        if pos + 1 >= ts.len() {
            Ok((acc, pos + 1))
        } else {
            match p_set_item(ts, pos + 1) {
                Ok((it, e)) => if pos < e <= ts.len() { p_set_args(ts, e, acc.push(it)) } else { Err("Expected variable type"@) },
                Err(m) => Err(m),
            }
        }
    } else {
        Ok((acc, pos))
    }
}

/// The body of a component-set declaration: an optional `labels(..),`
/// prefix, the set's name, then `, name: Type` arguments; the name, the
/// arguments and the label expression.
pub open spec fn p_component_set(ts: Seq<TokenTree>)
    -> Result<(Seq<char>, Seq<(Seq<char>, Seq<Seq<char>>, nat, bool, bool)>, Option<SpecAst>), Seq<char>>
{
    if !(0 < ts.len() && ts[0] is Ident) {
        Err("Expected ident"@)
    } else if ts[0]->Ident_0@ == "labels"@ {
        if !(1 < ts.len() && ts[1] is Group) {
            Err("Expected parentheses after labels"@)
        } else {
            let stream = ts[1]->stream@;
            let labels = if stream.len() == 0 { Ok(None) } else {
                match p_expression(stream) {
                    Ok(x) => Ok(Some(x)),
                    Err(m) => Err(m),
                }
            };
            match labels {
                Err(m) => Err(m),
                Ok(l) => if !is_punct(ts, 2, ',') {
                    Err("Expected ',' after label expression"@)
                } else if !(3 < ts.len() && ts[3] is Ident) {
                    Err("Expected ident after label expression"@)
                } else {
                    match p_set_args(ts, 4, Seq::empty()) {
                        Err(m) => Err(m),
                        Ok((args, e)) => if e < ts.len() { Err("unexpected token"@) } else { Ok((ts[3]->Ident_0@, args, l)) },
                    }
                },
            }
        }
    } else {
        match p_set_args(ts, 1, Seq::empty()) {
            Err(m) => Err(m),
            Ok((args, e)) => if e < ts.len() { Err("unexpected token"@) } else { Ok((ts[0]->Ident_0@, args, None)) },
        }
    }
}

/// The rest of a component-set declaration once its name and labels are read.
pub open spec fn p_set_finish(ts: Seq<TokenTree>, start: int, ident: Seq<char>, labels: Option<SpecAst>)
    -> Result<(Seq<char>, Seq<(Seq<char>, Seq<Seq<char>>, nat, bool, bool)>, Option<SpecAst>), Seq<char>>
{
    match p_set_args(ts, start, Seq::empty()) {
        Err(m) => Err(m),
        Ok((args, e)) => if e < ts.len() { Err("unexpected token"@) } else { Ok((ident, args, labels)) },
    }
}

pub open spec fn labels_view(l: Option<AstLabelItem>) -> Option<SpecAst> {
    match l {
        Some(x) => Some(x.view()),
        None => None,
    }
}

/// A component-set declaration as written.
#[derive(Debug)]
pub struct AstComponentSet {
    pub ident: String,
    pub args: Vec<AstComponentSetItem>,
    pub labels: Option<AstLabelItem>,
}

fn parse_set_item(ts: &Vec<TokenTree>, pos: usize) -> (r: Result<(AstComponentSetItem, usize), String>)
    requires
        pos <= ts@.len(),
    ensures
        match p_set_item(ts@, pos as int) {
            Ok((it, e)) => r matches Ok((x, e2)) && set_item_view(x) == it && e2 == e && pos < e <= ts@.len(),
            Err(m) => r matches Err(mm) && mm@ == m,
        },
{
    let n: usize = ts.len();
    let var = match ident_at(ts, pos) {
        Some(v) => v,
        None => return Err(String::from_str("Expected variable name")),
    };
    if !punct_at(ts, pos + 1, ':') {
        return Err(String::from_str("Expected ':'"));
    }
    let ty = parse_type(ts, pos + 2);
    match ty {
        Err(_) => Err(String::from_str("Expected variable type")),
        Ok((t, e)) => {
            proof {
                lemma_type_depth(ts@, pos + 2);
            }
            match AstComponentSetItem::from(var, &t) {
                Ok(i) => Ok((i, e)),
                Err(m) => Err(m),
            }
        },
    }
}

impl AstComponentSet {
    /// Reads the body of a component-set declaration.
    pub fn parse(input: &Vec<TokenTree>) -> (r: Result<AstComponentSet, String>)
        ensures
            match p_component_set(input@) {
                Ok((ident, args, labels)) => r matches Ok(cs) && cs.ident@ == ident
                    && set_item_views(cs.args@) == args
                    && match (cs.labels, labels) {
                        (Some(x), Some(y)) => x.view() == y,
                        (None, None) => true,
                        _ => false,
                    },
                Err(m) => r matches Err(mm) && mm@ == m,
            },
    {
        let ts = input;
        let n: usize = ts.len();
        let first = match ident_at(ts, 0) {
            Some(s) => s,
            None => return Err(String::from_str("Expected ident")),
        };
        let mut ident = first;
        let mut labels: Option<AstLabelItem> = None;
        let mut pos: usize = 1;
        if ident == String::from_str("labels") {
            if 1 < n {
                if let TokenTree::Group { stream, .. } = &ts[1] {
                    if stream.len() > 0 {
                        let e = Expression::parse(stream);
                        match e {
                            Ok(e) => {
                                proof {
                                    lemma_tree_of(e);
                                }
                                match e.to_item(false) {
                                    Ok(x) => labels = Some(x),
                                    Err(m) => return Err(m),
                                }
                            },
                            Err(m) => return Err(m),
                        }
                    }
                } else {
                    return Err(String::from_str("Expected parentheses after labels"));
                }
            } else {
                return Err(String::from_str("Expected parentheses after labels"));
            }
            if !punct_at(ts, 2, ',') {
                return Err(String::from_str("Expected ',' after label expression"));
            }
            ident = match ident_at(ts, 3) {
                Some(s) => s,
                None => return Err(String::from_str("Expected ident after label expression")),
            };
            pos = 4;
        }
        let ghost start = pos as int;
        assert(p_component_set(ts@) == p_set_finish(ts@, start, ident@, labels_view(labels)));
        let mut args: Vec<AstComponentSetItem> = Vec::new();
        proof {
            assert(set_item_views(args@) =~= Seq::<(Seq<char>, Seq<Seq<char>>, nat, bool, bool)>::empty());
        }
        while punct_at(ts, pos, ',')
            invariant
                n == ts@.len(),
                ts@ == input@,
                start <= pos <= n,
                p_set_args(ts@, start, Seq::empty()) == p_set_args(ts@, pos as int, set_item_views(args@)),
                p_component_set(ts@) == p_set_finish(ts@, start, ident@, labels_view(labels)),
            ensures
                start <= pos <= n,
                p_set_args(ts@, start, Seq::empty()) == p_set_args(ts@, pos as int, set_item_views(args@)),
                p_component_set(ts@) == p_set_finish(ts@, start, ident@, labels_view(labels)),
                pos >= n || !is_punct(ts@, pos as int, ','),
            decreases n - pos,
        {
            if pos + 1 >= n {
                pos = pos + 1;
                break;
            }
            let item = parse_set_item(ts, pos + 1);
            match item {
                Ok((it, e)) => {
                    let ghost before = args@;
                    args.push(it);
                    assert(set_item_views(args@) =~= set_item_views(before).push(set_item_view(it)));
                    pos = e;
                },
                Err(m) => return Err(m),
            }
        }
        if pos < n {
            return Err(String::from_str("unexpected token"));
        }
        Ok(AstComponentSet { ident, args, labels })
    }
}

} // verus!
