use vstd::prelude::*;

use crate::component_set::parse::LabelOp;
use crate::parse::symbol::ComponentSymbol;
use crate::component_set::resolve::{LabelItem, spec_labels, lemma_spec_labels};

verus! {

/// A component mentioned in a label expression.
#[derive(Clone, Copy, Debug, PartialEq, Eq, Structural)]
pub struct LabelSymbol {
    pub comp: ComponentSymbol,
}

/// What a symbol must be for an expression to hold.
#[derive(Clone, Copy, Debug, PartialEq, Eq, Structural)]
pub enum MustBe {
    Value(bool),
    Unknown,
}

/// The mathematical form of a label expression.
pub enum SpecLabel {
    Leaf { not: bool, sym: LabelSymbol },
    Node { op: LabelOp, items: Seq<SpecLabel> },
}

impl SpecLabel {
    /// The value of the expression when every symbol `s` has the value `a(s)`.
    pub open spec fn eval(self, a: spec_fn(LabelSymbol) -> bool) -> bool
        decreases self,
    {
        match self {
            SpecLabel::Leaf { not, sym } => a(sym) != not,
            SpecLabel::Node { op, items } => eval_all(op, items, a),
        }
    }
}

/// `op` applied to the values of all expressions in `items`.
pub open spec fn eval_all(op: LabelOp, items: Seq<SpecLabel>, a: spec_fn(LabelSymbol) -> bool) -> bool
    decreases items,
{
    if items.len() == 0 {
        op == LabelOp::And
    } else {
        let rest = eval_all(op, items.drop_last(), a);
        let last = items.last().eval(a);
        match op {
            LabelOp::And => rest && last,
            LabelOp::Or => rest || last,
        }
    }
}

} // verus!

verus! {

/// `eval_all` of `&&` holds when every item holds; of `||` when some item holds.
pub proof fn lemma_eval_all(op: LabelOp, items: Seq<SpecLabel>, a: spec_fn(LabelSymbol) -> bool)
    ensures
        op == LabelOp::And ==> (eval_all(op, items, a) <==> forall|i: int| 0 <= i < items.len() ==> #[trigger] items[i].eval(a)),
        op == LabelOp::Or ==> (eval_all(op, items, a) <==> exists|i: int| 0 <= i < items.len() && #[trigger] items[i].eval(a)),
    decreases items.len(),
{
    if items.len() > 0 {
        let rest = items.drop_last();
        lemma_eval_all(op, rest, a);
        if op == LabelOp::And {
            if eval_all(op, items, a) {
                assert forall|i: int| 0 <= i < items.len() implies #[trigger] items[i].eval(a) by {
                    if i < items.len() - 1 {
                        assert(rest[i] == items[i]);
                    }
                }
            }
            if forall|i: int| 0 <= i < items.len() ==> #[trigger] items[i].eval(a) {
                assert forall|i: int| 0 <= i < rest.len() implies #[trigger] rest[i].eval(a) by {
                    assert(rest[i] == items[i]);
                }
                assert(items[items.len() - 1].eval(a));
            }
        } else {
            if eval_all(op, items, a) {
                if eval_all(op, rest, a) {
                    let i = choose|i: int| 0 <= i < rest.len() && #[trigger] rest[i].eval(a);
                    assert(items[i] == rest[i]);
                } else {
                    assert(items[items.len() - 1].eval(a));
                }
            }
            if exists|i: int| 0 <= i < items.len() && #[trigger] items[i].eval(a) {
                let i = choose|i: int| 0 <= i < items.len() && #[trigger] items[i].eval(a);
                if i < items.len() - 1 {
                    assert(rest[i] == items[i]);
                }
            }
        }
    }
}

/// A finite map from symbols to values, kept as a list of entries with
/// distinct symbols.
#[derive(Debug)]
pub struct LabelMap<V> {
    pub entries: Vec<(LabelSymbol, V)>,
}

/// No symbol occurs twice among the entries.
pub open spec fn distinct_keys<V>(s: Seq<(LabelSymbol, V)>) -> bool {
    forall|i: int, j: int| 0 <= i < s.len() && 0 <= j < s.len() && i != j ==> s[i].0 != s[j].0
}

/// The map that a list of entries stands for.
pub open spec fn entries_map<V>(s: Seq<(LabelSymbol, V)>) -> Map<LabelSymbol, V> {
    Map::new(
        |k: LabelSymbol| exists|i: int| 0 <= i < s.len() && s[i].0 == k,
        |k: LabelSymbol| s[choose|i: int| 0 <= i < s.len() && s[i].0 == k].1,
    )
}

pub proof fn lemma_entries_map_index<V>(s: Seq<(LabelSymbol, V)>, i: int)
    requires
        distinct_keys(s),
        0 <= i < s.len(),
    ensures
        entries_map(s).contains_key(s[i].0),
        entries_map(s)[s[i].0] == s[i].1,
{
    let k = s[i].0;
    assert(exists|j: int| 0 <= j < s.len() && s[j].0 == k);
    let j = choose|j: int| 0 <= j < s.len() && s[j].0 == k;
    assert(j == i);
}

pub proof fn lemma_entries_map_push<V>(s: Seq<(LabelSymbol, V)>, k: LabelSymbol, v: V)
    requires
        distinct_keys(s),
        !entries_map(s).contains_key(k),
    ensures
        distinct_keys(s.push((k, v))),
        entries_map(s.push((k, v))) == entries_map(s).insert(k, v),
{
    let t = s.push((k, v));
    assert(distinct_keys(t)) by {
        assert forall|i: int, j: int| 0 <= i < t.len() && 0 <= j < t.len() && i != j implies t[i].0 != t[j].0 by {
            if i < s.len() && j < s.len() {
                assert(t[i] == s[i] && t[j] == s[j]);
            } else if i < s.len() {
                assert(t[i] == s[i]);
            } else {
                assert(t[j] == s[j]);
            }
        }
    }
    assert forall|q: LabelSymbol| #[trigger] entries_map(t).contains_key(q) == entries_map(s).insert(k, v).contains_key(q) by {
        if entries_map(s).contains_key(q) {
            let i = choose|i: int| 0 <= i < s.len() && s[i].0 == q;
            assert(t[i] == s[i]);
        }
        if q == k {
            assert(t[s.len() as int].0 == k);
        }
        if entries_map(t).contains_key(q) {
            let i = choose|i: int| 0 <= i < t.len() && t[i].0 == q;
            if i < s.len() {
                assert(t[i] == s[i]);
            }
        }
    }
    assert forall|q: LabelSymbol| entries_map(t).contains_key(q) implies entries_map(t)[q] == entries_map(s).insert(k, v)[q] by {
        let i = choose|i: int| 0 <= i < t.len() && t[i].0 == q;
        lemma_entries_map_index(t, i);
        if i < s.len() {
            assert(t[i] == s[i]);
            lemma_entries_map_index(s, i);
        }
    }
    assert(entries_map(t) =~= entries_map(s).insert(k, v));
}

pub proof fn lemma_entries_map_update<V>(s: Seq<(LabelSymbol, V)>, i: int, v: V)
    requires
        distinct_keys(s),
        0 <= i < s.len(),
    ensures
        distinct_keys(s.update(i, (s[i].0, v))),
        entries_map(s.update(i, (s[i].0, v))) == entries_map(s).insert(s[i].0, v),
{
    let t = s.update(i, (s[i].0, v));
    assert(distinct_keys(t)) by {
        assert forall|a: int, b: int| 0 <= a < t.len() && 0 <= b < t.len() && a != b implies t[a].0 != t[b].0 by {
            assert(t[a].0 == s[a].0 && t[b].0 == s[b].0);
        }
    }
    let m = entries_map(s).insert(s[i].0, v);
    assert forall|q: LabelSymbol| #[trigger] entries_map(t).contains_key(q) == m.contains_key(q) by {
        if entries_map(s).contains_key(q) {
            let j = choose|j: int| 0 <= j < s.len() && s[j].0 == q;
            assert(t[j].0 == q);
        }
        if entries_map(t).contains_key(q) {
            let j = choose|j: int| 0 <= j < t.len() && t[j].0 == q;
            assert(s[j].0 == q);
        }
        lemma_entries_map_index(s, i);
    }
    assert forall|q: LabelSymbol| entries_map(t).contains_key(q) implies entries_map(t)[q] == m[q] by {
        let j = choose|j: int| 0 <= j < t.len() && t[j].0 == q;
        lemma_entries_map_index(t, j);
        if j != i {
            lemma_entries_map_index(s, j);
        }
    }
    assert(entries_map(t) =~= m);
}

impl<V: Copy> LabelMap<V> {
    pub open spec fn wf(&self) -> bool {
        distinct_keys(self.entries@)
    }

    pub open spec fn map(&self) -> Map<LabelSymbol, V> {
        entries_map(self.entries@)
    }

    pub fn new() -> (m: Self)
        ensures
            m.wf(),
            m.map() == Map::<LabelSymbol, V>::empty(),
    {
        let m = LabelMap { entries: Vec::new() };
        assert(m.map() =~= Map::<LabelSymbol, V>::empty());
        m
    }

    /// Position of the entry for `k`, if any.
    pub fn find(&self, k: &LabelSymbol) -> (r: Option<usize>)
        requires
            self.wf(),
        ensures
            r matches Some(i) ==> i < self.entries@.len() && self.entries@[i as int].0 == *k,
            r is None <==> !self.map().contains_key(*k),
    {
        let mut i: usize = 0;
        while i < self.entries.len()
            invariant
                self.wf(),
                i <= self.entries@.len(),
                forall|j: int| 0 <= j < i ==> self.entries@[j].0 != *k,
            decreases self.entries@.len() - i,
        {
            if self.entries[i].0 == *k {
                proof {
                    lemma_entries_map_index(self.entries@, i as int);
                }
                return Some(i);
            }
            i = i + 1;
        }
        None
    }

    pub fn get(&self, k: &LabelSymbol) -> (r: Option<V>)
        requires
            self.wf(),
        ensures
            r == (if self.map().contains_key(*k) { Some(self.map()[*k]) } else { None::<V> }),
    {
        match self.find(k) {
            Some(i) => {
                proof {
                    lemma_entries_map_index(self.entries@, i as int);
                }
                Some(self.entries[i].1)
            },
            None => None,
        }
    }

    pub fn contains_key(&self, k: &LabelSymbol) -> (r: bool)
        requires
            self.wf(),
        ensures
            r == self.map().contains_key(*k),
    {
        self.find(k).is_some()
    }

    /// Sets the value of `k`, adding an entry when `k` has none.
    pub fn insert(&mut self, k: LabelSymbol, v: V)
        requires
            old(self).wf(),
        ensures
            final(self).wf(),
            final(self).map() == old(self).map().insert(k, v),
    {
        match self.find(&k) {
            Some(i) => {
                proof {
                    lemma_entries_map_update(self.entries@, i as int, v);
                }
                self.entries.set(i, (k, v));
            },
            None => {
                proof {
                    lemma_entries_map_push(self.entries@, k, v);
                }
                self.entries.push((k, v));
            },
        }
    }

    pub fn len(&self) -> (r: usize)
        requires
            self.wf(),
        ensures
            r == self.map().len(),
    {
        proof {
            lemma_entries_map_len(self.entries@);
        }
        self.entries.len()
    }
}

pub proof fn lemma_entries_map_len<V>(s: Seq<(LabelSymbol, V)>)
    requires
        distinct_keys(s),
    ensures
        entries_map(s).dom().finite(),
        entries_map(s).len() == s.len(),
    decreases s.len(),
{
    if s.len() == 0 {
        assert(entries_map(s).dom() =~= Set::empty());
    } else {
        let r = s.drop_last();
        assert(distinct_keys(r)) by {
            assert forall|i: int, j: int| 0 <= i < r.len() && 0 <= j < r.len() && i != j implies r[i].0 != r[j].0 by {
                assert(r[i] == s[i] && r[j] == s[j]);
            }
        }
        lemma_entries_map_len(r);
        let last = s.last();
        assert(!entries_map(r).contains_key(last.0)) by {
            if entries_map(r).contains_key(last.0) {
                let i = choose|i: int| 0 <= i < r.len() && r[i].0 == last.0;
                assert(s[i].0 == s[s.len() - 1].0);
            }
        }
        lemma_entries_map_push(r, last.0, last.1);
        assert(r.push(last) =~= s);
    }
}

pub type TruthMap = LabelMap<bool>;

pub type SymbolMap = LabelMap<MustBe>;

} // verus!

verus! {

/// What is known of an expression once the symbols of a truth map are fixed:
/// either its value, or a simplified expression together with what each of
/// its symbols must be for it to hold.
pub enum SpecResult {
    Literal(bool),
    Expression { labels: SpecLabel, symbols: Map<LabelSymbol, MustBe> },
}

/// The value of an item that decides `op` on its own: `false` for `&&`,
/// `true` for `||`.
pub open spec fn deciding_value(op: LabelOp) -> bool {
    op == LabelOp::Or
}

impl SpecLabel {
    /// Simplifies the expression under the fixed symbols of `truth`.
    pub open spec fn symbols(self, truth: Map<LabelSymbol, bool>) -> SpecResult
        decreases self,
    {
        match self {
            SpecLabel::Leaf { not, sym } => if truth.contains_key(sym) {
                SpecResult::Literal(truth[sym] == !not)
            } else {
                SpecResult::Expression {
                    labels: self,
                    symbols: Map::empty().insert(sym, MustBe::Value(!not)),
                }
            },
            SpecLabel::Node { op, items } => combine(op, symbols_all(items, truth)),
        }
    }
}

/// `symbols` of each item.
pub open spec fn symbols_all(items: Seq<SpecLabel>, truth: Map<LabelSymbol, bool>) -> Seq<SpecResult>
    decreases items,
{
    if items.len() == 0 {
        Seq::empty()
    } else {
        symbols_all(items.drop_last(), truth).push(items.last().symbols(truth))
    }
}

/// The non-literal results, in order, as (expression, symbol map) pairs.
pub open spec fn expressions_of(rs: Seq<SpecResult>) -> Seq<(SpecLabel, Map<LabelSymbol, MustBe>)>
    decreases rs.len(),
{
    if rs.len() == 0 {
        Seq::empty()
    } else {
        let rest = expressions_of(rs.drop_last());
        match rs.last() {
            SpecResult::Literal(_) => rest,
            SpecResult::Expression { labels, symbols } => rest.push((labels, symbols)),
        }
    }
}

/// Some symbol must be `true` for one expression and `false` for another.
pub open spec fn and_conflict(es: Seq<(SpecLabel, Map<LabelSymbol, MustBe>)>) -> bool {
    exists|i: int, j: int, s: LabelSymbol|
        0 <= i < es.len() && 0 <= j < es.len() && es[i].1.contains_key(s) && es[j].1.contains_key(s)
            && #[trigger] es[i].1[s] == MustBe::Value(true) && #[trigger] es[j].1[s] == MustBe::Value(false)
}

/// Some expression requires `s` to be `v`.
pub open spec fn some_requires(es: Seq<(SpecLabel, Map<LabelSymbol, MustBe>)>, s: LabelSymbol, v: bool) -> bool {
    exists|i: int| 0 <= i < es.len() && es[i].1.contains_key(s) && #[trigger] es[i].1[s] == MustBe::Value(v)
}

/// Every expression requires `s` to be `v`.
pub open spec fn all_require(es: Seq<(SpecLabel, Map<LabelSymbol, MustBe>)>, s: LabelSymbol, v: bool) -> bool {
    forall|i: int| 0 <= i < es.len() ==> es[i].1.contains_key(s) && #[trigger] es[i].1[s] == MustBe::Value(v)
}

/// Some expression mentions `s`.
pub open spec fn some_mentions(es: Seq<(SpecLabel, Map<LabelSymbol, MustBe>)>, s: LabelSymbol) -> bool {
    exists|i: int| 0 <= i < es.len() && #[trigger] es[i].1.contains_key(s)
}

/// Requirements of a conjunction: a symbol must be `v` when some part requires it.
pub open spec fn and_merge(es: Seq<(SpecLabel, Map<LabelSymbol, MustBe>)>) -> Map<LabelSymbol, MustBe> {
    Map::new(
        |s: LabelSymbol| some_mentions(es, s),
        |s: LabelSymbol|
            if some_requires(es, s, true) {
                MustBe::Value(true)
            } else if some_requires(es, s, false) {
                MustBe::Value(false)
            } else {
                MustBe::Unknown
            },
    )
}

/// Requirements of a disjunction: a symbol must be `v` when every part requires it.
pub open spec fn or_merge(es: Seq<(SpecLabel, Map<LabelSymbol, MustBe>)>) -> Map<LabelSymbol, MustBe> {
    Map::new(
        |s: LabelSymbol| some_mentions(es, s),
        |s: LabelSymbol|
            if all_require(es, s, true) {
                MustBe::Value(true)
            } else if all_require(es, s, false) {
                MustBe::Value(false)
            } else {
                MustBe::Unknown
            },
    )
}

/// The expressions of `es` joined by `op`; a single one stands alone.
pub open spec fn join_labels(op: LabelOp, es: Seq<(SpecLabel, Map<LabelSymbol, MustBe>)>) -> SpecLabel {
    if es.len() == 1 {
        es[0].0
    } else {
        SpecLabel::Node { op, items: es.map_values(|e: (SpecLabel, Map<LabelSymbol, MustBe>)| e.0) }
    }
}

/// Combines the results of the items of `op`: literals equal to the deciding
/// value decide it; the others drop out; the remaining expressions are joined
/// and their requirements merged, and a conjunction whose parts require a
/// symbol both ways is false.
pub open spec fn combine(op: LabelOp, rs: Seq<SpecResult>) -> SpecResult {
    if exists|i: int| 0 <= i < rs.len() && rs[i] == SpecResult::Literal(deciding_value(op)) {
        SpecResult::Literal(deciding_value(op))
    } else {
        let es = expressions_of(rs);
        if es.len() == 0 {
            SpecResult::Literal(!deciding_value(op))
        } else if op == LabelOp::And && and_conflict(es) {
            SpecResult::Literal(false)
        } else {
            SpecResult::Expression {
                labels: join_labels(op, es),
                symbols: if op == LabelOp::And { and_merge(es) } else { or_merge(es) },
            }
        }
    }
}

pub proof fn lemma_symbols_all(items: Seq<SpecLabel>, truth: Map<LabelSymbol, bool>)
    ensures
        symbols_all(items, truth).len() == items.len(),
        forall|i: int| 0 <= i < items.len() ==> #[trigger] symbols_all(items, truth)[i] == items[i].symbols(truth),
    decreases items.len(),
{
    if items.len() > 0 {
        lemma_symbols_all(items.drop_last(), truth);
    }
}

} // verus!

verus! {

/// Every symbol of `truth` has its value under `a`.
pub open spec fn agrees(a: spec_fn(LabelSymbol) -> bool, truth: Map<LabelSymbol, bool>) -> bool {
    forall|s: LabelSymbol| #[trigger] truth.contains_key(s) ==> a(s) == truth[s]
}

/// Every requirement of `symbols` is met by `a`.
#[verifier::opaque]
pub open spec fn requirements_hold(symbols: Map<LabelSymbol, MustBe>, a: spec_fn(LabelSymbol) -> bool) -> bool {
    forall|s: LabelSymbol| #[trigger] symbols.contains_key(s) ==> match symbols[s] {
        MustBe::Value(v) => a(s) == v,
        MustBe::Unknown => true,
    }
}

/// `r` describes an expression whose value under `a` is `value`.
pub open spec fn describes(r: SpecResult, value: bool, a: spec_fn(LabelSymbol) -> bool) -> bool {
    match r {
        SpecResult::Literal(b) => value == b,
        SpecResult::Expression { labels, symbols } => value == labels.eval(a) && (labels.eval(a)
            ==> requirements_hold(symbols, a)),
    }
}

pub proof fn lemma_expressions_of(rs: Seq<SpecResult>)
    ensures
        forall|j: int| 0 <= j < expressions_of(rs).len() ==> exists|i: int| 0 <= i < rs.len()
            && #[trigger] rs[i] == (SpecResult::Expression {
                labels: (#[trigger] expressions_of(rs)[j]).0,
                symbols: expressions_of(rs)[j].1,
            }),
        forall|i: int| 0 <= i < rs.len() && (#[trigger] rs[i] is Expression) ==> exists|j: int|
            0 <= j < expressions_of(rs).len() && rs[i] == (SpecResult::Expression {
                labels: (#[trigger] expressions_of(rs)[j]).0,
                symbols: expressions_of(rs)[j].1,
            }),
        expressions_of(rs).len() <= rs.len(),
    decreases rs.len(),
{
    if rs.len() > 0 {
        let r = rs.drop_last();
        lemma_expressions_of(r);
        let er = expressions_of(r);
        let e = expressions_of(rs);
        assert forall|j: int| 0 <= j < e.len() implies exists|i: int| 0 <= i < rs.len()
            && #[trigger] rs[i] == (SpecResult::Expression { labels: (#[trigger] e[j]).0, symbols: e[j].1 }) by {
            if j < er.len() {
                assert(e[j] == er[j]);
                let i = choose|i: int| 0 <= i < r.len()
                    && #[trigger] r[i] == (SpecResult::Expression { labels: er[j].0, symbols: er[j].1 });
                assert(rs[i] == r[i]);
            } else {
                assert(rs[rs.len() - 1] == (SpecResult::Expression { labels: e[j].0, symbols: e[j].1 }));
            }
        }
        assert forall|i: int| 0 <= i < rs.len() && (#[trigger] rs[i] is Expression) implies exists|j: int|
            0 <= j < e.len() && rs[i] == (SpecResult::Expression { labels: (#[trigger] e[j]).0, symbols: e[j].1 }) by {
            if i < r.len() {
                assert(r[i] == rs[i]);
                let j = choose|j: int| 0 <= j < er.len()
                    && r[i] == (SpecResult::Expression { labels: (#[trigger] er[j]).0, symbols: er[j].1 });
                assert(e[j] == er[j]);
            } else {
                assert(e[e.len() - 1].0 == rs[i]->labels);
            }
        }
    }
}

/// The labels of a list of (expression, requirements) pairs.
pub open spec fn labels_of(es: Seq<(SpecLabel, Map<LabelSymbol, MustBe>)>) -> Seq<SpecLabel> {
    es.map_values(|e: (SpecLabel, Map<LabelSymbol, MustBe>)| e.0)
}

/// The joined labels take the value of `op` applied to the expressions.
pub proof fn lemma_join_labels_eval(op: LabelOp, es: Seq<(SpecLabel, Map<LabelSymbol, MustBe>)>, a: spec_fn(LabelSymbol) -> bool)
    requires
        es.len() > 0,
    ensures
        op == LabelOp::And ==> (join_labels(op, es).eval(a) <==> forall|j: int| 0 <= j < es.len() ==> (#[trigger] es[j]).0.eval(a)),
        op == LabelOp::Or ==> (join_labels(op, es).eval(a) <==> exists|j: int| 0 <= j < es.len() && (#[trigger] es[j]).0.eval(a)),
{
    let ls = labels_of(es);
    lemma_eval_all(op, ls, a);
    assert forall|j: int| 0 <= j < es.len() implies #[trigger] ls[j] == es[j].0 by {}
    if es.len() != 1 {
        if op == LabelOp::And {
            if forall|j: int| 0 <= j < es.len() ==> (#[trigger] es[j]).0.eval(a) {
                assert forall|j: int| 0 <= j < ls.len() implies #[trigger] ls[j].eval(a) by {
                    assert(ls[j] == es[j].0);
                }
            }
            if join_labels(op, es).eval(a) {
                assert forall|j: int| 0 <= j < es.len() implies (#[trigger] es[j]).0.eval(a) by {
                    assert(ls[j] == es[j].0);
                }
            }
        } else {
            if exists|j: int| 0 <= j < es.len() && (#[trigger] es[j]).0.eval(a) {
                let j = choose|j: int| 0 <= j < es.len() && (#[trigger] es[j]).0.eval(a);
                assert(ls[j] == es[j].0);
            }
            if join_labels(op, es).eval(a) {
                let j = choose|j: int| 0 <= j < ls.len() && #[trigger] ls[j].eval(a);
                assert(ls[j] == es[j].0);
            }
        }
    }
}

/// Each remaining expression describes some item, and each item either has the
/// non-deciding value or the value of some remaining expression.
pub open spec fn exprs_track_items(
    op: LabelOp,
    items: Seq<SpecLabel>,
    es: Seq<(SpecLabel, Map<LabelSymbol, MustBe>)>,
    a: spec_fn(LabelSymbol) -> bool,
) -> bool {
    &&& forall|j: int| 0 <= j < es.len() ==> exists|i: int| 0 <= i < items.len()
        && items[i].eval(a) == (#[trigger] es[j]).0.eval(a)
        && (es[j].0.eval(a) ==> requirements_hold(es[j].1, a))
    &&& forall|i: int| 0 <= i < items.len() ==> (#[trigger] items[i].eval(a) == !deciding_value(op)
        || exists|j: int| 0 <= j < es.len() && (#[trigger] es[j]).0.eval(a) == items[i].eval(a))
}

pub proof fn lemma_and_describes(
    items: Seq<SpecLabel>,
    es: Seq<(SpecLabel, Map<LabelSymbol, MustBe>)>,
    a: spec_fn(LabelSymbol) -> bool,
)
    requires
        es.len() > 0,
        exprs_track_items(LabelOp::And, items, es, a),
    ensures
        eval_all(LabelOp::And, items, a) == join_labels(LabelOp::And, es).eval(a),
        eval_all(LabelOp::And, items, a) ==> !and_conflict(es) && requirements_hold(and_merge(es), a),
{
    reveal(requirements_hold);
    let op = LabelOp::And;
    lemma_eval_all(op, items, a);
    lemma_join_labels_eval(op, es, a);
    if eval_all(op, items, a) {
        assert forall|j: int| 0 <= j < es.len() implies (#[trigger] es[j]).0.eval(a) && requirements_hold(es[j].1, a) by {
            let i = choose|i: int| 0 <= i < items.len()
                && items[i].eval(a) == (#[trigger] es[j]).0.eval(a)
                && (es[j].0.eval(a) ==> requirements_hold(es[j].1, a));
            assert(items[i].eval(a));
        }
        if and_conflict(es) {
            let (i, j, s) = choose|i: int, j: int, s: LabelSymbol|
                0 <= i < es.len() && 0 <= j < es.len() && es[i].1.contains_key(s) && es[j].1.contains_key(s)
                    && #[trigger] es[i].1[s] == MustBe::Value(true) && #[trigger] es[j].1[s] == MustBe::Value(false);
            assert(requirements_hold(es[i].1, a));
            assert(requirements_hold(es[j].1, a));
        }
        let m = and_merge(es);
        assert forall|s: LabelSymbol| #[trigger] m.contains_key(s) implies match m[s] {
            MustBe::Value(v) => a(s) == v,
            MustBe::Unknown => true,
        } by {
            if some_requires(es, s, true) {
                let i = choose|i: int| 0 <= i < es.len() && es[i].1.contains_key(s) && #[trigger] es[i].1[s] == MustBe::Value(true);
                assert(requirements_hold(es[i].1, a));
            } else if some_requires(es, s, false) {
                let i = choose|i: int| 0 <= i < es.len() && es[i].1.contains_key(s) && #[trigger] es[i].1[s] == MustBe::Value(false);
                assert(requirements_hold(es[i].1, a));
            }
        }
    }
    if forall|j: int| 0 <= j < es.len() ==> (#[trigger] es[j]).0.eval(a) {
        assert forall|i: int| 0 <= i < items.len() implies #[trigger] items[i].eval(a) by {
            if !items[i].eval(a) {
                let j = choose|j: int| 0 <= j < es.len() && (#[trigger] es[j]).0.eval(a) == items[i].eval(a);
            }
        }
    }
}

pub proof fn lemma_or_describes(
    items: Seq<SpecLabel>,
    es: Seq<(SpecLabel, Map<LabelSymbol, MustBe>)>,
    a: spec_fn(LabelSymbol) -> bool,
)
    requires
        es.len() > 0,
        exprs_track_items(LabelOp::Or, items, es, a),
    ensures
        eval_all(LabelOp::Or, items, a) == join_labels(LabelOp::Or, es).eval(a),
        eval_all(LabelOp::Or, items, a) ==> requirements_hold(or_merge(es), a),
{
    reveal(requirements_hold);
    let op = LabelOp::Or;
    lemma_eval_all(op, items, a);
    lemma_join_labels_eval(op, es, a);
    if eval_all(op, items, a) {
        let i = choose|i: int| 0 <= i < items.len() && #[trigger] items[i].eval(a);
        let j = choose|j: int| 0 <= j < es.len() && (#[trigger] es[j]).0.eval(a) == items[i].eval(a);
        let i2 = choose|i: int| 0 <= i < items.len()
            && items[i].eval(a) == (#[trigger] es[j]).0.eval(a)
            && (es[j].0.eval(a) ==> requirements_hold(es[j].1, a));
        assert(requirements_hold(es[j].1, a));
        let m = or_merge(es);
        assert forall|s: LabelSymbol| #[trigger] m.contains_key(s) implies match m[s] {
            MustBe::Value(v) => a(s) == v,
            MustBe::Unknown => true,
        } by {
            if all_require(es, s, true) {
                assert(es[j].1[s] == MustBe::Value(true));
            } else if all_require(es, s, false) {
                assert(es[j].1[s] == MustBe::Value(false));
            }
        }
    }
    if exists|j: int| 0 <= j < es.len() && (#[trigger] es[j]).0.eval(a) {
        let j = choose|j: int| 0 <= j < es.len() && (#[trigger] es[j]).0.eval(a);
        let i = choose|i: int| 0 <= i < items.len()
            && items[i].eval(a) == (#[trigger] es[j]).0.eval(a)
            && (es[j].0.eval(a) ==> requirements_hold(es[j].1, a));
        assert(items[i].eval(a));
    }
}

pub proof fn lemma_exprs_track_items_1(
    items: Seq<SpecLabel>,
    rs: Seq<SpecResult>,
    a: spec_fn(LabelSymbol) -> bool,
)
    requires
        rs.len() == items.len(),
        forall|i: int| 0 <= i < items.len() ==> describes(#[trigger] rs[i], items[i].eval(a), a),
    ensures
        forall|j: int| 0 <= j < expressions_of(rs).len() ==> exists|i: int| 0 <= i < items.len()
            && items[i].eval(a) == (#[trigger] expressions_of(rs)[j]).0.eval(a)
            && (expressions_of(rs)[j].0.eval(a) ==> requirements_hold(expressions_of(rs)[j].1, a)),
{
    lemma_expressions_of(rs);
    let es = expressions_of(rs);
    assert forall|j: int| 0 <= j < es.len() implies exists|i: int| 0 <= i < items.len()
        && items[i].eval(a) == (#[trigger] es[j]).0.eval(a)
        && (es[j].0.eval(a) ==> requirements_hold(es[j].1, a)) by {
        let i = choose|i: int| 0 <= i < rs.len()
            && #[trigger] rs[i] == (SpecResult::Expression { labels: es[j].0, symbols: es[j].1 });
        assert(describes(rs[i], items[i].eval(a), a));
    }
}

pub proof fn lemma_exprs_track_items_2(
    d: bool,
    items: Seq<SpecLabel>,
    rs: Seq<SpecResult>,
    a: spec_fn(LabelSymbol) -> bool,
)
    requires
        rs.len() == items.len(),
        forall|i: int| 0 <= i < items.len() ==> describes(#[trigger] rs[i], items[i].eval(a), a),
        !exists|i: int| 0 <= i < rs.len() && rs[i] == SpecResult::Literal(d),
    ensures
        forall|i: int| 0 <= i < items.len() ==> (#[trigger] items[i].eval(a) == !d
            || exists|j: int| 0 <= j < expressions_of(rs).len() && (#[trigger] expressions_of(rs)[j]).0.eval(a) == items[i].eval(a)),
{
    lemma_expressions_of(rs);
    let es = expressions_of(rs);
    assert forall|i: int| 0 <= i < items.len() implies (#[trigger] items[i].eval(a) == !d
        || exists|j: int| 0 <= j < es.len() && (#[trigger] es[j]).0.eval(a) == items[i].eval(a)) by {
        assert(describes(rs[i], items[i].eval(a), a));
        if rs[i] is Expression {
            let j = choose|j: int| 0 <= j < es.len() && rs[i] == (SpecResult::Expression {
                labels: (#[trigger] es[j]).0, symbols: es[j].1 });
        } else {
            assert(rs[i] != SpecResult::Literal(d));
        }
    }
}

pub proof fn lemma_exprs_track_items(
    op: LabelOp,
    items: Seq<SpecLabel>,
    rs: Seq<SpecResult>,
    a: spec_fn(LabelSymbol) -> bool,
)
    requires
        rs.len() == items.len(),
        forall|i: int| 0 <= i < items.len() ==> describes(#[trigger] rs[i], items[i].eval(a), a),
        !exists|i: int| 0 <= i < rs.len() && rs[i] == SpecResult::Literal(deciding_value(op)),
    ensures
        exprs_track_items(op, items, expressions_of(rs), a),
{
    lemma_exprs_track_items_1(items, rs, a);
    lemma_exprs_track_items_2(deciding_value(op), items, rs, a);
}

/// Each result describes its item: then their combination describes `op`
/// applied to the items.
pub proof fn lemma_combine_describes(
    op: LabelOp,
    items: Seq<SpecLabel>,
    rs: Seq<SpecResult>,
    a: spec_fn(LabelSymbol) -> bool,
)
    requires
        rs.len() == items.len(),
        forall|i: int| 0 <= i < items.len() ==> describes(#[trigger] rs[i], items[i].eval(a), a),
    ensures
        describes(combine(op, rs), eval_all(op, items, a), a),
{
    let d = deciding_value(op);
    if exists|i: int| 0 <= i < rs.len() && rs[i] == SpecResult::Literal(d) {
        let i = choose|i: int| 0 <= i < rs.len() && rs[i] == SpecResult::Literal(d);
        assert(describes(rs[i], items[i].eval(a), a));
        lemma_eval_all(op, items, a);
    } else {
        let es = expressions_of(rs);
        lemma_exprs_track_items(op, items, rs, a);
        if es.len() == 0 {
            lemma_eval_all(op, items, a);
            assert forall|i: int| 0 <= i < items.len() implies #[trigger] items[i].eval(a) == !d by {}
            if op == LabelOp::Or && eval_all(op, items, a) {
                let i = choose|i: int| 0 <= i < items.len() && #[trigger] items[i].eval(a);
            }
        } else if op == LabelOp::And {
            lemma_and_describes(items, es, a);
        } else {
            lemma_or_describes(items, es, a);
        }
    }
}

/// Simplifying under a truth map is sound: whatever agrees with the truth map
/// gives the simplified expression the value of the expression `x`, and a
/// valuation that makes `x` true meets every requirement.
pub proof fn lemma_symbols_describe(x: SpecLabel, truth: Map<LabelSymbol, bool>, a: spec_fn(LabelSymbol) -> bool)
    requires
        agrees(a, truth),
    ensures
        describes(x.symbols(truth), x.eval(a), a),
    decreases x,
{
    match x {
        SpecLabel::Leaf { not, sym } => {
            if !truth.contains_key(sym) {
                let m = Map::empty().insert(sym, MustBe::Value(!not));
                reveal(requirements_hold);
                if a(sym) != not {
                    assert forall|s: LabelSymbol| #[trigger] m.contains_key(s) implies match m[s] {
                        MustBe::Value(v) => a(s) == v,
                        MustBe::Unknown => true,
                    } by {
                        assert(s == sym);
                    }
                }
            }
        },
        SpecLabel::Node { op, items } => {
            let rs = symbols_all(items, truth);
            lemma_symbols_all(items, truth);
            assert forall|i: int| 0 <= i < items.len() implies describes(#[trigger] rs[i], items[i].eval(a), a) by {
                lemma_symbols_describe(items[i], truth, a);
            }
            lemma_combine_describes(op, items, rs, a);
        },
    }
}

} // verus!

verus! {

/// `m1` and `m2` require some symbol to take opposite values.
pub open spec fn pair_conflict(m1: Map<LabelSymbol, MustBe>, m2: Map<LabelSymbol, MustBe>) -> bool {
    exists|s: LabelSymbol|
        m1.contains_key(s) && m2.contains_key(s) && ((#[trigger] m1[s] == MustBe::Value(true) && m2[s] == MustBe::Value(false))
            || (m1[s] == MustBe::Value(false) && m2[s] == MustBe::Value(true)))
}

/// Requirements of `m1` and `m2` together (conjunction).
pub open spec fn and_pair(m1: Map<LabelSymbol, MustBe>, m2: Map<LabelSymbol, MustBe>) -> Map<LabelSymbol, MustBe> {
    Map::new(
        |s: LabelSymbol| m1.contains_key(s) || m2.contains_key(s),
        |s: LabelSymbol|
            if (m1.contains_key(s) && m1[s] == MustBe::Value(true)) || (m2.contains_key(s) && m2[s] == MustBe::Value(true)) {
                MustBe::Value(true)
            } else if (m1.contains_key(s) && m1[s] == MustBe::Value(false)) || (m2.contains_key(s) && m2[s] == MustBe::Value(false)) {
                MustBe::Value(false)
            } else {
                MustBe::Unknown
            },
    )
}

/// Requirements shared by `m1` and `m2` (disjunction).
pub open spec fn or_pair(m1: Map<LabelSymbol, MustBe>, m2: Map<LabelSymbol, MustBe>) -> Map<LabelSymbol, MustBe> {
    Map::new(
        |s: LabelSymbol| m1.contains_key(s) || m2.contains_key(s),
        |s: LabelSymbol|
            if m1.contains_key(s) && m2.contains_key(s) && m1[s] == m2[s] && m1[s] is Value {
                m1[s]
            } else {
                MustBe::Unknown
            },
    )
}

pub proof fn lemma_merge_first(es: Seq<(SpecLabel, Map<LabelSymbol, MustBe>)>)
    requires
        es.len() > 0,
    ensures
        and_merge(es.take(1)) == es[0].1,
        or_merge(es.take(1)) == es[0].1,
        !and_conflict(es.take(1)),
{
    let t = es.take(1);
    assert(t[0] == es[0]);
    let m = es[0].1;
    assert forall|s: LabelSymbol| #[trigger] and_merge(t).contains_key(s) == m.contains_key(s) by {
        if m.contains_key(s) {
            assert(t[0].1.contains_key(s));
        }
    }
    assert(and_merge(t) =~= m);
    assert forall|s: LabelSymbol| #[trigger] or_merge(t).contains_key(s) == m.contains_key(s) by {
        if m.contains_key(s) {
            assert(t[0].1.contains_key(s));
        }
    }
    assert forall|s: LabelSymbol| or_merge(t).contains_key(s) implies #[trigger] or_merge(t)[s] == m[s] by {
        if m[s] == MustBe::Value(true) {
            assert(all_require(t, s, true));
        } else if m[s] == MustBe::Value(false) {
            assert(all_require(t, s, false));
        } else {
            assert(!all_require(t, s, true) ==> true);
            if all_require(t, s, true) {
                assert(t[0].1[s] == MustBe::Value(true));
            }
            if all_require(t, s, false) {
                assert(t[0].1[s] == MustBe::Value(false));
            }
        }
    }
    assert(or_merge(t) =~= m);
    if and_conflict(t) {
        let (i, j, s) = choose|i: int, j: int, s: LabelSymbol|
            0 <= i < t.len() && 0 <= j < t.len() && t[i].1.contains_key(s) && t[j].1.contains_key(s)
                && #[trigger] t[i].1[s] == MustBe::Value(true) && #[trigger] t[j].1[s] == MustBe::Value(false);
        assert(i == 0 && j == 0);
    }
}

pub proof fn lemma_and_merge_step(es: Seq<(SpecLabel, Map<LabelSymbol, MustBe>)>, k: int)
    requires
        0 < k < es.len(),
        !and_conflict(es.take(k)),
    ensures
        and_conflict(es.take(k + 1)) == pair_conflict(and_merge(es.take(k)), es[k].1),
        !and_conflict(es.take(k + 1)) ==> and_merge(es.take(k + 1)) == and_pair(and_merge(es.take(k)), es[k].1),
{
    let p = es.take(k);
    let q = es.take(k + 1);
    let m = and_merge(p);
    let n = es[k].1;
    assert forall|i: int| 0 <= i < k implies #[trigger] q[i] == p[i] by {}
    assert(q[k] == es[k]);
    if and_conflict(q) {
        let (i, j, s) = choose|i: int, j: int, s: LabelSymbol|
            0 <= i < q.len() && 0 <= j < q.len() && q[i].1.contains_key(s) && q[j].1.contains_key(s)
                && #[trigger] q[i].1[s] == MustBe::Value(true) && #[trigger] q[j].1[s] == MustBe::Value(false);
        if i < k && j < k {
            assert(p[i] == q[i] && p[j] == q[j]);
        } else if i < k {
            assert(p[i] == q[i]);
            assert(some_requires(p, s, true));
            assert(some_mentions(p, s));
            assert(m[s] == MustBe::Value(true));
            assert(pair_conflict(m, n));
        } else if j < k {
            assert(p[j] == q[j]);
            assert(some_requires(p, s, false));
            assert(some_mentions(p, s));
            if some_requires(p, s, true) {
                let i2 = choose|i2: int| 0 <= i2 < p.len() && p[i2].1.contains_key(s) && #[trigger] p[i2].1[s] == MustBe::Value(true);
                assert(and_conflict(p));
            }
            assert(m[s] == MustBe::Value(false));
            assert(n[s] == MustBe::Value(true));
            assert(pair_conflict(m, n));
        }
    }
    if pair_conflict(m, n) {
        let s = choose|s: LabelSymbol|
            m.contains_key(s) && n.contains_key(s) && ((#[trigger] m[s] == MustBe::Value(true) && n[s] == MustBe::Value(false))
                || (m[s] == MustBe::Value(false) && n[s] == MustBe::Value(true)));
        if m[s] == MustBe::Value(true) {
            let i = choose|i: int| 0 <= i < p.len() && p[i].1.contains_key(s) && #[trigger] p[i].1[s] == MustBe::Value(true);
            assert(q[i] == p[i]);
            assert(and_conflict(q));
        } else {
            if some_requires(p, s, true) {
            } else {
                let i = choose|i: int| 0 <= i < p.len() && p[i].1.contains_key(s) && #[trigger] p[i].1[s] == MustBe::Value(false);
                assert(q[i] == p[i]);
                assert(q[k].1[s] == MustBe::Value(true));
                assert(and_conflict(q));
            }
        }
    }
    if !and_conflict(q) {
        let r = and_pair(m, n);
        assert forall|s: LabelSymbol| #[trigger] and_merge(q).contains_key(s) == r.contains_key(s) by {
            if some_mentions(q, s) {
                let i = choose|i: int| 0 <= i < q.len() && #[trigger] q[i].1.contains_key(s);
                if i < k {
                    assert(p[i] == q[i]);
                }
            }
            if some_mentions(p, s) {
                let i = choose|i: int| 0 <= i < p.len() && #[trigger] p[i].1.contains_key(s);
                assert(q[i] == p[i]);
            }
            if n.contains_key(s) {
                assert(q[k].1.contains_key(s));
            }
        }
        assert forall|s: LabelSymbol| and_merge(q).contains_key(s) implies #[trigger] and_merge(q)[s] == r[s] by {
            if some_requires(q, s, true) {
                let i = choose|i: int| 0 <= i < q.len() && q[i].1.contains_key(s) && #[trigger] q[i].1[s] == MustBe::Value(true);
                if i < k {
                    assert(p[i] == q[i]);
                    assert(some_requires(p, s, true));
                    assert(some_mentions(p, s));
                }
            } else {
                if some_requires(p, s, true) {
                    let i = choose|i: int| 0 <= i < p.len() && p[i].1.contains_key(s) && #[trigger] p[i].1[s] == MustBe::Value(true);
                    assert(q[i] == p[i]);
                }
                if n.contains_key(s) && n[s] == MustBe::Value(true) {
                    assert(q[k].1[s] == MustBe::Value(true));
                }
                if some_requires(q, s, false) {
                    let i = choose|i: int| 0 <= i < q.len() && q[i].1.contains_key(s) && #[trigger] q[i].1[s] == MustBe::Value(false);
                    if i < k {
                        assert(p[i] == q[i]);
                        assert(some_requires(p, s, false));
                        assert(some_mentions(p, s));
                    }
                } else {
                    if some_requires(p, s, false) {
                        let i = choose|i: int| 0 <= i < p.len() && p[i].1.contains_key(s) && #[trigger] p[i].1[s] == MustBe::Value(false);
                        assert(q[i] == p[i]);
                    }
                    if n.contains_key(s) && n[s] == MustBe::Value(false) {
                        assert(q[k].1[s] == MustBe::Value(false));
                    }
                }
            }
        }
        assert(and_merge(q) =~= r);
    }
}

pub proof fn lemma_or_merge_step(es: Seq<(SpecLabel, Map<LabelSymbol, MustBe>)>, k: int)
    requires
        0 < k < es.len(),
    ensures
        or_merge(es.take(k + 1)) == or_pair(or_merge(es.take(k)), es[k].1),
{
    let p = es.take(k);
    let q = es.take(k + 1);
    let m = or_merge(p);
    let n = es[k].1;
    let r = or_pair(m, n);
    assert forall|i: int| 0 <= i < k implies #[trigger] q[i] == p[i] by {}
    assert(q[k] == es[k]);
    assert forall|s: LabelSymbol| #[trigger] or_merge(q).contains_key(s) == r.contains_key(s) by {
        if some_mentions(q, s) {
            let i = choose|i: int| 0 <= i < q.len() && #[trigger] q[i].1.contains_key(s);
            if i < k {
                assert(p[i] == q[i]);
            }
        }
        if some_mentions(p, s) {
            let i = choose|i: int| 0 <= i < p.len() && #[trigger] p[i].1.contains_key(s);
            assert(q[i] == p[i]);
        }
        if n.contains_key(s) {
            assert(q[k].1.contains_key(s));
        }
    }
    assert forall|s: LabelSymbol| or_merge(q).contains_key(s) implies #[trigger] or_merge(q)[s] == r[s] by {
        assert forall|v: bool| all_require(q, s, v) == (all_require(p, s, v) && n.contains_key(s) && n[s] == MustBe::Value(v)) by {
            if all_require(q, s, v) {
                assert forall|i: int| 0 <= i < p.len() implies p[i].1.contains_key(s) && #[trigger] p[i].1[s] == MustBe::Value(v) by {
                    assert(q[i] == p[i]);
                }
                assert(q[k].1.contains_key(s));
            }
            if all_require(p, s, v) && n.contains_key(s) && n[s] == MustBe::Value(v) {
                assert forall|i: int| 0 <= i < q.len() implies q[i].1.contains_key(s) && #[trigger] q[i].1[s] == MustBe::Value(v) by {
                    if i < k {
                        assert(q[i] == p[i]);
                    }
                }
            }
        }
        assert(all_require(p, s, true) ==> some_mentions(p, s)) by {
            if all_require(p, s, true) {
                assert(p[0].1[s] == MustBe::Value(true));
                assert(p[0].1.contains_key(s));
            }
        }
        assert(all_require(p, s, false) ==> some_mentions(p, s)) by {
            if all_require(p, s, false) {
                assert(p[0].1[s] == MustBe::Value(false));
                assert(p[0].1.contains_key(s));
            }
        }
    }
    assert(or_merge(q) =~= r);
}

} // verus!

verus! {

pub proof fn lemma_entries_map_take_step<V>(s: Seq<(LabelSymbol, V)>, j: int)
    requires
        distinct_keys(s),
        0 <= j < s.len(),
    ensures
        distinct_keys(s.take(j)),
        !entries_map(s.take(j)).contains_key(s[j].0),
        entries_map(s.take(j + 1)) == entries_map(s.take(j)).insert(s[j].0, s[j].1),
{
    let t = s.take(j);
    assert(distinct_keys(t)) by {
        assert forall|a: int, b: int| 0 <= a < t.len() && 0 <= b < t.len() && a != b implies t[a].0 != t[b].0 by {
            assert(t[a] == s[a] && t[b] == s[b]);
        }
    }
    if entries_map(t).contains_key(s[j].0) {
        let i = choose|i: int| 0 <= i < t.len() && t[i].0 == s[j].0;
        assert(t[i] == s[i]);
    }
    lemma_entries_map_push(t, s[j].0, s[j].1);
    assert(t.push(s[j]) =~= s.take(j + 1));
}

pub proof fn lemma_entries_map_take_all<V>(s: Seq<(LabelSymbol, V)>)
    ensures
        entries_map(s.take(s.len() as int)) == entries_map(s),
{
    assert(s.take(s.len() as int) =~= s);
}

/// The requirement on `k` of a conjunction whose parts require `a` and `b`.
pub open spec fn and_value(a: Option<MustBe>, b: Option<MustBe>) -> MustBe {
    if a == Some(MustBe::Value(true)) || b == Some(MustBe::Value(true)) {
        MustBe::Value(true)
    } else if a == Some(MustBe::Value(false)) || b == Some(MustBe::Value(false)) {
        MustBe::Value(false)
    } else {
        MustBe::Unknown
    }
}

pub open spec fn lookup(m: Map<LabelSymbol, MustBe>, k: LabelSymbol) -> Option<MustBe> {
    if m.contains_key(k) { Some(m[k]) } else { None }
}

pub proof fn lemma_and_pair_insert(m: Map<LabelSymbol, MustBe>, p: Map<LabelSymbol, MustBe>, k: LabelSymbol, v: MustBe)
    requires
        !p.contains_key(k),
    ensures
        and_pair(m, p.insert(k, v)) == and_pair(m, p).insert(k, and_value(lookup(m, k), Some(v))),
        pair_conflict(m, p.insert(k, v)) == (pair_conflict(m, p) || (m.contains_key(k) && ((m[k] == MustBe::Value(true)
            && v == MustBe::Value(false)) || (m[k] == MustBe::Value(false) && v == MustBe::Value(true))))),
{
    let q = p.insert(k, v);
    assert(and_pair(m, q) =~= and_pair(m, p).insert(k, and_value(lookup(m, k), Some(v))));
    if pair_conflict(m, q) {
        let s = choose|s: LabelSymbol|
            m.contains_key(s) && q.contains_key(s) && ((#[trigger] m[s] == MustBe::Value(true) && q[s] == MustBe::Value(false))
                || (m[s] == MustBe::Value(false) && q[s] == MustBe::Value(true)));
        if s != k {
            assert(p[s] == q[s]);
            assert(pair_conflict(m, p));
        }
    }
    if pair_conflict(m, p) {
        let s = choose|s: LabelSymbol|
            m.contains_key(s) && p.contains_key(s) && ((#[trigger] m[s] == MustBe::Value(true) && p[s] == MustBe::Value(false))
                || (m[s] == MustBe::Value(false) && p[s] == MustBe::Value(true)));
        assert(q[s] == p[s]);
        assert(pair_conflict(m, q));
    }
    if m.contains_key(k) && ((m[k] == MustBe::Value(true) && v == MustBe::Value(false)) || (m[k] == MustBe::Value(false) && v == MustBe::Value(true))) {
        assert(q[k] == v);
        assert(pair_conflict(m, q));
    }
}

impl SymbolMap {
    /// Adds the requirements of `next` (conjunction). Returns `true`, and
    /// leaves the map in an unspecified state, when the two require some
    /// symbol both ways.
    fn merge_and(&mut self, next: &SymbolMap) -> (conflict: bool)
        requires
            old(self).wf(),
            next.wf(),
        ensures
            conflict == pair_conflict(old(self).map(), next.map()),
            !conflict ==> final(self).wf() && final(self).map() == and_pair(old(self).map(), next.map()),
    {
        let ghost m = old(self).map();
        let ghost ns = next.entries@;
        let mut j: usize = 0;
        proof {
            assert(entries_map(ns.take(0)) =~= Map::<LabelSymbol, MustBe>::empty());
            assert(and_pair(m, Map::<LabelSymbol, MustBe>::empty()) =~= m);
        }
        while j < next.entries.len()
            invariant
                next.wf(),
                ns == next.entries@,
                m == old(self).map(),
                j <= ns.len(),
                self.wf(),
                !pair_conflict(m, entries_map(ns.take(j as int))),
                self.map() == and_pair(m, entries_map(ns.take(j as int))),
            decreases ns.len() - j,
        {
            let (sym, n) = next.entries[j];
            proof {
                lemma_entries_map_take_step(ns, j as int);
                lemma_and_pair_insert(m, entries_map(ns.take(j as int)), sym, n);
                lemma_entries_map_index(ns, j as int);
            }
            match self.get(&sym) {
                Some(cur) => {
                    let merged = match (cur, n) {
                        (MustBe::Value(v1), MustBe::Value(v2)) => {
                            if v1 != v2 {
                                proof {
                                    assert(m.contains_key(sym));
                                    assert(m[sym] == MustBe::Value(v1));
                                    assert(next.map()[sym] == MustBe::Value(v2));
                                    assert(m.contains_key(sym) && next.map().contains_key(sym));
                                    assert(pair_conflict(m, next.map()));
                                }
                                return true;
                            }
                            MustBe::Value(v1)
                        },
                        (MustBe::Value(v), MustBe::Unknown) => MustBe::Value(v),
                        (MustBe::Unknown, MustBe::Value(v)) => MustBe::Value(v),
                        (MustBe::Unknown, MustBe::Unknown) => MustBe::Unknown,
                    };
                    self.insert(sym, merged);
                },
                None => {
                    self.insert(sym, n);
                },
            }
            j = j + 1;
        }
        proof {
            lemma_entries_map_take_all(ns);
        }
        false
    }
}

} // verus!

verus! {

/// The requirement on a symbol shared by two parts of a disjunction.
pub open spec fn or_value(a: Option<MustBe>, b: MustBe) -> MustBe {
    if a == Some(b) && b is Value { b } else { MustBe::Unknown }
}

/// `m` with the symbols of `p` merged as in a disjunction; the other symbols
/// of `m` keep their requirement.
pub open spec fn or_first(m: Map<LabelSymbol, MustBe>, p: Map<LabelSymbol, MustBe>) -> Map<LabelSymbol, MustBe> {
    Map::new(
        |k: LabelSymbol| m.contains_key(k) || p.contains_key(k),
        |k: LabelSymbol| if p.contains_key(k) { or_value(lookup(m, k), p[k]) } else { m[k] },
    )
}

impl SymbolMap {
    /// Keeps the requirements shared with `next` (disjunction); every other
    /// symbol of either becomes unknown.
    fn merge_or(&mut self, next: &SymbolMap)
        requires
            old(self).wf(),
            next.wf(),
        ensures
            final(self).wf(),
            final(self).map() == or_pair(old(self).map(), next.map()),
    {
        let ghost m = old(self).map();
        let ghost ns = next.entries@;
        let mut j: usize = 0;
        proof {
            assert(entries_map(ns.take(0)) =~= Map::<LabelSymbol, MustBe>::empty());
            assert(or_first(m, Map::<LabelSymbol, MustBe>::empty()) =~= m);
        }
        while j < next.entries.len()
            invariant
                next.wf(),
                ns == next.entries@,
                m == old(self).map(),
                j <= ns.len(),
                self.wf(),
                self.map() == or_first(m, entries_map(ns.take(j as int))),
            decreases ns.len() - j,
        {
            let (sym, n) = next.entries[j];
            proof {
                lemma_entries_map_take_step(ns, j as int);
                let p = entries_map(ns.take(j as int));
                assert(or_first(m, p.insert(sym, n)) =~= or_first(m, p).insert(sym, or_value(lookup(m, sym), n)));
            }
            match self.get(&sym) {
                Some(cur) => {
                    let merged = match (cur, n) {
                        (MustBe::Value(v1), MustBe::Value(v2)) => if v1 == v2 {
                            MustBe::Value(v1)
                        } else {
                            MustBe::Unknown
                        },
                        _ => MustBe::Unknown,
                    };
                    self.insert(sym, merged);
                },
                None => {
                    self.insert(sym, MustBe::Unknown);
                },
            }
            j = j + 1;
        }
        proof {
            lemma_entries_map_take_all(ns);
        }
        let ghost a = self.entries@;
        let mut i: usize = 0;
        while i < self.entries.len()
            invariant
                next.wf(),
                distinct_keys(a),
                self.entries@.len() == a.len(),
                i <= a.len(),
                forall|t: int| 0 <= t < a.len() ==> #[trigger] self.entries@[t].0 == a[t].0,
                forall|t: int| 0 <= t < a.len() ==> #[trigger] self.entries@[t].1 == (if t < i && !next.map().contains_key(a[t].0) {
                    MustBe::Unknown
                } else {
                    a[t].1
                }),
            decreases a.len() - i,
        {
            let sym = self.entries[i].0;
            if !next.contains_key(&sym) {
                self.entries.set(i, (sym, MustBe::Unknown));
            }
            i = i + 1;
        }
        proof {
            let b = self.entries@;
            let nm = next.map();
            assert(distinct_keys(b)) by {
                assert forall|x: int, y: int| 0 <= x < b.len() && 0 <= y < b.len() && x != y implies b[x].0 != b[y].0 by {
                    assert(b[x].0 == a[x].0 && b[y].0 == a[y].0);
                }
            }
            let r = or_pair(m, nm);
            let f = or_first(m, nm);
            assert forall|k: LabelSymbol| #[trigger] entries_map(b).contains_key(k) == r.contains_key(k) by {
                if entries_map(b).contains_key(k) {
                    let t = choose|t: int| 0 <= t < b.len() && b[t].0 == k;
                    lemma_entries_map_index(a, t);
                }
                if r.contains_key(k) {
                    assert(f.contains_key(k));
                    let t = choose|t: int| 0 <= t < a.len() && a[t].0 == k;
                    assert(b[t].0 == k);
                }
            }
            assert forall|k: LabelSymbol| entries_map(b).contains_key(k) implies #[trigger] entries_map(b)[k] == r[k] by {
                let t = choose|t: int| 0 <= t < b.len() && b[t].0 == k;
                lemma_entries_map_index(b, t);
                lemma_entries_map_index(a, t);
            }
            assert(entries_map(b) =~= r);
        }
    }
}

} // verus!

verus! {

/// The result of simplifying an expression under a truth map.
#[derive(Debug)]
pub enum ExpressionResult {
    Literal(bool),
    Expression { labels: LabelItem, symbols: SymbolMap },
}

impl ExpressionResult {
    pub open spec fn wf(&self) -> bool {
        match self {
            ExpressionResult::Literal(_) => true,
            ExpressionResult::Expression { symbols, .. } => symbols.wf(),
        }
    }

    pub open spec fn spec_result(&self) -> SpecResult {
        match self {
            ExpressionResult::Literal(b) => SpecResult::Literal(*b),
            ExpressionResult::Expression { labels, symbols } => SpecResult::Expression {
                labels: labels.spec_label(),
                symbols: symbols.map(),
            },
        }
    }
}

/// Pairs each expression with its symbol map.
pub open spec fn pairs(ls: Seq<LabelItem>, ms: Seq<SymbolMap>) -> Seq<(SpecLabel, Map<LabelSymbol, MustBe>)> {
    Seq::new(ls.len(), |k: int| (ls[k].spec_label(), ms[k].map()))
}

pub proof fn lemma_and_conflict_take(es: Seq<(SpecLabel, Map<LabelSymbol, MustBe>)>, n: int)
    requires
        0 <= n <= es.len(),
        and_conflict(es.take(n)),
    ensures
        and_conflict(es),
{
    let t = es.take(n);
    let (i, j, s) = choose|i: int, j: int, s: LabelSymbol|
        0 <= i < t.len() && 0 <= j < t.len() && t[i].1.contains_key(s) && t[j].1.contains_key(s)
            && #[trigger] t[i].1[s] == MustBe::Value(true) && #[trigger] t[j].1[s] == MustBe::Value(false);
    assert(t[i] == es[i] && t[j] == es[j]);
}

impl LabelItem {
    /// Simplifies the expression under the fixed symbols of `truth`: the value
    /// of the expression if they decide it, else the expression without the
    /// decided parts and what each remaining symbol must be for it to hold.
    pub fn get_symbols(&self, truth: &TruthMap) -> (r: ExpressionResult)
        requires
            truth.wf(),
        ensures
            r.wf(),
            r.spec_result() == self.spec_label().symbols(truth.map()),
        decreases self,
    {
        match self {
            LabelItem::Item { not, sym } => {
                let must_be = !*not;
                match truth.get(sym) {
                    Some(t) => ExpressionResult::Literal(t == must_be),
                    None => {
                        let mut symbols = SymbolMap::new();
                        symbols.insert(*sym, MustBe::Value(must_be));
                        ExpressionResult::Expression { labels: LabelItem::Item { not: *not, sym: *sym }, symbols }
                    },
                }
            },
            LabelItem::Expression { op, items } => Self::combine_symbols(op, items, truth),
        }
    }

    fn combine_symbols(op: &LabelOp, items: &Vec<LabelItem>, truth: &TruthMap) -> (r: ExpressionResult)
        requires
            truth.wf(),
        ensures
            r.wf(),
            r.spec_result() == combine(*op, symbols_all(spec_labels(items@), truth.map())),
        decreases items,
    {
        let ghost ls = spec_labels(items@);
        let ghost rs = symbols_all(ls, truth.map());
        proof {
            lemma_spec_labels(items@);
            lemma_symbols_all(ls, truth.map());
        }
        let deciding = match op {
            LabelOp::And => false,
            LabelOp::Or => true,
        };
        // Drop the literals; a deciding literal decides the expression.
        let mut new_symbols: Vec<SymbolMap> = Vec::new();
        let mut new_labels: Vec<LabelItem> = Vec::new();
        let mut i: usize = 0;
        while i < items.len()
            invariant
                truth.wf(),
                ls == spec_labels(items@),
                rs == symbols_all(ls, truth.map()),
                ls.len() == items.len(),
                rs.len() == items.len(),
                forall|j: int| 0 <= j < items.len() ==> #[trigger] ls[j] == items@[j].spec_label(),
                forall|j: int| 0 <= j < items.len() ==> #[trigger] rs[j] == ls[j].symbols(truth.map()),
                deciding == deciding_value(*op),
                i <= items.len(),
                forall|j: int| 0 <= j < i ==> rs[j] != SpecResult::Literal(deciding),
                new_symbols.len() == new_labels.len(),
                forall|k: int| 0 <= k < new_symbols.len() ==> (#[trigger] new_symbols@[k]).wf(),
                pairs(new_labels@, new_symbols@) == expressions_of(rs.take(i as int)),
            decreases items.len() - i,
        {
            let r = items[i].get_symbols(truth);
            let ghost old_labels = new_labels@;
            let ghost old_symbols = new_symbols@;
            proof {
                assert(rs.take(i + 1).drop_last() =~= rs.take(i as int));
                assert(rs.take(i + 1).last() == rs[i as int]);
            }
            match r {
                ExpressionResult::Literal(v) => {
                    if v == deciding {
                        return ExpressionResult::Literal(v);
                    }
                },
                ExpressionResult::Expression { labels, symbols } => {
                    new_labels.push(labels);
                    new_symbols.push(symbols);
                    proof {
                        assert(pairs(new_labels@, new_symbols@) =~= pairs(old_labels, old_symbols).push(
                            (new_labels@.last().spec_label(), new_symbols@.last().map())));
                    }
                },
            }
            i = i + 1;
        }
        proof {
            assert(rs.take(items.len() as int) =~= rs);
        }
        let ghost es = expressions_of(rs);
        if new_labels.len() == 0 {
            return ExpressionResult::Literal(!deciding);
        }
        // Merge the requirements of the remaining expressions.
        let ghost all_symbols = new_symbols@;
        let mut symbs = new_symbols.remove(0);
        proof {
            assert(es[0].1 == all_symbols[0].map());
            lemma_merge_first(es);
        }
        let mut k: usize = 0;
        while k < new_symbols.len()
            invariant
                es == pairs(new_labels@, all_symbols),
                es == expressions_of(rs),
                rs == symbols_all(spec_labels(items@), truth.map()),
                deciding == deciding_value(*op),
                forall|j: int| 0 <= j < rs.len() ==> rs[j] != SpecResult::Literal(deciding),
                es.len() == all_symbols.len(),
                all_symbols.len() >= 1,
                new_symbols@ == all_symbols.subrange(1, all_symbols.len() as int),
                forall|q: int| 0 <= q < all_symbols.len() ==> (#[trigger] all_symbols[q]).wf(),
                k <= new_symbols.len(),
                symbs.wf(),
                *op == LabelOp::And ==> !and_conflict(es.take(k + 1)) && symbs.map() == and_merge(es.take(k + 1)),
                *op == LabelOp::Or ==> symbs.map() == or_merge(es.take(k + 1)),
            decreases new_symbols.len() - k,
        {
            proof {
                assert(new_symbols@[k as int] == all_symbols[k + 1]);
                assert(es[k + 1].1 == all_symbols[k + 1].map());
            }
            match op {
                LabelOp::And => {
                    proof {
                        lemma_and_merge_step(es, k + 1);
                    }
                    if symbs.merge_and(&new_symbols[k]) {
                        proof {
                            lemma_and_conflict_take(es, k + 2);
                        }
                        return ExpressionResult::Literal(false);
                    }
                },
                LabelOp::Or => {
                    proof {
                        lemma_or_merge_step(es, k + 1);
                    }
                    symbs.merge_or(&new_symbols[k]);
                },
            }
            k = k + 1;
        }
        proof {
            assert(es.take(es.len() as int) =~= es);
        }
        // Join the remaining expressions.
        let labels = if new_labels.len() == 1 {
            new_labels.pop().unwrap()
        } else {
            let ghost nl = new_labels@;
            proof {
                lemma_spec_labels(nl);
                assert(spec_labels(nl) =~= labels_of(es));
            }
            LabelItem::Expression { op: *op, items: new_labels }
        };
        ExpressionResult::Expression { labels, symbols: symbs }
    }
}

} // verus!

verus! {

impl SpecLabel {
    /// The expression contains a leaf for `k`.
    pub open spec fn mentions(self, k: LabelSymbol) -> bool
        decreases self,
    {
        match self {
            SpecLabel::Leaf { sym, .. } => sym == k,
            SpecLabel::Node { items, .. } => mentions_any(items, k),
        }
    }

    /// The number of leaves.
    pub open spec fn leaf_count(self) -> nat
        decreases self,
    {
        match self {
            SpecLabel::Leaf { .. } => 1,
            SpecLabel::Node { items, .. } => leaf_count_all(items),
        }
    }
}

pub open spec fn mentions_any(items: Seq<SpecLabel>, k: LabelSymbol) -> bool
    decreases items,
{
    if items.len() == 0 {
        false
    } else {
        mentions_any(items.drop_last(), k) || items.last().mentions(k)
    }
}

pub open spec fn leaf_count_all(items: Seq<SpecLabel>) -> nat
    decreases items,
{
    if items.len() == 0 {
        0
    } else {
        leaf_count_all(items.drop_last()) + items.last().leaf_count()
    }
}

pub proof fn lemma_mentions_any(items: Seq<SpecLabel>, k: LabelSymbol)
    ensures
        mentions_any(items, k) <==> exists|i: int| 0 <= i < items.len() && #[trigger] items[i].mentions(k),
    decreases items.len(),
{
    if items.len() > 0 {
        let r = items.drop_last();
        lemma_mentions_any(r, k);
        if mentions_any(r, k) {
            let i = choose|i: int| 0 <= i < r.len() && #[trigger] r[i].mentions(k);
            assert(items[i] == r[i]);
        }
        if exists|i: int| 0 <= i < items.len() && #[trigger] items[i].mentions(k) {
            let i = choose|i: int| 0 <= i < items.len() && #[trigger] items[i].mentions(k);
            if i < r.len() {
                assert(items[i] == r[i]);
            }
        }
        if items.last().mentions(k) {
            assert(items[items.len() - 1].mentions(k));
        }
    }
}

pub proof fn lemma_mentions_leaves(x: SpecLabel, k: LabelSymbol)
    ensures
        x.mentions(k) ==> x.leaf_count() >= 1,
    decreases x,
{
    match x {
        SpecLabel::Leaf { .. } => {},
        SpecLabel::Node { items, .. } => {
            lemma_mentions_all_leaves(items, k);
        },
    }
}

pub proof fn lemma_mentions_all_leaves(items: Seq<SpecLabel>, k: LabelSymbol)
    ensures
        mentions_any(items, k) ==> leaf_count_all(items) >= 1,
    decreases items,
{
    if items.len() > 0 {
        lemma_mentions_all_leaves(items.drop_last(), k);
        lemma_mentions_leaves(items.last(), k);
    }
}

/// Two assignments that agree on the symbols of an expression give it the same value.
pub proof fn lemma_eval_agree(x: SpecLabel, a: spec_fn(LabelSymbol) -> bool, b: spec_fn(LabelSymbol) -> bool)
    requires
        forall|k: LabelSymbol| #[trigger] x.mentions(k) ==> a(k) == b(k),
    ensures
        x.eval(a) == x.eval(b),
    decreases x,
{
    match x {
        SpecLabel::Leaf { sym, .. } => {
            assert(x.mentions(sym));
        },
        SpecLabel::Node { op, items } => {
            assert forall|k: LabelSymbol| #[trigger] mentions_any(items, k) implies a(k) == b(k) by {
                assert(x.mentions(k));
            }
            lemma_eval_all_agree(op, items, a, b);
        },
    }
}

pub proof fn lemma_eval_all_agree(op: LabelOp, items: Seq<SpecLabel>, a: spec_fn(LabelSymbol) -> bool, b: spec_fn(LabelSymbol) -> bool)
    requires
        forall|k: LabelSymbol| #[trigger] mentions_any(items, k) ==> a(k) == b(k),
    ensures
        eval_all(op, items, a) == eval_all(op, items, b),
    decreases items,
{
    if items.len() > 0 {
        let r = items.drop_last();
        assert forall|k: LabelSymbol| #[trigger] mentions_any(r, k) implies a(k) == b(k) by {
            assert(mentions_any(items, k));
        }
        lemma_eval_all_agree(op, r, a, b);
        assert forall|k: LabelSymbol| #[trigger] items.last().mentions(k) implies a(k) == b(k) by {
            assert(mentions_any(items, k));
        }
        lemma_eval_agree(items.last(), a, b);
    }
}

} // verus!

verus! {

/// The expression mentions a symbol fixed by `truth`.
pub open spec fn mentions_fixed(x: SpecLabel, truth: Map<LabelSymbol, bool>) -> bool {
    exists|k: LabelSymbol| #[trigger] x.mentions(k) && truth.contains_key(k)
}

/// A simplified expression keeps only symbols of `x` that `truth` leaves
/// open, has requirements only on symbols it mentions, and has at least one
/// and at most as many leaves as `x`, fewer when `x` mentions a fixed symbol.
pub open spec fn shaped(x: SpecLabel, truth: Map<LabelSymbol, bool>, r: SpecResult) -> bool {
    match r {
        SpecResult::Literal(_) => true,
        SpecResult::Expression { labels, symbols } => {
            &&& forall|k: LabelSymbol| #[trigger] symbols.contains_key(k) ==> labels.mentions(k)
            &&& forall|k: LabelSymbol| #[trigger] labels.mentions(k) ==> x.mentions(k) && !truth.contains_key(k) && symbols.contains_key(k)
            &&& 1 <= labels.leaf_count() <= x.leaf_count()
            &&& mentions_fixed(x, truth) ==> labels.leaf_count() < x.leaf_count()
        },
    }
}

pub proof fn lemma_leaf_count_all_push(s: Seq<SpecLabel>, y: SpecLabel)
    ensures
        leaf_count_all(s.push(y)) == leaf_count_all(s) + y.leaf_count(),
{
    assert(s.push(y).drop_last() =~= s);
}

pub proof fn lemma_leaf_count_all_positive(s: Seq<SpecLabel>)
    requires
        s.len() > 0,
        forall|j: int| 0 <= j < s.len() ==> (#[trigger] s[j]).leaf_count() >= 1,
    ensures
        leaf_count_all(s) >= 1,
{
    assert(s.last().leaf_count() >= 1);
}

pub proof fn lemma_labels_of_push(es: Seq<(SpecLabel, Map<LabelSymbol, MustBe>)>, e: (SpecLabel, Map<LabelSymbol, MustBe>))
    ensures
        labels_of(es.push(e)) == labels_of(es).push(e.0),
{
    assert(labels_of(es.push(e)) =~= labels_of(es).push(e.0));
}

/// The leaves kept by the remaining expressions are at most those of the items,
/// and fewer when an item mentions a fixed symbol.
pub proof fn lemma_shape_counts(items: Seq<SpecLabel>, truth: Map<LabelSymbol, bool>)
    requires
        forall|i: int| 0 <= i < items.len() ==> shaped(#[trigger] items[i], truth, items[i].symbols(truth)),
    ensures
        leaf_count_all(labels_of(expressions_of(symbols_all(items, truth)))) <= leaf_count_all(items),
        (exists|k: LabelSymbol| #[trigger] mentions_any(items, k) && truth.contains_key(k))
            ==> leaf_count_all(labels_of(expressions_of(symbols_all(items, truth)))) < leaf_count_all(items),
    decreases items.len(),
{
    if items.len() == 0 {
        assert(labels_of(expressions_of(symbols_all(items, truth))) =~= Seq::<SpecLabel>::empty());
    } else {
        let r = items.drop_last();
        let x = items.last();
        assert forall|i: int| 0 <= i < r.len() implies shaped(#[trigger] r[i], truth, r[i].symbols(truth)) by {
            assert(r[i] == items[i]);
        }
        lemma_shape_counts(r, truth);
        assert(shaped(items[items.len() - 1], truth, x.symbols(truth)));
        let rs = symbols_all(items, truth);
        assert(rs.drop_last() == symbols_all(r, truth));
        let er = expressions_of(symbols_all(r, truth));
        if exists|k: LabelSymbol| #[trigger] mentions_any(items, k) && truth.contains_key(k) {
            let k = choose|k: LabelSymbol| #[trigger] mentions_any(items, k) && truth.contains_key(k);
            if !mentions_any(r, k) {
                assert(x.mentions(k));
                lemma_mentions_leaves(x, k);
                assert(mentions_fixed(x, truth));
            }
        }
        match x.symbols(truth) {
            SpecResult::Literal(_) => {
                assert(expressions_of(rs) == er);
            },
            SpecResult::Expression { labels, symbols } => {
                assert(expressions_of(rs) == er.push((labels, symbols)));
                lemma_labels_of_push(er, (labels, symbols));
                lemma_leaf_count_all_push(labels_of(er), labels);
            },
        }
    }
}

/// Simplifying keeps the shape described by `shaped`.
pub proof fn lemma_symbols_shaped(x: SpecLabel, truth: Map<LabelSymbol, bool>)
    ensures
        shaped(x, truth, x.symbols(truth)),
    decreases x,
{
    match x {
        SpecLabel::Leaf { not, sym } => {
            if !truth.contains_key(sym) {
                let m = Map::<LabelSymbol, MustBe>::empty().insert(sym, MustBe::Value(!not));
                assert forall|k: LabelSymbol| #[trigger] m.contains_key(k) implies x.mentions(k) by {}
                if mentions_fixed(x, truth) {
                    let k = choose|k: LabelSymbol| #[trigger] x.mentions(k) && truth.contains_key(k);
                }
            }
        },
        SpecLabel::Node { op, items } => {
            assert forall|i: int| 0 <= i < items.len() implies shaped(#[trigger] items[i], truth, items[i].symbols(truth)) by {
                lemma_symbols_shaped(items[i], truth);
            }
            lemma_shape_node(op, items, truth);
        },
    }
}

/// Facts on each remaining expression, from the item it came from.
pub open spec fn exprs_shaped(items: Seq<SpecLabel>, truth: Map<LabelSymbol, bool>, es: Seq<(SpecLabel, Map<LabelSymbol, MustBe>)>) -> bool {
    forall|j: int| 0 <= j < es.len() ==> {
        &&& (#[trigger] es[j]).0.leaf_count() >= 1
        &&& forall|k: LabelSymbol| #[trigger] es[j].1.contains_key(k) ==> es[j].0.mentions(k)
        &&& forall|k: LabelSymbol| #[trigger] es[j].0.mentions(k) ==> mentions_any(items, k) && !truth.contains_key(k) && es[j].1.contains_key(k)
    }
}

#[verifier::rlimit(60)]
pub proof fn lemma_exprs_shaped(items: Seq<SpecLabel>, truth: Map<LabelSymbol, bool>)
    requires
        forall|i: int| 0 <= i < items.len() ==> shaped(#[trigger] items[i], truth, items[i].symbols(truth)),
    ensures
        exprs_shaped(items, truth, expressions_of(symbols_all(items, truth))),
{
    let rs = symbols_all(items, truth);
    lemma_symbols_all(items, truth);
    let es = expressions_of(rs);
    lemma_expressions_of(rs);
    assert forall|j: int| 0 <= j < es.len() implies {
        &&& (#[trigger] es[j]).0.leaf_count() >= 1
        &&& forall|k: LabelSymbol| #[trigger] es[j].1.contains_key(k) ==> es[j].0.mentions(k)
        &&& forall|k: LabelSymbol| #[trigger] es[j].0.mentions(k) ==> mentions_any(items, k) && !truth.contains_key(k) && es[j].1.contains_key(k)
    } by {
        let i = choose|i: int| 0 <= i < rs.len()
            && #[trigger] rs[i] == (SpecResult::Expression { labels: es[j].0, symbols: es[j].1 });
        let r = items[i].symbols(truth);
        assert(r == rs[i]);
        assert(shaped(items[i], truth, r));
        let (l, m) = (es[j].0, es[j].1);
        assert(r == SpecResult::Expression { labels: l, symbols: m });
        assert(l.leaf_count() >= 1);
        assert(r->symbols == m && r->labels == l);
        assert forall|k: LabelSymbol| #[trigger] m.contains_key(k) implies l.mentions(k) by {
            assert(r->symbols.contains_key(k));
        }
        assert forall|k: LabelSymbol| #[trigger] l.mentions(k) implies mentions_any(items, k) && !truth.contains_key(k) && m.contains_key(k) by {
            assert(items[i].mentions(k));
            lemma_mentions_any(items, k);
            assert(r->symbols.contains_key(k));
        }
    }
}

pub proof fn lemma_shape_join(op: LabelOp, items: Seq<SpecLabel>, truth: Map<LabelSymbol, bool>, es: Seq<(SpecLabel, Map<LabelSymbol, MustBe>)>)
    requires
        es.len() > 0,
        exprs_shaped(items, truth, es),
    ensures
        join_labels(op, es).leaf_count() == leaf_count_all(labels_of(es)),
        join_labels(op, es).leaf_count() >= 1,
        forall|k: LabelSymbol| #[trigger] join_labels(op, es).mentions(k) ==> mentions_any(items, k) && !truth.contains_key(k),
        forall|k: LabelSymbol| #[trigger] and_merge(es).contains_key(k) ==> join_labels(op, es).mentions(k),
        forall|k: LabelSymbol| #[trigger] or_merge(es).contains_key(k) ==> join_labels(op, es).mentions(k),
        forall|k: LabelSymbol| #[trigger] join_labels(op, es).mentions(k) ==> and_merge(es).contains_key(k) && or_merge(es).contains_key(k),
{
    let ls = labels_of(es);
    let l = join_labels(op, es);
    assert forall|j: int| 0 <= j < ls.len() implies (#[trigger] ls[j]).leaf_count() >= 1 by {
        assert(ls[j] == es[j].0);
    }
    if es.len() == 1 {
        assert(ls =~= Seq::<SpecLabel>::empty().push(es[0].0));
        lemma_leaf_count_all_push(Seq::<SpecLabel>::empty(), es[0].0);
    } else {
        lemma_leaf_count_all_positive(ls);
    }
    assert forall|k: LabelSymbol| #[trigger] l.mentions(k) implies exists|j: int| 0 <= j < es.len() && (#[trigger] es[j]).0.mentions(k) by {
        if es.len() != 1 {
            lemma_mentions_any(ls, k);
            let j = choose|j: int| 0 <= j < ls.len() && #[trigger] ls[j].mentions(k);
            assert(ls[j] == es[j].0);
        } else {
            assert(es[0].0.mentions(k));
        }
    }
    assert forall|k: LabelSymbol| #[trigger] l.mentions(k) implies mentions_any(items, k) && !truth.contains_key(k) by {
        let j = choose|j: int| 0 <= j < es.len() && (#[trigger] es[j]).0.mentions(k);
    }
    assert forall|k: LabelSymbol| #[trigger] l.mentions(k) implies and_merge(es).contains_key(k) && or_merge(es).contains_key(k) by {
        let j = choose|j: int| 0 <= j < es.len() && (#[trigger] es[j]).0.mentions(k);
        assert(es[j].1.contains_key(k));
        assert(some_mentions(es, k));
    }
    assert forall|k: LabelSymbol| some_mentions(es, k) implies #[trigger] l.mentions(k) by {
        let j = choose|j: int| 0 <= j < es.len() && #[trigger] es[j].1.contains_key(k);
        assert(es[j].0.mentions(k));
        if es.len() != 1 {
            assert(ls[j] == es[j].0);
            lemma_mentions_any(ls, k);
        }
    }
}

pub proof fn lemma_shape_node(op: LabelOp, items: Seq<SpecLabel>, truth: Map<LabelSymbol, bool>)
    requires
        forall|i: int| 0 <= i < items.len() ==> shaped(#[trigger] items[i], truth, items[i].symbols(truth)),
    ensures
        shaped(SpecLabel::Node { op, items }, truth, combine(op, symbols_all(items, truth))),
{
    let x = SpecLabel::Node { op, items };
    let rs = symbols_all(items, truth);
    let r = combine(op, rs);
    if r is Expression {
        let es = expressions_of(rs);
        lemma_exprs_shaped(items, truth);
        lemma_shape_counts(items, truth);
        lemma_shape_join(op, items, truth, es);
        if mentions_fixed(x, truth) {
            let k = choose|k: LabelSymbol| #[trigger] x.mentions(k) && truth.contains_key(k);
            assert(mentions_any(items, k) && truth.contains_key(k));
        }
    }
}

} // verus!

verus! {

/// What evaluating a label expression yields, up to the order of its lists.
pub enum SpecLabels {
    Constant(bool),
    Expression {
        last: Option<SpecLabel>,
        trues: Set<LabelSymbol>,
        falses: Set<LabelSymbol>,
        unknowns: Set<LabelSymbol>,
    },
}

/// The symbols whose value a symbol map fixes.
pub open spec fn forced(symbols: Map<LabelSymbol, MustBe>) -> Map<LabelSymbol, bool> {
    Map::new(
        |k: LabelSymbol| symbols.contains_key(k) && symbols[k] is Value,
        |k: LabelSymbol| symbols[k]->Value_0,
    )
}

/// The symbols that `m` maps to `v`.
pub open spec fn keys_valued(m: Map<LabelSymbol, bool>, v: bool) -> Set<LabelSymbol> {
    Set::new(|k: LabelSymbol| m.contains_key(k) && m[k] == v)
}

/// The symbols of a symbol map that are left unknown.
pub open spec fn unknown_keys(symbols: Map<LabelSymbol, MustBe>) -> Set<LabelSymbol> {
    Set::new(|k: LabelSymbol| symbols.contains_key(k) && symbols[k] == MustBe::Unknown)
}

/// Evaluates `cur` under `truth`; the symbols that the result forces are fixed
/// in turn (collected in `trues` and `falses`) and the rest is evaluated under
/// them, until nothing more is forced.
pub open spec fn evaluate_from(
    cur: SpecLabel,
    truth: Map<LabelSymbol, bool>,
    trues: Set<LabelSymbol>,
    falses: Set<LabelSymbol>,
    fuel: nat,
) -> SpecLabels
    decreases fuel,
{
    match cur.symbols(truth) {
        SpecResult::Literal(b) => if !b {
            SpecLabels::Constant(false)
        } else if trues == Set::<LabelSymbol>::empty() && falses == Set::<LabelSymbol>::empty() {
            SpecLabels::Constant(true)
        } else {
            SpecLabels::Expression { last: None, trues, falses, unknowns: Set::empty() }
        },
        SpecResult::Expression { labels, symbols } => {
            let n = forced(symbols);
            if n == truth {
                SpecLabels::Expression { last: Some(labels), trues, falses, unknowns: unknown_keys(symbols) }
            } else if fuel == 0 {
                SpecLabels::Constant(false)
            } else {
                evaluate_from(
                    labels,
                    n,
                    trues.union(keys_valued(n, true)),
                    falses.union(keys_valued(n, false)),
                    (fuel - 1) as nat,
                )
            }
        },
    }
}

/// Enough steps for `evaluate_from` to finish on `x`.
pub open spec fn evaluation_bound(x: SpecLabel) -> nat {
    2 * x.leaf_count() + 2
}

impl SpecLabel {
    /// The expression evaluated under a ground truth map.
    pub open spec fn evaluate(self, truth: Map<LabelSymbol, bool>) -> SpecLabels {
        evaluate_from(self, truth, Set::empty(), Set::empty(), evaluation_bound(self))
    }
}

/// The items are leaves: `s` for each `s` in `trues` and `!s` for each `s` in
/// `falses`, and nothing else.
pub open spec fn fixed_items(items: Seq<SpecLabel>, trues: Set<LabelSymbol>, falses: Set<LabelSymbol>) -> bool {
    &&& forall|i: int| 0 <= i < items.len() ==> match #[trigger] items[i] {
        SpecLabel::Leaf { not, sym } => if not { falses.contains(sym) } else { trues.contains(sym) },
        SpecLabel::Node { .. } => false,
    }
    &&& forall|s: LabelSymbol| #[trigger] trues.contains(s) ==> exists|i: int| 0 <= i < items.len() && #[trigger] items[i] == (SpecLabel::Leaf { not: false, sym: s })
    &&& forall|s: LabelSymbol| #[trigger] falses.contains(s) ==> exists|i: int| 0 <= i < items.len() && #[trigger] items[i] == (SpecLabel::Leaf { not: true, sym: s })
}

/// The label set of a component set: constant, or an expression with the
/// symbols it requires true, requires false and leaves open.
#[derive(Debug)]
pub struct LabelsExpression {
    pub labels: LabelItem,
    pub true_symbols: Vec<LabelSymbol>,
    pub false_symbols: Vec<LabelSymbol>,
    pub unknown_symbols: Vec<LabelSymbol>,
}

#[derive(Debug)]
pub enum ComponentSetLabels {
    Constant(bool),
    Expression(LabelsExpression),
}

impl ComponentSetLabels {
    /// `self` is `sp` with its symbol sets listed without repeats, and its
    /// labels the conjunction of the fixed symbols (in some order) followed by
    /// the remaining expression, if any.
    pub open spec fn matches(&self, sp: SpecLabels) -> bool {
        match (self, sp) {
            (ComponentSetLabels::Constant(b), SpecLabels::Constant(c)) => *b == c,
            (ComponentSetLabels::Expression(e), SpecLabels::Expression { last, trues, falses, unknowns }) => {
                &&& e.true_symbols@.no_duplicates() && e.true_symbols@.to_set() == trues
                &&& e.false_symbols@.no_duplicates() && e.false_symbols@.to_set() == falses
                &&& e.unknown_symbols@.no_duplicates() && e.unknown_symbols@.to_set() == unknowns
                &&& e.labels.spec_label() matches SpecLabel::Node { op, items } && op == LabelOp::And
                    && match last {
                        Some(l) => items.len() >= 1 && items.last() == l && fixed_items(items.drop_last(), trues, falses),
                        None => fixed_items(items, trues, falses),
                    }
            },
            _ => false,
        }
    }
}

} // verus!

verus! {

/// Every entry of `a` is an entry of `b`.
pub open spec fn included<V>(a: Map<LabelSymbol, V>, b: Map<LabelSymbol, V>) -> bool {
    forall|k: LabelSymbol| #[trigger] a.contains_key(k) ==> b.contains_key(k) && b[k] == a[k]
}

/// The symbols that a symbol map fixes, with their values.
fn forced_truth(symbols: &SymbolMap) -> (r: TruthMap)
    requires
        symbols.wf(),
    ensures
        r.wf(),
        r.map() == forced(symbols.map()),
{
    let ghost es = symbols.entries@;
    let mut r = TruthMap::new();
    let mut j: usize = 0;
    proof {
        assert(forced(entries_map(es.take(0))) =~= Map::<LabelSymbol, bool>::empty());
    }
    while j < symbols.entries.len()
        invariant
            symbols.wf(),
            es == symbols.entries@,
            j <= es.len(),
            r.wf(),
            r.map() == forced(entries_map(es.take(j as int))),
        decreases es.len() - j,
    {
        let (k, mb) = symbols.entries[j];
        proof {
            lemma_entries_map_take_step(es, j as int);
            let p = entries_map(es.take(j as int));
            match mb {
                MustBe::Value(v) => {
                    assert(forced(p.insert(k, mb)) =~= forced(p).insert(k, v));
                },
                MustBe::Unknown => {
                    assert(forced(p.insert(k, mb)) =~= forced(p));
                },
            }
        }
        match mb {
            MustBe::Value(v) => r.insert(k, v),
            MustBe::Unknown => {},
        }
        j = j + 1;
    }
    proof {
        lemma_entries_map_take_all(es);
    }
    r
}

/// Whether every entry of `a` is in `b`.
fn included_in(a: &TruthMap, b: &TruthMap) -> (r: bool)
    requires
        a.wf(),
        b.wf(),
    ensures
        r == included(a.map(), b.map()),
{
    let mut j: usize = 0;
    while j < a.entries.len()
        invariant
            a.wf(),
            b.wf(),
            j <= a.entries@.len(),
            forall|t: int| 0 <= t < j ==> b.map().contains_key(#[trigger] a.entries@[t].0) && b.map()[a.entries@[t].0] == a.entries@[t].1,
        decreases a.entries@.len() - j,
    {
        let (k, v) = a.entries[j];
        match b.get(&k) {
            Some(w) => {
                if w != v {
                    proof {
                        lemma_entries_map_index(a.entries@, j as int);
                    }
                    return false;
                }
            },
            None => {
                proof {
                    lemma_entries_map_index(a.entries@, j as int);
                }
                return false;
            },
        }
        j = j + 1;
    }
    proof {
        assert forall|k: LabelSymbol| #[trigger] a.map().contains_key(k) implies b.map().contains_key(k) && b.map()[k] == a.map()[k] by {
            let t = choose|t: int| 0 <= t < a.entries@.len() && a.entries@[t].0 == k;
            lemma_entries_map_index(a.entries@, t);
        }
    }
    true
}

/// Whether two truth maps are equal.
fn same_truth(a: &TruthMap, b: &TruthMap) -> (r: bool)
    requires
        a.wf(),
        b.wf(),
    ensures
        r == (a.map() == b.map()),
{
    let r = included_in(a, b) && included_in(b, a);
    proof {
        if r {
            assert(a.map() =~= b.map());
        }
    }
    r
}

/// The unknown symbols of a symbol map, each once.
fn unknowns(symbols: &SymbolMap) -> (r: Vec<LabelSymbol>)
    requires
        symbols.wf(),
    ensures
        r@.no_duplicates(),
        r@.to_set() == unknown_keys(symbols.map()),
{
    let ghost es = symbols.entries@;
    let mut r: Vec<LabelSymbol> = Vec::new();
    let mut j: usize = 0;
    while j < symbols.entries.len()
        invariant
            symbols.wf(),
            es == symbols.entries@,
            j <= es.len(),
            r@.no_duplicates(),
            forall|x: int| 0 <= x < r@.len() ==> exists|t: int| 0 <= t < j && #[trigger] es[t] == (#[trigger] r@[x], MustBe::Unknown),
            forall|t: int| 0 <= t < j && (#[trigger] es[t]).1 == MustBe::Unknown ==> r@.contains(es[t].0),
        decreases es.len() - j,
    {
        let (k, mb) = symbols.entries[j];
        if mb == MustBe::Unknown {
            proof {
                assert forall|x: int| 0 <= x < r@.len() implies r@[x] != k by {
                    let t = choose|t: int| 0 <= t < j && #[trigger] es[t] == (r@[x], MustBe::Unknown);
                }
            }
            let ghost old_r = r@;
            r.push(k);
            proof {
                assert forall|x: int| 0 <= x < r@.len() implies exists|t: int| 0 <= t < j + 1 && #[trigger] es[t] == (#[trigger] r@[x], MustBe::Unknown) by {
                    if x < old_r.len() {
                        assert(r@[x] == old_r[x]);
                        let t = choose|t: int| 0 <= t < j && #[trigger] es[t] == (old_r[x], MustBe::Unknown);
                    } else {
                        assert(es[j as int] == (r@[x], MustBe::Unknown));
                    }
                }
                assert forall|t: int| 0 <= t < j + 1 && (#[trigger] es[t]).1 == MustBe::Unknown implies r@.contains(es[t].0) by {
                    if t < j {
                        assert(old_r.contains(es[t].0));
                        let x = choose|x: int| 0 <= x < old_r.len() && old_r[x] == es[t].0;
                        assert(r@[x] == old_r[x]);
                    } else {
                        assert(r@[old_r.len() as int] == k);
                    }
                }
            }
        }
        j = j + 1;
    }
    proof {
        let u = unknown_keys(symbols.map());
        assert forall|k: LabelSymbol| #[trigger] r@.to_set().contains(k) == u.contains(k) by {
            if r@.to_set().contains(k) {
                let x = choose|x: int| 0 <= x < r@.len() && r@[x] == k;
                let t = choose|t: int| 0 <= t < es.len() && #[trigger] es[t] == (r@[x], MustBe::Unknown);
                lemma_entries_map_index(es, t);
            }
            if u.contains(k) {
                let t = choose|t: int| 0 <= t < es.len() && es[t].0 == k;
                lemma_entries_map_index(es, t);
            }
        }
        assert(r@.to_set() =~= u);
    }
    r
}

} // verus!

verus! {

pub proof fn lemma_spec_labels_push(items: Seq<LabelItem>, x: LabelItem)
    ensures
        spec_labels(items.push(x)) == spec_labels(items).push(x.spec_label()),
{
    assert(items.push(x).drop_last() =~= items);
}

pub proof fn lemma_push_to_set<T>(s: Seq<T>, x: T)
    ensures
        s.push(x).to_set() == s.to_set().insert(x),
{
    let t = s.push(x);
    assert forall|y: T| #[trigger] t.to_set().contains(y) == s.to_set().insert(x).contains(y) by {
        if t.contains(y) {
            let i = choose|i: int| 0 <= i < t.len() && t[i] == y;
            if i < s.len() {
                assert(s[i] == t[i]);
            }
        }
        if s.contains(y) {
            let i = choose|i: int| 0 <= i < s.len() && s[i] == y;
            assert(t[i] == s[i]);
        }
        if y == x {
            assert(t[s.len() as int] == x);
        }
    }
    assert(t.to_set() =~= s.to_set().insert(x));
}

/// Records the symbols fixed by `truth`: each in `true_symbols` or
/// `false_symbols`.
fn fix_symbols(
    truth: &TruthMap,
    true_symbols: &mut Vec<LabelSymbol>,
    false_symbols: &mut Vec<LabelSymbol>,
)
    requires
        truth.wf(),
        old(true_symbols)@.no_duplicates(),
        old(false_symbols)@.no_duplicates(),
        forall|k: LabelSymbol| #[trigger] truth.map().contains_key(k) ==> !old(true_symbols)@.contains(k) && !old(false_symbols)@.contains(k),
    ensures
        final(true_symbols)@.no_duplicates(),
        final(false_symbols)@.no_duplicates(),
        final(true_symbols)@.to_set() == old(true_symbols)@.to_set().union(keys_valued(truth.map(), true)),
        final(false_symbols)@.to_set() == old(false_symbols)@.to_set().union(keys_valued(truth.map(), false)),
{
    let ghost es = truth.entries@;
    let ghost t0 = old(true_symbols)@.to_set();
    let ghost f0 = old(false_symbols)@.to_set();
    let mut j: usize = 0;
    proof {
        assert(keys_valued(entries_map(es.take(0)), true) =~= Set::<LabelSymbol>::empty());
        assert(keys_valued(entries_map(es.take(0)), false) =~= Set::<LabelSymbol>::empty());
        assert(t0.union(Set::<LabelSymbol>::empty()) =~= t0);
        assert(f0.union(Set::<LabelSymbol>::empty()) =~= f0);
    }
    while j < truth.entries.len()
        invariant
            truth.wf(),
            es == truth.entries@,
            j <= es.len(),
            t0 == old(true_symbols)@.to_set(),
            f0 == old(false_symbols)@.to_set(),
            forall|k: LabelSymbol| #[trigger] truth.map().contains_key(k) ==> !t0.contains(k) && !f0.contains(k),
            true_symbols@.no_duplicates(),
            false_symbols@.no_duplicates(),
            true_symbols@.to_set() == t0.union(keys_valued(entries_map(es.take(j as int)), true)),
            false_symbols@.to_set() == f0.union(keys_valued(entries_map(es.take(j as int)), false)),
        decreases es.len() - j,
    {
        let (sym, v) = truth.entries[j];
        let ghost p = entries_map(es.take(j as int));
        let ghost old_trues = true_symbols@;
        let ghost old_falses = false_symbols@;
        proof {
            lemma_entries_map_take_step(es, j as int);
            lemma_entries_map_index(es, j as int);
            assert(truth.map().contains_key(sym));
            assert(!t0.contains(sym) && !f0.contains(sym));
            assert(!old_trues.to_set().contains(sym));
            assert(!old_falses.to_set().contains(sym));
            assert(keys_valued(p.insert(sym, v), v) =~= keys_valued(p, v).insert(sym));
            assert(keys_valued(p.insert(sym, v), !v) =~= keys_valued(p, !v));
        }
        if v {
            true_symbols.push(sym);
        } else {
            false_symbols.push(sym);
        }
        proof {
            lemma_push_to_set(old_trues, sym);
            lemma_push_to_set(old_falses, sym);
            if v {
                assert(true_symbols@ == old_trues.push(sym));
                assert(false_symbols@ == old_falses);
                assert(true_symbols@.no_duplicates()) by {
                    assert forall|a: int, b: int| 0 <= a < b < true_symbols@.len() implies true_symbols@[a] != true_symbols@[b] by {
                        if b == true_symbols@.len() - 1 {
                            assert(old_trues.contains(old_trues[a]));
                        } else {
                            assert(true_symbols@[a] == old_trues[a] && true_symbols@[b] == old_trues[b]);
                        }
                    }
                }
                assert(true_symbols@.to_set() =~= t0.union(keys_valued(entries_map(es.take(j + 1)), true)));
                assert(false_symbols@.to_set() =~= f0.union(keys_valued(entries_map(es.take(j + 1)), false)));
            } else {
                assert(false_symbols@ == old_falses.push(sym));
                assert(true_symbols@ == old_trues);
                assert(false_symbols@.no_duplicates()) by {
                    assert forall|a: int, b: int| 0 <= a < b < false_symbols@.len() implies false_symbols@[a] != false_symbols@[b] by {
                        if b == false_symbols@.len() - 1 {
                            assert(old_falses.contains(old_falses[a]));
                        } else {
                            assert(false_symbols@[a] == old_falses[a] && false_symbols@[b] == old_falses[b]);
                        }
                    }
                }
                assert(true_symbols@.to_set() =~= t0.union(keys_valued(entries_map(es.take(j + 1)), true)));
                assert(false_symbols@.to_set() =~= f0.union(keys_valued(entries_map(es.take(j + 1)), false)));
            }
        }
        j = j + 1;
    }
    proof {
        lemma_entries_map_take_all(es);
    }
}

} // verus!

verus! {

/// Steps left before evaluation stops, for a result found under `t`.
pub open spec fn eval_measure(r: SpecResult, t: Map<LabelSymbol, bool>) -> nat {
    match r {
        SpecResult::Literal(_) => 0,
        SpecResult::Expression { labels, .. } => 2 * labels.leaf_count() + (if t == Map::<LabelSymbol, bool>::empty() {
            0nat
        } else {
            1nat
        }) + 1,
    }
}

/// Fixing the newly forced symbols shrinks what is left to evaluate.
pub proof fn lemma_evaluate_step(cur: SpecLabel, t: Map<LabelSymbol, bool>)
    requires
        cur.symbols(t) is Expression,
        forced(cur.symbols(t)->symbols) != t,
    ensures
        eval_measure(cur.symbols(t)->labels.symbols(forced(cur.symbols(t)->symbols)), forced(cur.symbols(t)->symbols))
            < eval_measure(cur.symbols(t), t),
{
    let l = cur.symbols(t)->labels;
    let s = cur.symbols(t)->symbols;
    let n = forced(s);
    lemma_symbols_shaped(cur, t);
    lemma_symbols_shaped(l, n);
    if n != Map::<LabelSymbol, bool>::empty() {
        if !exists|k: LabelSymbol| n.contains_key(k) {
            assert(n =~= Map::<LabelSymbol, bool>::empty());
        }
        let k = choose|k: LabelSymbol| n.contains_key(k);
        assert(s.contains_key(k));
        assert(l.mentions(k));
        assert(mentions_fixed(l, n));
    }
}

/// The leaves that stand for fixed symbols: `s` for each symbol required
/// true, then `!s` for each symbol required false, in the order listed.
pub open spec fn fixed_leaves(trues: Seq<LabelSymbol>, falses: Seq<LabelSymbol>) -> Seq<SpecLabel> {
    trues.map_values(|s: LabelSymbol| SpecLabel::Leaf { not: false, sym: s })
        + falses.map_values(|s: LabelSymbol| SpecLabel::Leaf { not: true, sym: s })
}

/// The conjunction of `e` holds the fixed leaves, once each and in order,
/// followed by the remaining expression when `sp` has one.
pub open spec fn leaves_in_order(e: LabelsExpression, sp: SpecLabels) -> bool {
    let n = e.true_symbols@.len() + e.false_symbols@.len();
    &&& e.labels.spec_label() matches SpecLabel::Node { items, .. }
    &&& e.labels.spec_label()->items.len() == n + (if sp matches SpecLabels::Expression { last: Some(_), .. } { 1int } else { 0int })
    &&& e.labels.spec_label()->items.take(n as int) == fixed_leaves(e.true_symbols@, e.false_symbols@)
}

proof fn lemma_fixed_leaves(trues: Seq<LabelSymbol>, falses: Seq<LabelSymbol>)
    ensures
        fixed_items(fixed_leaves(trues, falses), trues.to_set(), falses.to_set()),
{
    let items = fixed_leaves(trues, falses);
    let nt = trues.len();
    assert forall|i: int| 0 <= i < items.len() implies match #[trigger] items[i] {
        SpecLabel::Leaf { not, sym } => if not { falses.to_set().contains(sym) } else { trues.to_set().contains(sym) },
        SpecLabel::Node { .. } => false,
    } by {
        if i < nt {
            assert(items[i] == (SpecLabel::Leaf { not: false, sym: trues[i] }));
            assert(trues.contains(trues[i]));
        } else {
            assert(items[i] == (SpecLabel::Leaf { not: true, sym: falses[i - nt] }));
            assert(falses.contains(falses[i - nt]));
        }
    }
    assert forall|s: LabelSymbol| #[trigger] trues.to_set().contains(s) implies exists|i: int| 0 <= i < items.len() && #[trigger] items[i] == (SpecLabel::Leaf { not: false, sym: s }) by {
        let k = choose|k: int| 0 <= k < trues.len() && trues[k] == s;
        assert(items[k] == (SpecLabel::Leaf { not: false, sym: s }));
    }
    assert forall|s: LabelSymbol| #[trigger] falses.to_set().contains(s) implies exists|i: int| 0 <= i < items.len() && #[trigger] items[i] == (SpecLabel::Leaf { not: true, sym: s }) by {
        let k = choose|k: int| 0 <= k < falses.len() && falses[k] == s;
        assert(items[nt + k] == (SpecLabel::Leaf { not: true, sym: s }));
    }
}

/// The leaves for the fixed symbols, true ones first.
fn fixed_leaf_items(trues: &Vec<LabelSymbol>, falses: &Vec<LabelSymbol>) -> (r: Vec<LabelItem>)
    ensures
        spec_labels(r@) == fixed_leaves(trues@, falses@),
{
    let mut r: Vec<LabelItem> = Vec::new();
    let mut i: usize = 0;
    while i < trues.len()
        invariant
            i <= trues@.len(),
            spec_labels(r@) == fixed_leaves(trues@.take(i as int), Seq::<LabelSymbol>::empty()),
        decreases trues@.len() - i,
    {
        let ghost before = r@;
        let item = LabelItem::Item { not: false, sym: trues[i] };
        r.push(item);
        proof {
            lemma_spec_labels_push(before, item);
            assert(trues@.take(i + 1) == trues@.take(i as int).push(trues@[i as int]));
            assert(spec_labels(r@) =~= fixed_leaves(trues@.take(i + 1), Seq::<LabelSymbol>::empty()));
        }
        i = i + 1;
    }
    assert(trues@.take(trues@.len() as int) == trues@);
    let mut j: usize = 0;
    while j < falses.len()
        invariant
            j <= falses@.len(),
            spec_labels(r@) == fixed_leaves(trues@, falses@.take(j as int)),
        decreases falses@.len() - j,
    {
        let ghost before = r@;
        let item = LabelItem::Item { not: true, sym: falses[j] };
        r.push(item);
        proof {
            lemma_spec_labels_push(before, item);
            assert(falses@.take(j + 1) == falses@.take(j as int).push(falses@[j as int]));
            assert(spec_labels(r@) =~= fixed_leaves(trues@, falses@.take(j + 1)));
        }
        j = j + 1;
    }
    assert(falses@.take(falses@.len() as int) == falses@);
    r
}

impl LabelItem {
    /// Evaluates the label expression of a component set whose ground truth
    /// (the components it takes as arguments) is `truth`: the constant it
    /// reduces to, or the conjunction of the symbols it forces true, then
    /// those it forces false, then the remaining expression, with the symbols
    /// it forces true and false and those it leaves unknown.
    pub fn evaluate_labels(&self, truth: TruthMap) -> (r: ComponentSetLabels)
        requires
            truth.wf(),
        ensures
            r.matches(self.spec_label().evaluate(truth.map())),
            r matches ComponentSetLabels::Expression(e) ==> leaves_in_order(e, self.spec_label().evaluate(truth.map())),
    {
        let ghost goal = self.spec_label().evaluate(truth.map());
        let mut cur_truth = truth;
        let mut true_symbols: Vec<LabelSymbol> = Vec::new();
        let mut false_symbols: Vec<LabelSymbol> = Vec::new();
        let ghost mut cur = self.spec_label();
        let ghost mut fuel = evaluation_bound(self.spec_label());
        let mut eval_result = self.get_symbols(&cur_truth);
        proof {
            lemma_symbols_shaped(cur, cur_truth.map());
            assert(true_symbols@.to_set() =~= Set::<LabelSymbol>::empty());
            assert(false_symbols@.to_set() =~= Set::<LabelSymbol>::empty());
        }
        loop
            invariant
                goal == self.spec_label().evaluate(truth.map()),
                cur_truth.wf(),
                eval_result.wf(),
                eval_result.spec_result() == cur.symbols(cur_truth.map()),
                goal == evaluate_from(cur, cur_truth.map(), true_symbols@.to_set(), false_symbols@.to_set(), fuel),
                fuel >= eval_measure(eval_result.spec_result(), cur_truth.map()),
                true_symbols@.no_duplicates(),
                false_symbols@.no_duplicates(),
                forall|k: LabelSymbol| #[trigger] true_symbols@.contains(k) ==> !cur.mentions(k) || cur_truth.map().contains_key(k),
                forall|k: LabelSymbol| #[trigger] false_symbols@.contains(k) ==> !cur.mentions(k) || cur_truth.map().contains_key(k),
            decreases eval_measure(eval_result.spec_result(), cur_truth.map()),
        {
            match eval_result {
                ExpressionResult::Literal(b) => {
                    if !b {
                        return ComponentSetLabels::Constant(false);
                    }
                    if true_symbols.len() == 0 && false_symbols.len() == 0 {
                        proof {
                            assert(true_symbols@.to_set() =~= Set::<LabelSymbol>::empty());
                            assert(false_symbols@.to_set() =~= Set::<LabelSymbol>::empty());
                        }
                        return ComponentSetLabels::Constant(true);
                    }
                    proof {
                        if true_symbols@.len() > 0 {
                            assert(true_symbols@.to_set().contains(true_symbols@[0]));
                        } else {
                            assert(false_symbols@.to_set().contains(false_symbols@[0]));
                        }
                    }
                    let items = fixed_leaf_items(&true_symbols, &false_symbols);
                    proof {
                        lemma_fixed_leaves(true_symbols@, false_symbols@);
                        assert(spec_labels(items@).take(spec_labels(items@).len() as int) == spec_labels(items@));
                    }
                    let unknown_symbols: Vec<LabelSymbol> = Vec::new();
                    proof {
                        assert(unknown_symbols@.to_set() =~= Set::<LabelSymbol>::empty());
                    }
                    return ComponentSetLabels::Expression(LabelsExpression {
                        labels: LabelItem::Expression { op: LabelOp::And, items },
                        true_symbols,
                        false_symbols,
                        unknown_symbols,
                    });
                },
                ExpressionResult::Expression { labels, symbols } => {
                    let new_truth = forced_truth(&symbols);
                    if same_truth(&new_truth, &cur_truth) {
                        let unknown_symbols = unknowns(&symbols);
                        let mut items = fixed_leaf_items(&true_symbols, &false_symbols);
                        let ghost fixed = items@;
                        items.push(labels);
                        proof {
                            lemma_fixed_leaves(true_symbols@, false_symbols@);
                            lemma_spec_labels_push(fixed, items@.last());
                            assert(spec_labels(items@).drop_last() =~= spec_labels(fixed));
                            assert(spec_labels(items@).take(spec_labels(fixed).len() as int) =~= spec_labels(fixed));
                        }
                        return ComponentSetLabels::Expression(LabelsExpression {
                            labels: LabelItem::Expression { op: LabelOp::And, items },
                            true_symbols,
                            false_symbols,
                            unknown_symbols,
                        });
                    }
                    proof {
                        lemma_symbols_shaped(cur, cur_truth.map());
                        lemma_evaluate_step(cur, cur_truth.map());
                        let n = new_truth.map();
                        assert forall|k: LabelSymbol| #[trigger] n.contains_key(k) implies !true_symbols@.contains(k)
                            && !false_symbols@.contains(k) by {
                            assert(symbols.map().contains_key(k));
                            assert(labels.spec_label().mentions(k));
                        }
                    }
                    let ghost old_trues = true_symbols@;
                    let ghost old_falses = false_symbols@;
                    fix_symbols(&new_truth, &mut true_symbols, &mut false_symbols);
                    proof {
                        let l = labels.spec_label();
                        let n = new_truth.map();
                        assert forall|k: LabelSymbol| #[trigger] true_symbols@.contains(k) implies !l.mentions(k) || n.contains_key(k) by {
                            assert(true_symbols@.to_set().contains(k));
                            if old_trues.to_set().contains(k) {
                                assert(old_trues.contains(k));
                            } else {
                                assert(keys_valued(n, true).contains(k));
                            }
                        }
                        assert forall|k: LabelSymbol| #[trigger] false_symbols@.contains(k) implies !l.mentions(k) || n.contains_key(k) by {
                            assert(false_symbols@.to_set().contains(k));
                            if old_falses.to_set().contains(k) {
                                assert(old_falses.contains(k));
                            } else {
                                assert(keys_valued(n, false).contains(k));
                            }
                        }
                    }
                    cur_truth = new_truth;
                    proof {
                        cur = labels.spec_label();
                        fuel = (fuel - 1) as nat;
                    }
                    eval_result = labels.get_symbols(&cur_truth);
                },
            }
        }
    }
}

} // verus!

verus! {

/// Every symbol of `trues` is true and every symbol of `falses` false under `a`.
pub open spec fn holds(trues: Set<LabelSymbol>, falses: Set<LabelSymbol>, a: spec_fn(LabelSymbol) -> bool) -> bool {
    (forall|s: LabelSymbol| #[trigger] trues.contains(s) ==> a(s)) && (forall|s: LabelSymbol| #[trigger] falses.contains(s) ==> !a(s))
}

/// The value that an evaluation result gives under `a`.
pub open spec fn labels_value(r: SpecLabels, a: spec_fn(LabelSymbol) -> bool) -> bool {
    match r {
        SpecLabels::Constant(b) => b,
        SpecLabels::Expression { last, trues, falses, .. } => holds(trues, falses, a) && match last {
            Some(l) => l.eval(a),
            None => true,
        },
    }
}

pub proof fn lemma_evaluate_from_sound(
    x: SpecLabel,
    cur: SpecLabel,
    t: Map<LabelSymbol, bool>,
    trues: Set<LabelSymbol>,
    falses: Set<LabelSymbol>,
    fuel: nat,
    a: spec_fn(LabelSymbol) -> bool,
)
    requires
        fuel >= eval_measure(cur.symbols(t), t),
        x.eval(a) == (holds(trues, falses, a) && cur.eval(a)),
        holds(trues, falses, a) ==> agrees(a, t),
        trues == Set::<LabelSymbol>::empty() && falses == Set::<LabelSymbol>::empty() ==> agrees(a, t),
    ensures
        x.eval(a) == labels_value(evaluate_from(cur, t, trues, falses, fuel), a),
    decreases fuel,
{
    if agrees(a, t) {
        lemma_symbols_describe(cur, t, a);
    }
    if trues == Set::<LabelSymbol>::empty() && falses == Set::<LabelSymbol>::empty() {
        assert(holds(trues, falses, a));
    }
    match cur.symbols(t) {
        SpecResult::Literal(b) => {},
        SpecResult::Expression { labels, symbols } => {
            let n = forced(symbols);
            if n != t {
                lemma_evaluate_step(cur, t);
                let tr2 = trues.union(keys_valued(n, true));
                let fa2 = falses.union(keys_valued(n, false));
                assert(holds(tr2, fa2, a) == (holds(trues, falses, a) && agrees(a, n))) by {
                    if holds(trues, falses, a) && agrees(a, n) {
                        assert forall|s: LabelSymbol| #[trigger] tr2.contains(s) implies a(s) by {
                            if !trues.contains(s) {
                                assert(n.contains_key(s));
                            }
                        }
                        assert forall|s: LabelSymbol| #[trigger] fa2.contains(s) implies !a(s) by {
                            if !falses.contains(s) {
                                assert(n.contains_key(s));
                            }
                        }
                    }
                    if holds(tr2, fa2, a) {
                        assert forall|s: LabelSymbol| #[trigger] trues.contains(s) implies a(s) by {
                            assert(tr2.contains(s));
                        }
                        assert forall|s: LabelSymbol| #[trigger] falses.contains(s) implies !a(s) by {
                            assert(fa2.contains(s));
                        }
                        assert forall|s: LabelSymbol| #[trigger] n.contains_key(s) implies a(s) == n[s] by {
                            if n[s] {
                                assert(tr2.contains(s));
                            } else {
                                assert(fa2.contains(s));
                            }
                        }
                    }
                }
                if agrees(a, t) && labels.eval(a) {
                    reveal(requirements_hold);
                    assert forall|s: LabelSymbol| #[trigger] n.contains_key(s) implies a(s) == n[s] by {
                        assert(symbols.contains_key(s));
                    }
                }
                if tr2 == Set::<LabelSymbol>::empty() && fa2 == Set::<LabelSymbol>::empty() {
                    assert forall|s: LabelSymbol| #[trigger] n.contains_key(s) implies a(s) == n[s] by {
                        if n[s] {
                            assert(tr2.contains(s));
                        } else {
                            assert(fa2.contains(s));
                        }
                    }
                }
                lemma_evaluate_from_sound(x, labels, n, tr2, fa2, (fuel - 1) as nat, a);
            }
        },
    }
}

/// Evaluating a label expression is sound: under every assignment that agrees
/// with the ground truth, a constant is the value of the expression, and
/// otherwise the expression holds exactly when every forced symbol has its
/// forced value and the remaining expression (if any) holds.
pub proof fn lemma_evaluate_sound(x: SpecLabel, truth: Map<LabelSymbol, bool>, a: spec_fn(LabelSymbol) -> bool)
    requires
        agrees(a, truth),
    ensures
        x.eval(a) == labels_value(x.evaluate(truth), a),
{
    lemma_symbols_shaped(x, truth);
    assert(holds(Set::<LabelSymbol>::empty(), Set::<LabelSymbol>::empty(), a));
    lemma_evaluate_from_sound(x, x, truth, Set::empty(), Set::empty(), evaluation_bound(x), a);
}

/// The symbols fixed so far are either not mentioned by `cur` or fixed by
/// `truth`, and none is fixed both true and false.
pub open spec fn fixed_apart(cur: SpecLabel, truth: Map<LabelSymbol, bool>, trues: Set<LabelSymbol>, falses: Set<LabelSymbol>) -> bool {
    &&& forall|k: LabelSymbol| !(#[trigger] trues.contains(k) && falses.contains(k))
    &&& forall|k: LabelSymbol| (trues.contains(k) || falses.contains(k)) && #[trigger] cur.mentions(k) ==> truth.contains_key(k)
}

/// The three symbol sets of an evaluated expression share no symbol.
pub open spec fn sets_apart(sp: SpecLabels) -> bool {
    match sp {
        SpecLabels::Expression { trues, falses, unknowns, .. } => forall|k: LabelSymbol|
            !(#[trigger] trues.contains(k) && falses.contains(k)) && !(trues.contains(k) && unknowns.contains(k))
                && !(falses.contains(k) && unknowns.contains(k)),
        SpecLabels::Constant(_) => true,
    }
}

proof fn lemma_evaluate_from_apart(cur: SpecLabel, truth: Map<LabelSymbol, bool>, trues: Set<LabelSymbol>, falses: Set<LabelSymbol>, fuel: nat)
    requires
        fixed_apart(cur, truth, trues, falses),
    ensures
        sets_apart(evaluate_from(cur, truth, trues, falses, fuel)),
    decreases fuel,
{
    lemma_symbols_shaped(cur, truth);
    match cur.symbols(truth) {
        SpecResult::Literal(_) => {},
        SpecResult::Expression { labels, symbols } => {
            let n = forced(symbols);
            if n == truth {
                let u = unknown_keys(symbols);
                assert forall|k: LabelSymbol| !(#[trigger] trues.contains(k) && falses.contains(k)) && !(trues.contains(k) && u.contains(k))
                    && !(falses.contains(k) && u.contains(k)) by {
                    if u.contains(k) {
                        assert(symbols.contains_key(k));
                        assert(labels.mentions(k));
                        assert(cur.mentions(k) && !truth.contains_key(k));
                    }
                }
            } else if fuel > 0 {
                let t2 = trues.union(keys_valued(n, true));
                let f2 = falses.union(keys_valued(n, false));
                assert forall|k: LabelSymbol| !(#[trigger] t2.contains(k) && f2.contains(k)) by {
                    if n.contains_key(k) {
                        assert(symbols.contains_key(k));
                        assert(labels.mentions(k));
                        assert(cur.mentions(k) && !truth.contains_key(k));
                    }
                }
                assert forall|k: LabelSymbol| (t2.contains(k) || f2.contains(k)) && #[trigger] labels.mentions(k) implies n.contains_key(k) by {
                    if !n.contains_key(k) {
                        assert(cur.mentions(k) && !truth.contains_key(k));
                    }
                }
                lemma_evaluate_from_apart(labels, n, t2, f2, (fuel - 1) as nat);
            }
        },
    }
}

/// The symbols that evaluating labels requires true, requires false and
/// leaves open are three disjoint sets, in the result as computed too.
pub proof fn law_evaluated_symbols_disjoint(item: LabelItem, truth: Map<LabelSymbol, bool>, r: ComponentSetLabels)
    requires
        r.matches(item.spec_label().evaluate(truth)),
    ensures
        r matches ComponentSetLabels::Expression(e) ==> forall|k: LabelSymbol| {
            &&& !(e.true_symbols@.contains(k) && e.false_symbols@.contains(k))
            &&& !(e.true_symbols@.contains(k) && e.unknown_symbols@.contains(k))
            &&& !(#[trigger] e.false_symbols@.contains(k) && e.unknown_symbols@.contains(k))
        },
{
    let x = item.spec_label();
    lemma_evaluate_from_apart(x, truth, Set::empty(), Set::empty(), evaluation_bound(x));
    if let ComponentSetLabels::Expression(e) = r {
        let sp = x.evaluate(truth);
        assert(sets_apart(sp));
        assert forall|k: LabelSymbol| {
            &&& !(e.true_symbols@.contains(k) && e.false_symbols@.contains(k))
            &&& !(e.true_symbols@.contains(k) && e.unknown_symbols@.contains(k))
            &&& !(#[trigger] e.false_symbols@.contains(k) && e.unknown_symbols@.contains(k))
        } by {
            assert(e.true_symbols@.contains(k) ==> e.true_symbols@.to_set().contains(k));
            assert(e.false_symbols@.contains(k) ==> e.false_symbols@.to_set().contains(k));
            assert(e.unknown_symbols@.contains(k) ==> e.unknown_symbols@.to_set().contains(k));
            if let SpecLabels::Expression { trues, falses, unknowns, .. } = sp {
                assert(!(trues.contains(k) && falses.contains(k)));
            }
        }
    }
}

/// Evaluating a leaf or a node reports as symbols exactly those that its
/// simplified labels mention.
pub proof fn law_symbols_keys(x: SpecLabel, truth: Map<LabelSymbol, bool>)
    ensures
        x.symbols(truth) matches SpecResult::Expression { labels, symbols }
            ==> forall|k: LabelSymbol| #[trigger] symbols.contains_key(k) <==> labels.mentions(k),
{
    lemma_symbols_shaped(x, truth);
}

/// What simplifying an expression under a truth map gives, for every
/// assignment `a` that agrees with the truth map: a literal is the
/// expression's value; otherwise the simplified labels have the expression's
/// value, the symbols reported are exactly those the labels mention, and
/// where the expression holds, each symbol required to have a value has it.
pub proof fn law_get_symbols(item: LabelItem, truth: TruthMap, r: ExpressionResult, a: spec_fn(LabelSymbol) -> bool)
    requires
        r.spec_result() == item.spec_label().symbols(truth.map()),
        agrees(a, truth.map()),
    ensures
        match r.spec_result() {
            SpecResult::Literal(b) => item.spec_label().eval(a) == b,
            SpecResult::Expression { labels, symbols } => {
                &&& labels.eval(a) == item.spec_label().eval(a)
                &&& forall|k: LabelSymbol| #[trigger] symbols.contains_key(k) <==> labels.mentions(k)
                &&& item.spec_label().eval(a) ==> forall|k: LabelSymbol| #[trigger] symbols.contains_key(k)
                    ==> (symbols[k] matches MustBe::Value(v) ==> a(k) == v)
            },
        },
{
    lemma_symbols_describe(item.spec_label(), truth.map(), a);
    law_symbols_keys(item.spec_label(), truth.map());
    reveal(requirements_hold);
}

/// A label expression and the result of evaluating it agree on every
/// assignment that agrees with the ground truth: a constant is the
/// expression's value, and the simplified labels have the expression's value.
pub proof fn law_evaluate_labels_equivalent(
    item: LabelItem,
    truth: Map<LabelSymbol, bool>,
    r: ComponentSetLabels,
    a: spec_fn(LabelSymbol) -> bool,
)
    requires
        r.matches(item.spec_label().evaluate(truth)),
        agrees(a, truth),
    ensures
        match r {
            ComponentSetLabels::Constant(b) => item.spec_label().eval(a) == b,
            ComponentSetLabels::Expression(e) => item.spec_label().eval(a) == e.labels.spec_label().eval(a),
        },
{
    let x = item.spec_label();
    lemma_evaluate_sound(x, truth, a);
    match r {
        ComponentSetLabels::Constant(_) => {},
        ComponentSetLabels::Expression(e) => {
            let sp = x.evaluate(truth);
            let items = e.labels.spec_label()->Node_items;
            lemma_eval_all(LabelOp::And, items, a);
            match sp {
                SpecLabels::Expression { last, trues, falses, .. } => {
                    let fixed = match last {
                        Some(l) => items.drop_last(),
                        None => items,
                    };
                    assert(fixed_items(fixed, trues, falses));
                    assert forall|i: int| 0 <= i < fixed.len() implies #[trigger] fixed[i] == items[i] by {}
                    if holds(trues, falses, a) {
                        assert forall|i: int| 0 <= i < fixed.len() implies #[trigger] fixed[i].eval(a) by {
                            match fixed[i] {
                                SpecLabel::Leaf { not, sym } => {
                                    if not {
                                        assert(falses.contains(sym));
                                    } else {
                                        assert(trues.contains(sym));
                                    }
                                },
                                SpecLabel::Node { .. } => {},
                            }
                        }
                    }
                    if forall|i: int| 0 <= i < fixed.len() ==> #[trigger] fixed[i].eval(a) {
                        assert forall|s: LabelSymbol| #[trigger] trues.contains(s) implies a(s) by {
                            let i = choose|i: int| 0 <= i < fixed.len() && #[trigger] fixed[i] == (SpecLabel::Leaf { not: false, sym: s });
                            assert(fixed[i].eval(a));
                        }
                        assert forall|s: LabelSymbol| #[trigger] falses.contains(s) implies !a(s) by {
                            let i = choose|i: int| 0 <= i < fixed.len() && #[trigger] fixed[i] == (SpecLabel::Leaf { not: true, sym: s });
                            assert(fixed[i].eval(a));
                        }
                    }
                    match last {
                        Some(l) => {
                            assert(items[items.len() - 1] == l);
                            if e.labels.spec_label().eval(a) {
                                assert(items[items.len() - 1].eval(a));
                                assert forall|i: int| 0 <= i < fixed.len() implies #[trigger] fixed[i].eval(a) by {
                                    assert(items[i].eval(a));
                                }
                            }
                            if holds(trues, falses, a) && l.eval(a) {
                                assert forall|i: int| 0 <= i < items.len() implies #[trigger] items[i].eval(a) by {
                                    if i < fixed.len() {
                                        assert(fixed[i].eval(a));
                                    }
                                }
                            }
                        },
                        None => {},
                    }
                },
                _ => {},
            }
        },
    }
}

} // verus!

verus! {

impl LabelsExpression {
    /// The symbols the expression requires true, then those it requires
    /// false, then those it leaves open.
    pub fn iter_symbols(&self) -> (r: Vec<LabelSymbol>)
        ensures
            r@ == self.true_symbols@ + self.false_symbols@ + self.unknown_symbols@,
    {
        let mut r: Vec<LabelSymbol> = Vec::new();
        let mut i: usize = 0;
        while i < self.true_symbols.len()
            invariant
                i <= self.true_symbols@.len(),
                r@ == self.true_symbols@.take(i as int),
            decreases self.true_symbols@.len() - i,
        {
            r.push(self.true_symbols[i]);
            i = i + 1;
        }
        let ghost a = r@;
        assert(a == self.true_symbols@);
        i = 0;
        while i < self.false_symbols.len()
            invariant
                i <= self.false_symbols@.len(),
                r@ == a + self.false_symbols@.take(i as int),
            decreases self.false_symbols@.len() - i,
        {
            r.push(self.false_symbols[i]);
            assert(a + self.false_symbols@.take(i + 1) == (a + self.false_symbols@.take(i as int)).push(self.false_symbols@[i as int]));
            i = i + 1;
        }
        let ghost b = r@;
        assert(b == a + self.false_symbols@);
        i = 0;
        while i < self.unknown_symbols.len()
            invariant
                i <= self.unknown_symbols@.len(),
                r@ == b + self.unknown_symbols@.take(i as int),
            decreases self.unknown_symbols@.len() - i,
        {
            r.push(self.unknown_symbols[i]);
            assert(b + self.unknown_symbols@.take(i + 1) == (b + self.unknown_symbols@.take(i as int)).push(self.unknown_symbols@[i as int]));
            i = i + 1;
        }
        assert(self.unknown_symbols@.take(self.unknown_symbols@.len() as int) == self.unknown_symbols@);
        r
    }
}

impl ComponentSetLabels {
    /// The first symbol the labels require true, if any.
    pub fn first_true_symbol(&self) -> (r: Option<&LabelSymbol>)
        ensures
            match self {
                ComponentSetLabels::Constant(_) => r is None,
                ComponentSetLabels::Expression(e) => if e.true_symbols@.len() > 0 {
                    r matches Some(s) && *s == e.true_symbols@[0]
                } else {
                    r is None
                },
            },
    {
        match self {
            ComponentSetLabels::Constant(_) => None,
            ComponentSetLabels::Expression(e) => if e.true_symbols.len() > 0 {
                Some(&e.true_symbols[0])
            } else {
                None
            },
        }
    }
}

} // verus!
