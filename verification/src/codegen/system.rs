use vstd::prelude::*;

use crate::parse::find_path::{lemma_strs_concat, strs};

verus! {

/// How the labels of a system argument combine.
#[derive(Clone, Copy, Debug, PartialEq, Eq, Structural)]
pub enum LabelType {
    And,
    Or,
    Nand,
    Nor,
}

/// The number of `l` characters at the start of `s`, from position `k` on.
pub open spec fn leading_ls(s: Seq<char>, k: int) -> int
    decreases s.len() - k,
{
    if k < 0 || k >= s.len() || s[k] != 'l' {
        k
    } else {
        leading_ls(s, k + 1)
    }
}

/// The label type that `s` (after its leading `l`s) starts with: `&`, `|`,
/// `!&` or `!|`.
pub open spec fn label_type_of(s: Seq<char>) -> Option<LabelType> {
    let t = s.skip(leading_ls(s, 0));
    if t.len() >= 1 && t[0] == '&' {
        Some(LabelType::And)
    } else if t.len() >= 1 && t[0] == '|' {
        Some(LabelType::Or)
    } else if t.len() >= 2 && t[0] == '!' && t[1] == '&' {
        Some(LabelType::Nand)
    } else if t.len() >= 2 && t[0] == '!' && t[1] == '|' {
        Some(LabelType::Nor)
    } else {
        None
    }
}

proof fn lemma_leading_ls(s: Seq<char>, k: int)
    requires
        0 <= k <= s.len(),
    ensures
        k <= leading_ls(s, k) <= s.len(),
    decreases s.len() - k,
{
    if k < s.len() && s[k] == 'l' {
        lemma_leading_ls(s, k + 1);
    }
}

impl LabelType {
    /// The label type written in `value`; the value must name one.
    pub fn from(value: &str) -> (r: Self)
        requires
            label_type_of(value@) is Some,
        ensures
            label_type_of(value@) == Some(r),
    {
        let n = value.unicode_len();
        let mut k: usize = 0;
        while k < n && value.get_char(k) == 'l'
            invariant
                n == value@.len(),
                k <= n,
                leading_ls(value@, 0) == leading_ls(value@, k as int),
            decreases n - k,
        {
            k = k + 1;
        }
        proof {
            lemma_leading_ls(value@, k as int);
            assert(value@.skip(k as int).len() == n - k);
        }
        let c0 = if k < n { value.get_char(k) } else { ' ' };
        let c1 = if k + 1 < n { value.get_char(k + 1) } else { ' ' };
        if k < n && c0 == '&' {
            LabelType::And
        } else if k < n && c0 == '|' {
            LabelType::Or
        } else if k + 1 < n && c0 == '!' && c1 == '&' {
            LabelType::Nand
        } else {
            LabelType::Nor
        }
    }
}

/// One argument of an entity container: the entity id, or a component
/// (component index, reference count, mutability).
#[derive(Clone, Copy, Debug, PartialEq, Eq, Structural)]
pub enum ContainerArg {
    EntityId,
    Component(usize, usize, bool),
}

/// A component, by crate index and index among that crate's components.
pub type ItemIndex = (usize, usize);

/// The items of `v` that are not in `rm`, in order.
pub open spec fn without(v: Seq<ItemIndex>, rm: Seq<ItemIndex>) -> Seq<ItemIndex>
    decreases v.len(),
{
    if v.len() == 0 {
        v
    } else if rm.contains(v.last()) {
        without(v.drop_last(), rm)
    } else {
        without(v.drop_last(), rm).push(v.last())
    }
}

/// `a` followed by the items of `b` that it does not hold yet.
pub open spec fn union(a: Seq<ItemIndex>, b: Seq<ItemIndex>) -> Seq<ItemIndex>
    decreases b.len(),
{
    if b.len() == 0 {
        a
    } else if union(a, b.drop_last()).contains(b.last()) {
        union(a, b.drop_last())
    } else {
        union(a, b.drop_last()).push(b.last())
    }
}

/// `a` and `b` share an item.
pub open spec fn meets(a: Seq<ItemIndex>, b: Seq<ItemIndex>) -> bool {
    exists|x: ItemIndex| a.contains(x) && b.contains(x)
}

/// The OR sets that still constrain anything: each non-empty set that shares
/// no item with `all`, without the items of `nor`.
pub open spec fn kept_ors(ors: Seq<Seq<ItemIndex>>, all: Seq<ItemIndex>, nor: Seq<ItemIndex>) -> Seq<Seq<ItemIndex>>
    decreases ors.len(),
{
    if ors.len() == 0 {
        ors
    } else if ors.last().len() == 0 || meets(ors.last(), all) {
        kept_ors(ors.drop_last(), all, nor)
    } else {
        kept_ors(ors.drop_last(), all, nor).push(without(ors.last(), nor))
    }
}

/// The NAND sets that still constrain anything: each non-empty set that
/// shares no item with `nor`, without the items of `all`.
pub open spec fn kept_nands(nands: Seq<Seq<ItemIndex>>, all: Seq<ItemIndex>, nor: Seq<ItemIndex>) -> Seq<Seq<ItemIndex>>
    decreases nands.len(),
{
    if nands.len() == 0 {
        nands
    } else if nands.last().len() == 0 || meets(nands.last(), nor) {
        kept_nands(nands.drop_last(), all, nor)
    } else {
        kept_nands(nands.drop_last(), all, nor).push(without(nands.last(), all))
    }
}

/// The contents of each set of a list.
pub open spec fn set_views(v: Seq<Vec<ItemIndex>>) -> Seq<Seq<ItemIndex>> {
    v.map_values(|s: Vec<ItemIndex>| s@)
}

/// What a system reads of its arguments to decide which entities it runs on,
/// and how it is called.
#[derive(Debug)]
pub struct System {
    /// The components it takes, which every entity it runs on has.
    pub c_args: Vec<ItemIndex>,
    pub g_args: Vec<ItemIndex>,
    pub event: Option<ItemIndex>,
    /// Components an entity must have.
    pub and_labels: Vec<ItemIndex>,
    /// Sets of which an entity must have at least one component each.
    pub or_labels: Vec<Vec<ItemIndex>>,
    /// Components an entity must not have.
    pub nor_labels: Vec<ItemIndex>,
    /// Sets of which an entity must lack at least one component each.
    pub nand_labels: Vec<Vec<ItemIndex>>,
    pub v_types: Vec<ContainerArg>,
    pub is_vec: bool,
    pub is_init: bool,
}

/// The label condition can be met: no component is both required and
/// excluded, and no remaining OR or NAND set is empty.
pub open spec fn labels_satisfiable(s: System) -> bool {
    let all = union(s.and_labels@, s.c_args@);
    &&& !meets(all, s.nor_labels@)
    &&& forall|i: int| #![trigger kept_ors(set_views(s.or_labels@), all, s.nor_labels@)[i]]
        0 <= i < kept_ors(set_views(s.or_labels@), all, s.nor_labels@).len()
            ==> kept_ors(set_views(s.or_labels@), all, s.nor_labels@)[i].len() > 0
    &&& forall|i: int| #![trigger kept_nands(set_views(s.nand_labels@), all, s.nor_labels@)[i]]
        0 <= i < kept_nands(set_views(s.nand_labels@), all, s.nor_labels@).len()
            ==> kept_nands(set_views(s.nand_labels@), all, s.nor_labels@)[i].len() > 0
}

/// Every set of `ors` shares a component with `e`.
pub open spec fn all_meet(ors: Seq<Seq<ItemIndex>>, e: Set<ItemIndex>) -> bool
    decreases ors.len(),
{
    if ors.len() == 0 {
        true
    } else {
        all_meet(ors.drop_last(), e) && exists|x: ItemIndex| ors.last().contains(x) && e.contains(x)
    }
}

/// Every set of `nands` has a component that `e` lacks.
pub open spec fn all_miss(nands: Seq<Seq<ItemIndex>>, e: Set<ItemIndex>) -> bool
    decreases nands.len(),
{
    if nands.len() == 0 {
        true
    } else {
        all_miss(nands.drop_last(), e) && exists|x: ItemIndex| nands.last().contains(x) && !e.contains(x)
    }
}

/// An entity with components `e` meets the label condition.
pub open spec fn labels_hold(
    and: Seq<ItemIndex>,
    ors: Seq<Seq<ItemIndex>>,
    nor: Seq<ItemIndex>,
    nands: Seq<Seq<ItemIndex>>,
    e: Set<ItemIndex>,
) -> bool {
    &&& forall|x: ItemIndex| and.contains(x) ==> e.contains(x)
    &&& all_meet(ors, e)
    &&& forall|x: ItemIndex| nor.contains(x) ==> !e.contains(x)
    &&& all_miss(nands, e)
}

impl System {
    /// A system with no arguments yet.
    pub fn new() -> (r: Self)
        ensures
            r.c_args@.len() == 0,
            r.g_args@.len() == 0,
            r.event is None,
            r.and_labels@.len() == 0,
            r.or_labels@.len() == 0,
            r.nor_labels@.len() == 0,
            r.nand_labels@.len() == 0,
            r.v_types@.len() == 0,
            !r.is_vec,
            !r.is_init,
    {
        Self {
            c_args: Vec::new(),
            g_args: Vec::new(),
            event: None,
            and_labels: Vec::new(),
            or_labels: Vec::new(),
            nor_labels: Vec::new(),
            nand_labels: Vec::new(),
            v_types: Vec::new(),
            is_vec: false,
            is_init: false,
        }
    }
}

fn has_item(v: &Vec<ItemIndex>, x: ItemIndex) -> (r: bool)
    ensures
        r == v@.contains(x),
{
    let mut i: usize = 0;
    while i < v.len()
        invariant
            i <= v@.len(),
            forall|j: int| 0 <= j < i ==> v@[j] != x,
        decreases v@.len() - i,
    {
        if v[i].0 == x.0 && v[i].1 == x.1 {
            assert(v@[i as int] == x);
            return true;
        }
        i = i + 1;
    }
    false
}

fn shares_item(a: &Vec<ItemIndex>, b: &Vec<ItemIndex>) -> (r: bool)
    ensures
        r == meets(a@, b@),
{
    let mut i: usize = 0;
    while i < a.len()
        invariant
            i <= a@.len(),
            forall|j: int| 0 <= j < i ==> !b@.contains(#[trigger] a@[j]),
        decreases a@.len() - i,
    {
        if has_item(b, a[i]) {
            assert(a@.contains(a@[i as int]));
            return true;
        }
        i = i + 1;
    }
    assert forall|x: ItemIndex| a@.contains(x) implies !b@.contains(x) by {
        let j = choose|j: int| 0 <= j < a@.len() && a@[j] == x;
        assert(!b@.contains(a@[j]));
    }
    false
}

fn items_without(v: &Vec<ItemIndex>, rm: &Vec<ItemIndex>) -> (r: Vec<ItemIndex>)
    ensures
        r@ == without(v@, rm@),
{
    let mut r: Vec<ItemIndex> = Vec::new();
    let mut i: usize = 0;
    while i < v.len()
        invariant
            i <= v@.len(),
            r@ == without(v@.take(i as int), rm@),
        decreases v@.len() - i,
    {
        assert(v@.take(i + 1).drop_last() == v@.take(i as int));
        assert(v@.take(i + 1).last() == v@[i as int]);
        if !has_item(rm, v[i]) {
            r.push(v[i]);
        }
        i = i + 1;
    }
    assert(v@.take(v@.len() as int) == v@);
    r
}

fn items_union(a: &Vec<ItemIndex>, b: &Vec<ItemIndex>) -> (r: Vec<ItemIndex>)
    ensures
        r@ == union(a@, b@),
{
    let mut r: Vec<ItemIndex> = Vec::new();
    let mut k: usize = 0;
    while k < a.len()
        invariant
            k <= a@.len(),
            r@ == a@.take(k as int),
        decreases a@.len() - k,
    {
        r.push(a[k]);
        assert(a@.take(k + 1) == a@.take(k as int).push(a@[k as int]));
        k = k + 1;
    }
    assert(a@.take(a@.len() as int) == a@);
    assert(b@.take(0) == Seq::<ItemIndex>::empty());
    let mut i: usize = 0;
    while i < b.len()
        invariant
            i <= b@.len(),
            r@ == union(a@, b@.take(i as int)),
        decreases b@.len() - i,
    {
        assert(b@.take(i + 1).drop_last() == b@.take(i as int));
        assert(b@.take(i + 1).last() == b@[i as int]);
        if !has_item(&r, b[i]) {
            r.push(b[i]);
        }
        i = i + 1;
    }
    assert(b@.take(b@.len() as int) == b@);
    r
}

impl System {
    /// Simplifies the label condition once the components are known: the
    /// components join the AND set; OR sets met by it, and NAND sets that
    /// the NOR set breaks, are dropped; OR sets lose their NOR components
    /// and NAND sets their AND components; the components leave the AND set
    /// again. The condition must be satisfiable.
    pub fn check_labels(&mut self)
        requires
            labels_satisfiable(*old(self)),
        ensures
            final(self).and_labels@ == without(union(old(self).and_labels@, old(self).c_args@), old(self).c_args@),
            set_views(final(self).or_labels@) == kept_ors(
                set_views(old(self).or_labels@),
                union(old(self).and_labels@, old(self).c_args@),
                old(self).nor_labels@,
            ),
            set_views(final(self).nand_labels@) == kept_nands(
                set_views(old(self).nand_labels@),
                union(old(self).and_labels@, old(self).c_args@),
                old(self).nor_labels@,
            ),
            final(self).c_args == old(self).c_args,
            final(self).g_args == old(self).g_args,
            final(self).event == old(self).event,
            final(self).nor_labels == old(self).nor_labels,
            final(self).v_types == old(self).v_types,
            final(self).is_vec == old(self).is_vec,
            final(self).is_init == old(self).is_init,
    {
        let all = items_union(&self.and_labels, &self.c_args);
        let ghost ors = set_views(self.or_labels@);
        let mut new_ors: Vec<Vec<ItemIndex>> = Vec::new();
        let mut i: usize = 0;
        while i < self.or_labels.len()
            invariant
                i <= self.or_labels@.len(),
                ors == set_views(self.or_labels@),
                set_views(new_ors@) == kept_ors(ors.take(i as int), all@, self.nor_labels@),
            decreases self.or_labels@.len() - i,
        {
            assert(ors.take(i + 1).drop_last() == ors.take(i as int));
            assert(ors.take(i + 1).last() == self.or_labels@[i as int]@);
            let o = &self.or_labels[i];
            if o.len() > 0 && !shares_item(o, &all) {
                let kept = items_without(o, &self.nor_labels);
                let ghost before = new_ors@;
                new_ors.push(kept);
                assert(set_views(new_ors@) =~= set_views(before).push(kept@));
            }
            i = i + 1;
        }
        assert(ors.take(ors.len() as int) == ors);
        let ghost nands = set_views(self.nand_labels@);
        let mut new_nands: Vec<Vec<ItemIndex>> = Vec::new();
        let mut i: usize = 0;
        while i < self.nand_labels.len()
            invariant
                i <= self.nand_labels@.len(),
                nands == set_views(self.nand_labels@),
                set_views(new_nands@) == kept_nands(nands.take(i as int), all@, self.nor_labels@),
            decreases self.nand_labels@.len() - i,
        {
            assert(nands.take(i + 1).drop_last() == nands.take(i as int));
            assert(nands.take(i + 1).last() == self.nand_labels@[i as int]@);
            let n = &self.nand_labels[i];
            if n.len() > 0 && !shares_item(n, &self.nor_labels) {
                let kept = items_without(n, &all);
                let ghost before = new_nands@;
                new_nands.push(kept);
                assert(set_views(new_nands@) =~= set_views(before).push(kept@));
            }
            i = i + 1;
        }
        assert(nands.take(nands.len() as int) == nands);
        self.and_labels = items_without(&all, &self.c_args);
        self.or_labels = new_ors;
        self.nand_labels = new_nands;
    }
}

proof fn lemma_push_contains(s: Seq<ItemIndex>, y: ItemIndex)
    ensures
        forall|x: ItemIndex| #[trigger] s.push(y).contains(x) <==> (s.contains(x) || x == y),
{
    assert forall|x: ItemIndex| #[trigger] s.push(y).contains(x) <==> (s.contains(x) || x == y) by {
        if s.push(y).contains(x) {
            let j = choose|j: int| 0 <= j < s.push(y).len() && s.push(y)[j] == x;
            if j < s.len() {
                assert(s[j] == x);
            }
        }
        if s.contains(x) {
            let j = choose|j: int| 0 <= j < s.len() && s[j] == x;
            assert(s.push(y)[j] == x);
        }
        if x == y {
            assert(s.push(y)[s.len() as int] == x);
        }
    }
}

proof fn lemma_without_contains(v: Seq<ItemIndex>, rm: Seq<ItemIndex>)
    ensures
        forall|x: ItemIndex| #[trigger] without(v, rm).contains(x) <==> (v.contains(x) && !rm.contains(x)),
    decreases v.len(),
{
    if v.len() > 0 {
        lemma_without_contains(v.drop_last(), rm);
        lemma_push_contains(without(v.drop_last(), rm), v.last());
        assert forall|x: ItemIndex| v.contains(x) <==> (v.drop_last().contains(x) || v.last() == x) by {
            if v.contains(x) {
                let j = choose|j: int| 0 <= j < v.len() && v[j] == x;
                if j < v.len() - 1 {
                    assert(v.drop_last()[j] == x);
                }
            }
            if v.drop_last().contains(x) {
                let j = choose|j: int| 0 <= j < v.drop_last().len() && v.drop_last()[j] == x;
                assert(v[j] == x);
            }
            if v.last() == x {
                assert(v[v.len() - 1] == x);
            }
        }
    }
}

proof fn lemma_union_contains(a: Seq<ItemIndex>, b: Seq<ItemIndex>)
    ensures
        forall|x: ItemIndex| #[trigger] union(a, b).contains(x) <==> (a.contains(x) || b.contains(x)),
    decreases b.len(),
{
    if b.len() > 0 {
        lemma_union_contains(a, b.drop_last());
        lemma_push_contains(union(a, b.drop_last()), b.last());
        assert forall|x: ItemIndex| b.contains(x) <==> (b.drop_last().contains(x) || b.last() == x) by {
            if b.contains(x) {
                let j = choose|j: int| 0 <= j < b.len() && b[j] == x;
                if j < b.len() - 1 {
                    assert(b.drop_last()[j] == x);
                }
            }
            if b.drop_last().contains(x) {
                let j = choose|j: int| 0 <= j < b.drop_last().len() && b.drop_last()[j] == x;
                assert(b[j] == x);
            }
            if b.last() == x {
                assert(b[b.len() - 1] == x);
            }
        }
    }
}

proof fn lemma_kept_ors(ors: Seq<Seq<ItemIndex>>, all: Seq<ItemIndex>, nor: Seq<ItemIndex>, e: Set<ItemIndex>)
    requires
        forall|x: ItemIndex| all.contains(x) ==> e.contains(x),
        forall|x: ItemIndex| nor.contains(x) ==> !e.contains(x),
        forall|i: int| 0 <= i < ors.len() ==> #[trigger] ors[i].len() > 0,
    ensures
        all_meet(ors, e) == all_meet(kept_ors(ors, all, nor), e),
    decreases ors.len(),
{
    if ors.len() > 0 {
        let o = ors.last();
        let rest = ors.drop_last();
        assert(forall|i: int| 0 <= i < rest.len() ==> #[trigger] rest[i] == ors[i]);
        lemma_kept_ors(rest, all, nor, e);
        assert(o.len() > 0) by {
            assert(o == ors[ors.len() - 1]);
        }
        if meets(o, all) {
            let x = choose|x: ItemIndex| o.contains(x) && all.contains(x);
            assert(o.contains(x) && e.contains(x));
        } else {
            let w = without(o, nor);
            lemma_without_contains(o, nor);
            let k = kept_ors(rest, all, nor);
            assert(k.push(w).drop_last() == k);
            assert(k.push(w).last() == w);
            if exists|x: ItemIndex| o.contains(x) && e.contains(x) {
                let x = choose|x: ItemIndex| o.contains(x) && e.contains(x);
                assert(w.contains(x) && e.contains(x));
            }
        }
    }
}

proof fn lemma_kept_nands(nands: Seq<Seq<ItemIndex>>, all: Seq<ItemIndex>, nor: Seq<ItemIndex>, e: Set<ItemIndex>)
    requires
        forall|x: ItemIndex| all.contains(x) ==> e.contains(x),
        forall|x: ItemIndex| nor.contains(x) ==> !e.contains(x),
        forall|i: int| 0 <= i < nands.len() ==> #[trigger] nands[i].len() > 0,
    ensures
        all_miss(nands, e) == all_miss(kept_nands(nands, all, nor), e),
    decreases nands.len(),
{
    if nands.len() > 0 {
        let n = nands.last();
        let rest = nands.drop_last();
        assert(forall|i: int| 0 <= i < rest.len() ==> #[trigger] rest[i] == nands[i]);
        lemma_kept_nands(rest, all, nor, e);
        assert(n.len() > 0) by {
            assert(n == nands[nands.len() - 1]);
        }
        if meets(n, nor) {
            let x = choose|x: ItemIndex| n.contains(x) && nor.contains(x);
            assert(n.contains(x) && !e.contains(x));
        } else {
            let w = without(n, all);
            lemma_without_contains(n, all);
            let k = kept_nands(rest, all, nor);
            assert(k.push(w).drop_last() == k);
            assert(k.push(w).last() == w);
            if exists|x: ItemIndex| n.contains(x) && !e.contains(x) {
                let x = choose|x: ItemIndex| n.contains(x) && !e.contains(x);
                assert(w.contains(x) && !e.contains(x));
            }
        }
    }
}

/// Simplifying the labels changes nothing about which entities a system runs
/// on: an entity that has the system's components meets the simplified
/// condition exactly when it meets the condition as written (every OR and
/// NAND set being non-empty).
pub proof fn law_check_labels_equivalent(s: System, e: Set<ItemIndex>)
    requires
        forall|x: ItemIndex| s.c_args@.contains(x) ==> e.contains(x),
        forall|i: int| 0 <= i < s.or_labels@.len() ==> #[trigger] s.or_labels@[i]@.len() > 0,
        forall|i: int| 0 <= i < s.nand_labels@.len() ==> #[trigger] s.nand_labels@[i]@.len() > 0,
    ensures
        labels_hold(s.and_labels@, set_views(s.or_labels@), s.nor_labels@, set_views(s.nand_labels@), e)
            <==> labels_hold(
                without(union(s.and_labels@, s.c_args@), s.c_args@),
                kept_ors(set_views(s.or_labels@), union(s.and_labels@, s.c_args@), s.nor_labels@),
                s.nor_labels@,
                kept_nands(set_views(s.nand_labels@), union(s.and_labels@, s.c_args@), s.nor_labels@),
                e,
            ),
{
    let c = s.c_args@;
    let all = union(s.and_labels@, c);
    let and2 = without(all, c);
    lemma_union_contains(s.and_labels@, c);
    lemma_without_contains(all, c);
    let and_ok = forall|x: ItemIndex| s.and_labels@.contains(x) ==> e.contains(x);
    let and2_ok = forall|x: ItemIndex| and2.contains(x) ==> e.contains(x);
    assert(and_ok == and2_ok) by {
        if and_ok {
            assert forall|x: ItemIndex| and2.contains(x) implies e.contains(x) by {
                assert(all.contains(x));
            }
        }
        if and2_ok {
            assert forall|x: ItemIndex| s.and_labels@.contains(x) implies e.contains(x) by {
                if !c.contains(x) {
                    assert(all.contains(x));
                    assert(and2.contains(x));
                }
            }
        }
    }
    let nor_ok = forall|x: ItemIndex| s.nor_labels@.contains(x) ==> !e.contains(x);
    if and_ok && nor_ok {
        assert forall|x: ItemIndex| all.contains(x) implies e.contains(x) by {
            if s.and_labels@.contains(x) {
            } else {
                assert(c.contains(x));
            }
        }
        let ors = set_views(s.or_labels@);
        let nands = set_views(s.nand_labels@);
        assert forall|i: int| 0 <= i < ors.len() implies #[trigger] ors[i].len() > 0 by {
            assert(ors[i] == s.or_labels@[i]@);
        }
        assert forall|i: int| 0 <= i < nands.len() implies #[trigger] nands[i].len() > 0 by {
            assert(nands[i] == s.nand_labels@[i]@);
        }
        lemma_kept_ors(ors, all, s.nor_labels@, e);
        lemma_kept_nands(nands, all, s.nor_labels@, e);
    }
}

/// How a system is called once its arguments are at hand: directly (it
/// takes no component); once for each entity that has all of `components`;
/// or once with the list of the container's matches, built from the entities
/// of the first component (`first`, at position `first_pos` of the
/// container, taken mutably if `first_mut`), intersected with each further
/// component of `intersect` (the component, its position, whether mutably),
/// each match a tuple of `width` entries whose components sit at
/// `comp_positions`.
#[derive(Debug)]
pub enum CallBody {
    Direct,
    Each { components: Vec<ItemIndex> },
    Collect {
        first: ItemIndex,
        first_pos: usize,
        first_mut: bool,
        width: usize,
        intersect: Vec<(ItemIndex, usize, bool)>,
        comp_positions: Vec<usize>,
    },
}

/// When a system runs: once at start, or on each event of the given kind.
#[derive(Clone, Copy, Debug)]
pub enum CallTrigger {
    Init,
    Event(ItemIndex),
}

/// How a system is called and when.
#[derive(Debug)]
pub struct SystemCallPlan {
    pub body: CallBody,
    pub trigger: CallTrigger,
}

/// The positions of the container's components and whether each is taken
/// mutably, in order.
pub open spec fn comp_slots(v: Seq<ContainerArg>) -> Seq<(usize, bool)>
    decreases v.len(),
{
    if v.len() == 0 {
        Seq::empty()
    } else {
        let r = comp_slots(v.drop_last());
        match v.last() {
            ContainerArg::Component(_, _, m) => r.push(((v.len() - 1) as usize, m)),
            ContainerArg::EntityId => r,
        }
    }
}

/// Each component after the first paired with its slot after the first, as
/// far as both lists go.
pub open spec fn intersections(c_args: Seq<ItemIndex>, slots: Seq<(usize, bool)>) -> Seq<(ItemIndex, usize, bool)> {
    let n = if c_args.len() < slots.len() { c_args.len() } else { slots.len() };
    Seq::new((n - 1) as nat, |k: int| (c_args[k + 1], slots[k + 1].0, slots[k + 1].1))
}

impl System {
    /// How this system is called and when.
    pub fn call_plan(&self) -> (r: SystemCallPlan)
        requires
            !self.is_init ==> self.event is Some,
            self.is_vec && self.c_args@.len() > 0 ==> comp_slots(self.v_types@).len() > 0,
        ensures
            self.c_args@.len() == 0 ==> r.body matches CallBody::Direct,
            self.c_args@.len() > 0 && !self.is_vec ==> (r.body matches CallBody::Each { components } && components@ == self.c_args@),
            self.c_args@.len() > 0 && self.is_vec ==> (r.body matches CallBody::Collect { first, first_pos, first_mut, width, intersect, comp_positions }
                && first == self.c_args@[0]
                && (first_pos, first_mut) == comp_slots(self.v_types@)[0]
                && width == self.v_types@.len()
                && intersect@ == intersections(self.c_args@, comp_slots(self.v_types@))
                && comp_positions@ == comp_slots(self.v_types@).map_values(|s: (usize, bool)| s.0)),
            self.is_init ==> r.trigger matches CallTrigger::Init,
            !self.is_init ==> (r.trigger matches CallTrigger::Event(e) && self.event == Some(e)),
    {
        let trigger = if self.is_init {
            CallTrigger::Init
        } else {
            match self.event {
                Some(e) => CallTrigger::Event(e),
                None => CallTrigger::Init,
            }
        };
        if self.c_args.len() == 0 {
            return SystemCallPlan { body: CallBody::Direct, trigger };
        }
        if !self.is_vec {
            let mut components: Vec<ItemIndex> = Vec::new();
            let mut j: usize = 0;
            while j < self.c_args.len()
                invariant
                    j <= self.c_args@.len(),
                    components@ == self.c_args@.take(j as int),
                decreases self.c_args@.len() - j,
            {
                components.push(self.c_args[j]);
                assert(self.c_args@.take(j + 1) == self.c_args@.take(j as int).push(self.c_args@[j as int]));
                j = j + 1;
            }
            assert(self.c_args@.take(self.c_args@.len() as int) == self.c_args@);
            return SystemCallPlan { body: CallBody::Each { components }, trigger };
        }
        let v = &self.v_types;
        let mut slots: Vec<(usize, bool)> = Vec::new();
        let mut positions: Vec<usize> = Vec::new();
        let mut i: usize = 0;
        while i < v.len()
            invariant
                i <= v@.len(),
                slots@ == comp_slots(v@.take(i as int)),
                positions@ == comp_slots(v@.take(i as int)).map_values(|s: (usize, bool)| s.0),
            decreases v@.len() - i,
        {
            assert(v@.take(i + 1).drop_last() == v@.take(i as int));
            match v[i] {
                ContainerArg::Component(_, _, m) => {
                    slots.push((i, m));
                    positions.push(i);
                    assert(positions@ =~= comp_slots(v@.take(i + 1)).map_values(|s: (usize, bool)| s.0));
                },
                ContainerArg::EntityId => {},
            }
            i = i + 1;
        }
        assert(v@.take(v@.len() as int) == v@);
        let c = &self.c_args;
        let n = if c.len() < slots.len() { c.len() } else { slots.len() };
        let mut intersect: Vec<(ItemIndex, usize, bool)> = Vec::new();
        let mut k: usize = 1;
        while k < n
            invariant
                1 <= k <= n || n == 0,
                n <= c@.len(),
                n <= slots@.len(),
                intersect@.len() == k - 1,
                forall|t: int| 0 <= t < k - 1 ==> #[trigger] intersect@[t] == (c@[t + 1], slots@[t + 1].0, slots@[t + 1].1),
            decreases n - k,
        {
            intersect.push((c[k], slots[k].0, slots[k].1));
            k = k + 1;
        }
        assert(intersect@ =~= intersections(c@, slots@));
        let (first_pos, first_mut) = slots[0];
        SystemCallPlan {
            body: CallBody::Collect {
                first: c[0],
                first_pos,
                first_mut,
                width: v.len(),
                intersect,
                comp_positions: positions,
            },
            trigger,
        }
    }
}

/// An argument of a label, once its type is looked up: a component, or
/// something else (given by its text).
#[derive(Debug)]
pub enum LabelArg {
    Component(ItemIndex),
    Other(String),
}

/// An entry of an entity container's type, once looked up: the entity id, a
/// component (taken mutably or not), or something else (given by its text).
#[derive(Debug)]
pub enum ContainerItem {
    EntityId,
    Component(ItemIndex, bool),
    Other(String),
}

/// A system argument, once its type is looked up: the entity id, a
/// component, a global, an event, a trait backed by a global, a label with
/// its arguments, an entity container with its entries, or a type that is
/// none of these (given by its text).
#[derive(Debug)]
pub enum SystemArg {
    EntityId,
    Component(ItemIndex),
    Global(ItemIndex),
    Event(ItemIndex),
    Trait(ItemIndex),
    Label(LabelType, Vec<LabelArg>),
    Container(Vec<ContainerItem>),
    Unknown(String),
}

/// What a system is called with in each argument's place.
#[derive(Clone, Copy, Debug)]
pub enum CallArg {
    EntityId,
    Component(ItemIndex),
    Global(ItemIndex),
    Event,
    Label,
    Container,
    Missing,
}

/// The mathematical form of what a system's arguments come to.
pub struct SpecSystem {
    pub c_args: Seq<ItemIndex>,
    pub g_args: Seq<ItemIndex>,
    pub event: Option<ItemIndex>,
    pub and_labels: Seq<ItemIndex>,
    pub or_labels: Seq<Seq<ItemIndex>>,
    pub nor_labels: Seq<ItemIndex>,
    pub nand_labels: Seq<Seq<ItemIndex>>,
    pub v_types: Seq<ContainerArg>,
    pub is_vec: bool,
    pub call: Seq<CallArg>,
    pub errs: Seq<Seq<char>>,
}

/// The components of a label's arguments, and an error for each argument
/// that is not a component.
pub open spec fn label_parts(v: Seq<LabelArg>) -> (Seq<ItemIndex>, Seq<Seq<char>>)
    decreases v.len(),
{
    if v.len() == 0 {
        (Seq::empty(), Seq::empty())
    } else {
        let (cs, es) = label_parts(v.drop_last());
        match v.last() {
            LabelArg::Component(c) => (cs.push(c), es),
            LabelArg::Other(t) => (cs, es.push("Label expects Component type, found: "@ + t@)),
        }
    }
}

/// The components of a container and its entries, and an error for each
/// entry that is neither a component nor the entity id.
pub open spec fn container_parts(v: Seq<ContainerItem>) -> (Seq<ItemIndex>, Seq<ContainerArg>, Seq<Seq<char>>)
    decreases v.len(),
{
    if v.len() == 0 {
        (Seq::empty(), Seq::empty(), Seq::empty())
    } else {
        let (cs, vs, es) = container_parts(v.drop_last());
        match v.last() {
            ContainerItem::EntityId => (cs, vs.push(ContainerArg::EntityId), es),
            ContainerItem::Component(c, m) => (cs.push(c), vs.push(ContainerArg::Component(c.0, c.1, m)), es),
            ContainerItem::Other(t) => (cs, vs, es.push("Container expects Component or Entity ID type, found: "@ + t@)),
        }
    }
}

/// The message for an argument of no known type.
pub open spec fn unknown_msg(t: Seq<char>) -> Seq<char> {
    "Argument: \""@ + t + "\" is not a known type"@
}

/// What one more argument adds: a component to the components taken, a
/// global or trait to the globals, the event, a label's components to its
/// label sets (AND and NOR sets grow, each OR or NAND label adds a set), or a
/// container, whose entries replace the components taken; with what the
/// system is called with in its place, and the errors.
pub open spec fn from_step(s: SpecSystem, a: SystemArg) -> SpecSystem {
    match a {
        SystemArg::EntityId => SpecSystem { call: s.call.push(CallArg::EntityId), ..s },
        SystemArg::Component(c) => SpecSystem { c_args: s.c_args.push(c), call: s.call.push(CallArg::Component(c)), ..s },
        SystemArg::Global(g) => SpecSystem { g_args: s.g_args.push(g), call: s.call.push(CallArg::Global(g)), ..s },
        SystemArg::Trait(g) => SpecSystem { g_args: s.g_args.push(g), call: s.call.push(CallArg::Global(g)), ..s },
        SystemArg::Event(e) => SpecSystem { event: Some(e), call: s.call.push(CallArg::Event), ..s },
        SystemArg::Label(ty, v) => {
            let (cs, es) = label_parts(v@);
            let s2 = SpecSystem { errs: s.errs + es, call: s.call.push(CallArg::Label), ..s };
            match ty {
                LabelType::And => SpecSystem { and_labels: union(s.and_labels, cs), ..s2 },
                LabelType::Or => SpecSystem { or_labels: s.or_labels.push(union(Seq::empty(), cs)), ..s2 },
                LabelType::Nand => SpecSystem { nand_labels: s.nand_labels.push(union(Seq::empty(), cs)), ..s2 },
                LabelType::Nor => SpecSystem { nor_labels: union(s.nor_labels, cs), ..s2 },
            }
        },
        SystemArg::Container(v) => {
            let (cs, vs, es) = container_parts(v@);
            SpecSystem { c_args: cs, v_types: vs, is_vec: true, errs: s.errs + es, call: s.call.push(CallArg::Container), ..s }
        },
        SystemArg::Unknown(t) => SpecSystem { errs: s.errs.push(unknown_msg(t@)), call: s.call.push(CallArg::Missing), ..s },
    }
}

/// What the arguments come to, read in order.
pub open spec fn spec_from(args: Seq<SystemArg>) -> SpecSystem
    decreases args.len(),
{
    if args.len() == 0 {
        SpecSystem {
            c_args: Seq::empty(),
            g_args: Seq::empty(),
            event: None,
            and_labels: Seq::empty(),
            or_labels: Seq::empty(),
            nor_labels: Seq::empty(),
            nand_labels: Seq::empty(),
            v_types: Seq::empty(),
            is_vec: false,
            call: Seq::empty(),
            errs: Seq::empty(),
        }
    } else {
        from_step(spec_from(args.drop_last()), args.last())
    }
}

/// The system's state as its mathematical form.
pub open spec fn system_view(s: System, call: Seq<CallArg>, errs: Seq<String>) -> SpecSystem {
    SpecSystem {
        c_args: s.c_args@,
        g_args: s.g_args@,
        event: s.event,
        and_labels: s.and_labels@,
        or_labels: set_views(s.or_labels@),
        nor_labels: s.nor_labels@,
        nand_labels: set_views(s.nand_labels@),
        v_types: s.v_types@,
        is_vec: s.is_vec,
        call,
        errs: strs(errs),
    }
}

fn label_args(v: Vec<LabelArg>) -> (r: (Vec<ItemIndex>, Vec<String>))
    ensures
        (r.0@, strs(r.1@)) == label_parts(v@),
{
    let ghost all = v@;
    let mut cs: Vec<ItemIndex> = Vec::new();
    let mut es: Vec<String> = Vec::new();
    for a in it: v
        invariant
            it.seq() == all,
            (cs@, strs(es@)) == label_parts(all.take(it.index() as int)),
    {
        assert(all.take(it.index() + 1).drop_last() == all.take(it.index() as int));
        assert(all.take(it.index() + 1).last() == a);
        match a {
            LabelArg::Component(c) => cs.push(c),
            LabelArg::Other(t) => {
                let ghost before = es@;
                let mut m = String::from_str("Label expects Component type, found: ");
                m.append(t.as_str());
                es.push(m);
                assert(strs(es@) =~= strs(before).push(m@));
            },
        }
    }
    assert(all.take(all.len() as int) == all);
    (cs, es)
}

fn container_args(v: Vec<ContainerItem>) -> (r: (Vec<ItemIndex>, Vec<ContainerArg>, Vec<String>))
    ensures
        (r.0@, r.1@, strs(r.2@)) == container_parts(v@),
{
    let ghost all = v@;
    let mut cs: Vec<ItemIndex> = Vec::new();
    let mut vs: Vec<ContainerArg> = Vec::new();
    let mut es: Vec<String> = Vec::new();
    for a in it: v
        invariant
            it.seq() == all,
            (cs@, vs@, strs(es@)) == container_parts(all.take(it.index() as int)),
    {
        assert(all.take(it.index() + 1).drop_last() == all.take(it.index() as int));
        assert(all.take(it.index() + 1).last() == a);
        match a {
            ContainerItem::EntityId => vs.push(ContainerArg::EntityId),
            ContainerItem::Component(c, m) => {
                cs.push(c);
                vs.push(ContainerArg::Component(c.0, c.1, m));
            },
            ContainerItem::Other(t) => {
                let ghost before = es@;
                let mut msg = String::from_str("Container expects Component or Entity ID type, found: ");
                msg.append(t.as_str());
                es.push(msg);
                assert(strs(es@) =~= strs(before).push(msg@));
            },
        }
    }
    assert(all.take(all.len() as int) == all);
    (cs, vs, es)
}

fn contains_index(v: &Vec<ItemIndex>, x: ItemIndex) -> (r: bool)
    ensures
        r == v@.contains(x),
{
    let mut i: usize = 0;
    while i < v.len()
        invariant
            i <= v@.len(),
            forall|j: int| 0 <= j < i ==> v@[j] != x,
        decreases v@.len() - i,
    {
        if v[i].0 == x.0 && v[i].1 == x.1 {
            return true;
        }
        i = i + 1;
    }
    false
}

/// Adds the items of `xs` that `v` does not hold yet, in order.
fn extend_unique(v: &mut Vec<ItemIndex>, xs: &Vec<ItemIndex>)
    ensures
        final(v)@ == union(old(v)@, xs@),
{
    let ghost a = v@;
    let mut k: usize = 0;
    while k < xs.len()
        invariant
            k <= xs@.len(),
            v@ == union(a, xs@.take(k as int)),
        decreases xs@.len() - k,
    {
        assert(xs@.take(k + 1).drop_last() == xs@.take(k as int));
        let x = xs[k];
        if !contains_index(v, x) {
            v.push(x);
        }
        k = k + 1;
    }
    assert(xs@.take(xs@.len() as int) == xs@);
}

impl System {
    /// Reads a system's arguments, their types looked up, in order: the
    /// system to call (an init system if `is_init`) and what it is called
    /// with, or every error met.
    pub fn from_args(args: Vec<SystemArg>, is_init: bool) -> (r: Result<(System, Vec<CallArg>), Vec<String>>)
        ensures
            spec_from(args@).errs.len() == 0 ==> (r matches Ok((s, call))
                && system_view(s, call@, Seq::empty()) == spec_from(args@) && s.is_init == is_init),
            spec_from(args@).errs.len() > 0 ==> (r matches Err(es) && strs(es@) == spec_from(args@).errs),
    {
        let ghost all = args@;
        let mut sys = System::new();
        sys.is_init = is_init;
        let mut call: Vec<CallArg> = Vec::new();
        let mut errs: Vec<String> = Vec::new();
        proof {
            assert(all.take(0) =~= Seq::<SystemArg>::empty());
            assert(set_views(sys.or_labels@) =~= Seq::<Seq<ItemIndex>>::empty());
            assert(set_views(sys.nand_labels@) =~= Seq::<Seq<ItemIndex>>::empty());
            assert(strs(errs@) =~= Seq::<Seq<char>>::empty());
            assert(sys.c_args@ =~= Seq::<ItemIndex>::empty());
            assert(sys.g_args@ =~= Seq::<ItemIndex>::empty());
            assert(sys.and_labels@ =~= Seq::<ItemIndex>::empty());
            assert(sys.nor_labels@ =~= Seq::<ItemIndex>::empty());
            assert(sys.v_types@ =~= Seq::<ContainerArg>::empty());
            assert(call@ =~= Seq::<CallArg>::empty());
        }
        for a in it: args
            invariant
                it.seq() == all,
                sys.is_init == is_init,
                system_view(sys, call@, errs@) == spec_from(all.take(it.index() as int)),
        {
            let ghost st = spec_from(all.take(it.index() as int));
            let ghost old_or = sys.or_labels@;
            let ghost old_nand = sys.nand_labels@;
            let ghost old_errs = errs@;
            proof {
                assert(all.take(it.index() + 1).drop_last() == all.take(it.index() as int));
                assert(all.take(it.index() + 1).last() == a);
            }
            match a {
                SystemArg::EntityId => call.push(CallArg::EntityId),
                SystemArg::Component(c) => {
                    sys.c_args.push(c);
                    call.push(CallArg::Component(c));
                },
                SystemArg::Global(g) => {
                    sys.g_args.push(g);
                    call.push(CallArg::Global(g));
                },
                SystemArg::Trait(g) => {
                    sys.g_args.push(g);
                    call.push(CallArg::Global(g));
                },
                SystemArg::Event(e) => {
                    sys.event = Some(e);
                    call.push(CallArg::Event);
                },
                SystemArg::Label(ty, v) => {
                    let (cs, mut es) = label_args(v);
                    let ghost es_v = es@;
                    errs.append(&mut es);
                    proof { lemma_strs_concat(old_errs, es_v); }
                    match ty {
                        LabelType::And => extend_unique(&mut sys.and_labels, &cs),
                        LabelType::Nor => extend_unique(&mut sys.nor_labels, &cs),
                        LabelType::Or => {
                            let mut set: Vec<ItemIndex> = Vec::new();
                            extend_unique(&mut set, &cs);
                            sys.or_labels.push(set);
                            assert(set_views(sys.or_labels@) =~= set_views(old_or).push(set@));
                        },
                        LabelType::Nand => {
                            let mut set: Vec<ItemIndex> = Vec::new();
                            extend_unique(&mut set, &cs);
                            sys.nand_labels.push(set);
                            assert(set_views(sys.nand_labels@) =~= set_views(old_nand).push(set@));
                        },
                    }
                    call.push(CallArg::Label);
                },
                SystemArg::Container(v) => {
                    let (cs, vs, mut es) = container_args(v);
                    let ghost es_v = es@;
                    errs.append(&mut es);
                    proof { lemma_strs_concat(old_errs, es_v); }
                    sys.c_args = cs;
                    sys.v_types = vs;
                    sys.is_vec = true;
                    call.push(CallArg::Container);
                },
                SystemArg::Unknown(t) => {
                    let mut m = String::from_str("Argument: \"");
                    m.append(t.as_str());
                    m.append("\" is not a known type");
                    errs.push(m);
                    assert(strs(errs@) =~= strs(old_errs).push(m@));
                    call.push(CallArg::Missing);
                },
            }
            proof {
                assert(system_view(sys, call@, errs@) =~= from_step(st, a));
            }
        }
        proof {
            assert(all.take(all.len() as int) == all);
        }
        if errs.len() == 0 {
            assert(strs(errs@) =~= Seq::<Seq<char>>::empty());
            Ok((sys, call))
        } else {
            Err(errs)
        }
    }
}

proof fn lemma_label_parts_contains(v: Seq<LabelArg>, j: int)
    requires
        0 <= j < v.len(),
        v[j] is Component,
    ensures
        label_parts(v).0.contains(v[j]->Component_0),
    decreases v.len(),
{
    let (cs, es) = label_parts(v.drop_last());
    if j < v.len() - 1 {
        lemma_label_parts_contains(v.drop_last(), j);
        assert(v.drop_last()[j] == v[j]);
        let c = v[j]->Component_0;
        let k = choose|k: int| 0 <= k < cs.len() && cs[k] == c;
        match v.last() {
            LabelArg::Component(d) => {
                assert(label_parts(v).0 == cs.push(d));
                assert(cs.push(d)[k] == c);
            },
            LabelArg::Other(_) => {},
        }
    } else {
        assert(v.last() == v[j]);
        let c = v[j]->Component_0;
        assert(label_parts(v).0 == cs.push(c));
        assert(cs.push(c)[cs.len() as int] == c);
    }
}

proof fn lemma_step_keeps(s: SpecSystem, a: SystemArg, x: ItemIndex)
    ensures
        s.and_labels.contains(x) ==> from_step(s, a).and_labels.contains(x),
        s.nor_labels.contains(x) ==> from_step(s, a).nor_labels.contains(x),
{
    match a {
        SystemArg::Label(ty, v) => {
            let (cs, _) = label_parts(v@);
            lemma_union_contains(s.and_labels, cs);
            lemma_union_contains(s.nor_labels, cs);
        },
        _ => {},
    }
}

/// A component named by an AND label argument is required of every entity
/// the system runs on, and a component named by a NOR label argument
/// excludes every entity that has it, whatever the other arguments are.
pub proof fn law_label_args(args: Seq<SystemArg>, i: int, j: int, e: Set<ItemIndex>)
    requires
        0 <= i < args.len(),
        args[i] is Label,
        0 <= j < args[i]->Label_1@.len(),
        args[i]->Label_1@[j] is Component,
    ensures
        ({
            let s = spec_from(args);
            let c = args[i]->Label_1@[j]->Component_0;
            &&& args[i]->Label_0 == LabelType::Nor ==> s.nor_labels.contains(c)
                && (e.contains(c) ==> !labels_hold(s.and_labels, s.or_labels, s.nor_labels, s.nand_labels, e))
            &&& args[i]->Label_0 == LabelType::And ==> s.and_labels.contains(c)
                && (!e.contains(c) ==> !labels_hold(s.and_labels, s.or_labels, s.nor_labels, s.nand_labels, e))
        }),
    decreases args.len(),
{
    let c = args[i]->Label_1@[j]->Component_0;
    let prev = spec_from(args.drop_last());
    if i < args.len() - 1 {
        law_label_args(args.drop_last(), i, j, e);
        assert(args.drop_last()[i] == args[i]);
        lemma_step_keeps(prev, args.last(), c);
    } else {
        assert(args.last() == args[i]);
        let v = args[i]->Label_1;
        lemma_label_parts_contains(v@, j);
        let (cs, _) = label_parts(v@);
        lemma_union_contains(prev.and_labels, cs);
        lemma_union_contains(prev.nor_labels, cs);
    }
}

proof fn lemma_all_meet_index(ors: Seq<Seq<ItemIndex>>, e: Set<ItemIndex>, k: int)
    requires
        all_meet(ors, e),
        0 <= k < ors.len(),
    ensures
        exists|x: ItemIndex| ors[k].contains(x) && e.contains(x),
    decreases ors.len(),
{
    if k < ors.len() - 1 {
        lemma_all_meet_index(ors.drop_last(), e, k);
        assert(ors.drop_last()[k] == ors[k]);
    }
}

proof fn lemma_all_miss_index(nands: Seq<Seq<ItemIndex>>, e: Set<ItemIndex>, k: int)
    requires
        all_miss(nands, e),
        0 <= k < nands.len(),
    ensures
        exists|x: ItemIndex| nands[k].contains(x) && !e.contains(x),
    decreases nands.len(),
{
    if k < nands.len() - 1 {
        lemma_all_miss_index(nands.drop_last(), e, k);
        assert(nands.drop_last()[k] == nands[k]);
    }
}

/// The label set that an OR or NAND label argument adds holds exactly that
/// label's components, and it stays among the system's sets.
proof fn lemma_set_added(args: Seq<SystemArg>, i: int)
    requires
        0 <= i < args.len(),
        args[i] is Label,
        args[i]->Label_0 == LabelType::Or || args[i]->Label_0 == LabelType::Nand,
    ensures
        ({
            let s = spec_from(args);
            let set = union(Seq::empty(), label_parts(args[i]->Label_1@).0);
            &&& args[i]->Label_0 == LabelType::Or ==> exists|k: int| 0 <= k < s.or_labels.len() && s.or_labels[k] == set
            &&& args[i]->Label_0 == LabelType::Nand ==> exists|k: int| 0 <= k < s.nand_labels.len() && s.nand_labels[k] == set
        }),
    decreases args.len(),
{
    let prev = spec_from(args.drop_last());
    let s = spec_from(args);
    let set = union(Seq::empty(), label_parts(args[i]->Label_1@).0);
    if i < args.len() - 1 {
        lemma_set_added(args.drop_last(), i);
        assert(args.drop_last()[i] == args[i]);
        if args[i]->Label_0 == LabelType::Or {
            let k = choose|k: int| 0 <= k < prev.or_labels.len() && prev.or_labels[k] == set;
            assert(s.or_labels[k] == set);
        } else {
            let k = choose|k: int| 0 <= k < prev.nand_labels.len() && prev.nand_labels[k] == set;
            assert(s.nand_labels[k] == set);
        }
    } else {
        assert(args.last() == args[i]);
        if args[i]->Label_0 == LabelType::Or {
            assert(s.or_labels[prev.or_labels.len() as int] == set);
        } else {
            assert(s.nand_labels[prev.nand_labels.len() as int] == set);
        }
    }
}

/// An entity with none of the components of an OR label argument, or with
/// all the components of a NAND label argument, is not run on.
pub proof fn law_set_label_args(args: Seq<SystemArg>, i: int, e: Set<ItemIndex>)
    requires
        0 <= i < args.len(),
        args[i] is Label,
    ensures
        ({
            let s = spec_from(args);
            let v = args[i]->Label_1@;
            &&& args[i]->Label_0 == LabelType::Or
                && (forall|j: int| 0 <= j < v.len() && (#[trigger] v[j]) is Component ==> !e.contains(v[j]->Component_0))
                ==> !labels_hold(s.and_labels, s.or_labels, s.nor_labels, s.nand_labels, e)
            &&& args[i]->Label_0 == LabelType::Nand
                && (forall|j: int| 0 <= j < v.len() && (#[trigger] v[j]) is Component ==> e.contains(v[j]->Component_0))
                ==> !labels_hold(s.and_labels, s.or_labels, s.nor_labels, s.nand_labels, e)
        }),
{
    let s = spec_from(args);
    let v = args[i]->Label_1@;
    let cs = label_parts(v).0;
    let set = union(Seq::empty(), cs);
    if args[i]->Label_0 == LabelType::Or || args[i]->Label_0 == LabelType::Nand {
        lemma_set_added(args, i);
        lemma_union_contains(Seq::empty(), cs);
        lemma_label_parts_members(v);
        if args[i]->Label_0 == LabelType::Or
            && (forall|j: int| 0 <= j < v.len() && (#[trigger] v[j]) is Component ==> !e.contains(v[j]->Component_0)) {
            let k = choose|k: int| 0 <= k < s.or_labels.len() && s.or_labels[k] == set;
            if all_meet(s.or_labels, e) {
                lemma_all_meet_index(s.or_labels, e, k);
                let x = choose|x: ItemIndex| s.or_labels[k].contains(x) && e.contains(x);
                assert(cs.contains(x));
            }
        }
        if args[i]->Label_0 == LabelType::Nand
            && (forall|j: int| 0 <= j < v.len() && (#[trigger] v[j]) is Component ==> e.contains(v[j]->Component_0)) {
            let k = choose|k: int| 0 <= k < s.nand_labels.len() && s.nand_labels[k] == set;
            if all_miss(s.nand_labels, e) {
                lemma_all_miss_index(s.nand_labels, e, k);
                let x = choose|x: ItemIndex| s.nand_labels[k].contains(x) && !e.contains(x);
                assert(cs.contains(x));
            }
        }
    }
}

/// Every component a label's arguments yield is that of some argument.
proof fn lemma_label_parts_members(v: Seq<LabelArg>)
    ensures
        forall|x: ItemIndex| #[trigger] label_parts(v).0.contains(x) ==> exists|j: int| 0 <= j < v.len()
            && (#[trigger] v[j]) is Component && v[j]->Component_0 == x,
    decreases v.len(),
{
    if v.len() > 0 {
        lemma_label_parts_members(v.drop_last());
        let (cs, _) = label_parts(v.drop_last());
        assert forall|x: ItemIndex| #[trigger] label_parts(v).0.contains(x) implies exists|j: int| 0 <= j < v.len()
            && (#[trigger] v[j]) is Component && v[j]->Component_0 == x by {
            if cs.contains(x) {
                let j = choose|j: int| 0 <= j < v.drop_last().len() && (#[trigger] v.drop_last()[j]) is Component && v.drop_last()[j]->Component_0 == x;
                assert(v[j] == v.drop_last()[j]);
            } else {
                let n = v.len() - 1;
                assert(v[n] == v.last());
                match v.last() {
                    LabelArg::Component(d) => {
                        let t = cs.push(d);
                        let k = choose|k: int| 0 <= k < t.len() && t[k] == x;
                        if k < cs.len() {
                            assert(cs[k] == t[k]);
                        }
                    },
                    LabelArg::Other(_) => {},
                }
            }
        }
    }
}

} // verus!
