use vstd::prelude::*;

use super::id::PaneId;
use crate::draw::DrawCommand;

verus! {

/// A rectangle of terminal cells: its top-left corner and its size.
#[derive(Debug, Clone, Copy)]
pub struct Rect {
    pub offset: (u16, u16),
    pub size: (u16, u16),
}

impl Rect {
    /// Moves the rectangle by `offset`.
    pub fn apply_offset(&mut self, offset: (u16, u16))
        requires
            old(self).offset.0 + offset.0 <= u16::MAX,
            old(self).offset.1 + offset.1 <= u16::MAX,
        ensures
            final(self).offset.0 == old(self).offset.0 + offset.0,
            final(self).offset.1 == old(self).offset.1 + offset.1,
            final(self).size == old(self).size,
    {
        self.offset.0 = self.offset.0 + offset.0;
        self.offset.1 = self.offset.1 + offset.1;
    }

    /// Cuts the rectangle down to the area of `outer`'s size, with the origin at
    /// its own origin: the offset is kept within the outer size and the size
    /// within what remains of it.
    pub fn clip(&mut self, outer: Rect)
        ensures
            final(self).offset.0 == min_u16(old(self).offset.0, outer.size.0),
            final(self).offset.1 == min_u16(old(self).offset.1, outer.size.1),
            final(self).size.0 == min_u16(old(self).size.0, (outer.size.0 - final(self).offset.0) as u16),
            final(self).size.1 == min_u16(old(self).size.1, (outer.size.1 - final(self).offset.1) as u16),
            final(self).offset.0 + final(self).size.0 <= outer.size.0,
            final(self).offset.1 + final(self).size.1 <= outer.size.1,
    {
        self.offset.0 = if self.offset.0 <= outer.size.0 { self.offset.0 } else { outer.size.0 };
        self.offset.1 = if self.offset.1 <= outer.size.1 { self.offset.1 } else { outer.size.1 };
        let w = outer.size.0 - self.offset.0;
        let h = outer.size.1 - self.offset.1;
        self.size.0 = if self.size.0 <= w { self.size.0 } else { w };
        self.size.1 = if self.size.1 <= h { self.size.1 } else { h };
    }
}

pub open spec fn min_u16(a: u16, b: u16) -> u16 {
    if a <= b { a } else { b }
}

#[derive(Debug, Clone, Copy, PartialEq, Eq, Structural)]
pub enum Direction {
    Horizontal,
    Vertical,
}

/// An inclusive range of sizes.
#[derive(Debug, Clone, Copy, PartialEq, Eq, Structural)]
pub struct SizeRange(pub u16, pub u16);

pub open spec fn sat_add_u16(a: u16, b: u16) -> u16 {
    if a + b <= u16::MAX { (a + b) as u16 } else { u16::MAX }
}

impl SizeRange {
    /// The range of the sum of two sizes, saturating at the largest size.
    pub fn add(self, rhs: Self) -> (r: Self)
        ensures
            r.0 == sat_add_u16(self.0, rhs.0),
            r.1 == sat_add_u16(self.1, rhs.1),
    {
        SizeRange(self.0.saturating_add(rhs.0), self.1.saturating_add(rhs.1))
    }
}

/// The end of a range of sizes, as `std::ops::Bound` gives it.
#[derive(Debug, Clone, Copy, PartialEq, Eq, Structural)]
pub enum SizeBound {
    Included(u16),
    Excluded(u16),
    Unbounded,
}

/// The inclusive range that two bounds describe. An excluded start must not be
/// the largest size, and an excluded end not zero.
pub fn range_bounds_into_range(start: SizeBound, end: SizeBound) -> (r: SizeRange)
    requires
        start != SizeBound::Excluded(u16::MAX),
        end != SizeBound::Excluded(0),
    ensures
        r.0 == match start {
            SizeBound::Included(n) => n as int,
            SizeBound::Excluded(n) => n + 1,
            SizeBound::Unbounded => 0,
        },
        r.1 == match end {
            SizeBound::Included(n) => n as int,
            SizeBound::Excluded(n) => n - 1,
            SizeBound::Unbounded => u16::MAX as int,
        },
{
    let s = match start {
        SizeBound::Included(n) => n,
        SizeBound::Excluded(n) => n + 1,
        SizeBound::Unbounded => 0,
    };
    let e = match end {
        SizeBound::Included(n) => n,
        SizeBound::Excluded(n) => n - 1,
        SizeBound::Unbounded => u16::MAX,
    };
    SizeRange(s, e)
}

/// A pane and the plugin that serves it.
#[derive(Debug)]
pub struct PaneEntry {
    pub parent: Option<PaneId>,
    pub handler: String,
}

/// Where the panes of a layout go, and what to draw behind them.
#[derive(Debug)]
pub struct ResolvedLayout {
    pub pane_rects: Vec<(PaneId, Rect)>,
    pub back_draw_commands: Vec<DrawCommand>,
}

/// A layout of panes: a pane, or a split into children side by side.
#[derive(Debug)]
pub enum LayoutNode {
    Pane(PaneId),
    Split { direction: Direction, children: Vec<LayoutNode> },
}

/// The shape of a [`LayoutNode`].
pub enum LayoutModel {
    Pane(PaneId),
    Split(Direction, Seq<LayoutModel>),
}

impl View for LayoutNode {
    type V = LayoutModel;

    open spec fn view(&self) -> LayoutModel {
        self.model()
    }
}

impl LayoutNode {
    pub open spec fn model(self) -> LayoutModel
        decreases self, 1nat,
    {
        match self {
            LayoutNode::Pane(id) => LayoutModel::Pane(id),
            LayoutNode::Split { direction, children } => LayoutModel::Split(
                direction,
                LayoutNode::models(children@),
            ),
        }
    }

    pub open spec fn models(nodes: Seq<LayoutNode>) -> Seq<LayoutModel>
        decreases nodes, 0nat,
    {
        if nodes.len() == 0 {
            Seq::empty()
        } else {
            LayoutNode::models(nodes.drop_last()).push(nodes.last().model())
        }
    }
}

pub proof fn lemma_models_len(nodes: Seq<LayoutNode>)
    ensures
        LayoutNode::models(nodes).len() == nodes.len(),
        forall|i: int| 0 <= i < nodes.len() ==> #[trigger] LayoutNode::models(nodes)[i] == nodes[i].model(),
    decreases nodes.len(),
{
    if nodes.len() > 0 {
        lemma_models_len(nodes.drop_last());
    }
}

/// The panes of a layout, from first to last.
pub open spec fn ids(m: LayoutModel) -> Seq<PaneId>
    decreases m, 1nat,
{
    match m {
        LayoutModel::Pane(id) => seq![id],
        LayoutModel::Split(_, cs) => ids_seq(cs),
    }
}

/// The panes of a sequence of layouts, from first to last.
pub open spec fn ids_seq(cs: Seq<LayoutModel>) -> Seq<PaneId>
    decreases cs, 0nat,
{
    if cs.len() == 0 {
        Seq::empty()
    } else {
        ids_seq(cs.drop_last()) + ids(cs.last())
    }
}

/// The position of the first child that is the pane `src`, or -1.
pub open spec fn first_pane(cs: Seq<LayoutModel>, src: PaneId) -> int
    decreases cs.len(),
{
    if cs.len() == 0 {
        -1
    } else {
        let f = first_pane(cs.drop_last(), src);
        if f >= 0 {
            f
        } else if cs.last() == LayoutModel::Pane(src) {
            cs.len() - 1
        } else {
            -1
        }
    }
}

/// The layout with pane `new` added beside pane `src`: a pane `src` becomes
/// a split in `dir` of itself and `new`; in a split in `dir` with `src` as a
/// direct child, `new` comes right after the first such child; in any other
/// split, every child is split so.
pub open spec fn split_model(m: LayoutModel, new: PaneId, src: PaneId, dir: Direction) -> LayoutModel
    decreases m, 1nat,
{
    match m {
        LayoutModel::Pane(p) => if p == src {
            LayoutModel::Split(dir, seq![LayoutModel::Pane(p), LayoutModel::Pane(new)])
        } else {
            m
        },
        LayoutModel::Split(d, cs) => if d == dir && first_pane(cs, src) >= 0 {
            LayoutModel::Split(d, cs.insert(first_pane(cs, src) + 1, LayoutModel::Pane(new)))
        } else {
            LayoutModel::Split(d, split_seq(cs, new, src, dir))
        },
    }
}

/// Every layout of `cs` split as `split_model` says.
pub open spec fn split_seq(cs: Seq<LayoutModel>, new: PaneId, src: PaneId, dir: Direction) -> Seq<
    LayoutModel,
>
    decreases cs, 0nat,
{
    if cs.len() == 0 {
        Seq::empty()
    } else {
        split_seq(cs.drop_last(), new, src, dir).push(split_model(cs.last(), new, src, dir))
    }
}

/// The position of the first child that is the pane `src`, if any.
fn first_pane_of(children: &Vec<LayoutNode>, src: PaneId) -> (r: Option<usize>)
    ensures
        match r {
            Some(k) => k == first_pane(LayoutNode::models(children@), src),
            None => first_pane(LayoutNode::models(children@), src) < 0,
        },
{
    proof {
        lemma_models_len(children@);
    }
    let mut i: usize = 0;
    while i < children.len()
        invariant
            i <= children@.len(),
            LayoutNode::models(children@).len() == children@.len(),
            forall|k: int| 0 <= k < children@.len() ==> #[trigger] LayoutNode::models(children@)[k] == children@[k].model(),
            first_pane(LayoutNode::models(children@).take(i as int), src) < 0,
        decreases children@.len() - i,
    {
        let ghost ms = LayoutNode::models(children@);
        assert(ms.take(i + 1).drop_last() =~= ms.take(i as int));
        match &children[i] {
            LayoutNode::Pane(p) => {
                if *p == src {
                    proof {
                        lemma_first_pane_prefix(ms, src, i + 1);
                    }
                    return Some(i);
                }
            },
            _ => {},
        }
        i = i + 1;
    }
    assert(LayoutNode::models(children@).take(children@.len() as int) =~= LayoutNode::models(children@));
    None
}

pub proof fn lemma_first_pane_bound(cs: Seq<LayoutModel>, src: PaneId)
    ensures
        first_pane(cs, src) < cs.len(),
        first_pane(cs, src) >= 0 ==> cs[first_pane(cs, src)] == LayoutModel::Pane(src),
        first_pane(cs, src) >= 0 ==> forall|j: int| 0 <= j < first_pane(cs, src) ==> cs[j] != LayoutModel::Pane(src),
        first_pane(cs, src) < 0 ==> forall|j: int| 0 <= j < cs.len() ==> cs[j] != LayoutModel::Pane(src),
    decreases cs.len(),
{
    if cs.len() > 0 {
        lemma_first_pane_bound(cs.drop_last(), src);
        assert(forall|j: int| 0 <= j < cs.len() - 1 ==> cs.drop_last()[j] == cs[j]);
    }
}

/// The first pane `src` within a prefix is the first in the whole.
pub proof fn lemma_first_pane_prefix(cs: Seq<LayoutModel>, src: PaneId, n: int)
    requires
        0 <= n <= cs.len(),
        first_pane(cs.take(n), src) >= 0,
    ensures
        first_pane(cs, src) == first_pane(cs.take(n), src),
    decreases cs.len(),
{
    if n < cs.len() {
        assert(cs.drop_last().take(n) =~= cs.take(n));
        lemma_first_pane_prefix(cs.drop_last(), src, n);
    } else {
        assert(cs.take(n) =~= cs);
    }
}

impl LayoutNode {
    /// A copy of the layout.
    pub fn copy_node(&self) -> (r: LayoutNode)
        ensures
            r@ == self@,
        decreases self,
    {
        match self {
            LayoutNode::Pane(id) => LayoutNode::Pane(*id),
            LayoutNode::Split { direction, children } => {
                let mut out: Vec<LayoutNode> = Vec::new();
                let mut i: usize = 0;
                while i < children.len()
                    invariant
                        i <= children@.len(),
                        *self == (LayoutNode::Split { direction: *direction, children: *children }),
                        LayoutNode::models(out@) == LayoutNode::models(children@.take(i as int)),
                    decreases children@.len() - i,
                {
                    assert(decreases_to!(*self => (*self)->children));
                    assert(decreases_to!(*children => children[i as int]));
                    let c = children[i].copy_node();
                    let ghost prev = out@;
                    out.push(c);
                    assert(out@.drop_last() =~= prev);
                    assert(children@.take(i + 1).drop_last() =~= children@.take(i as int));
                    i = i + 1;
                }
                assert(children@.take(children@.len() as int) =~= children@);
                LayoutNode::Split { direction: *direction, children: out }
            },
        }
    }

    /// The layout with pane `new_id` added beside pane `source_id`; see
    /// `split_model`.
    pub fn split_copy(&self, new_id: PaneId, source_id: PaneId, direction: Direction) -> (r: LayoutNode)
        ensures
            r@ == split_model(self@, new_id, source_id, direction),
        decreases self,
    {
        match self {
            LayoutNode::Pane(p) => {
                if *p == source_id {
                    let mut cs: Vec<LayoutNode> = Vec::new();
                    cs.push(LayoutNode::Pane(*p));
                    cs.push(LayoutNode::Pane(new_id));
                    proof {
                        let ms = LayoutNode::models(cs@);
                        lemma_models_len(cs@);
                        assert(ms =~= seq![LayoutModel::Pane(*p), LayoutModel::Pane(new_id)]);
                    }
                    LayoutNode::Split { direction, children: cs }
                } else {
                    LayoutNode::Pane(*p)
                }
            },
            LayoutNode::Split { direction: d, children } => {
                let pos = if *d == direction {
                    first_pane_of(children, source_id)
                } else {
                    None
                };
                match pos {
                    Some(k) => {
                        let copied = self.copy_node();
                        let mut cs = match copied {
                            LayoutNode::Split { children: c, .. } => c,
                            LayoutNode::Pane(_) => Vec::new(),
                        };
                        let ghost before = cs@;
                        proof {
                            lemma_models_len(before);
                            lemma_models_len(children@);
                            lemma_first_pane_bound(LayoutNode::models(children@), source_id);
                        }
                        let _n = cs.len();
                        cs.insert(k + 1, LayoutNode::Pane(new_id));
                        proof {
                            lemma_models_len(cs@);
                            assert(LayoutNode::models(cs@) =~= LayoutNode::models(before).insert(k + 1, LayoutModel::Pane(new_id)));
                        }
                        LayoutNode::Split { direction: *d, children: cs }
                    },
                    None => {
                        let mut out: Vec<LayoutNode> = Vec::new();
                        let mut i: usize = 0;
                        while i < children.len()
                            invariant
                                i <= children@.len(),
                                *self == (LayoutNode::Split { direction: *d, children: *children }),
                                LayoutNode::models(out@) == split_seq(LayoutNode::models(children@.take(i as int)), new_id, source_id, direction),
                            decreases children@.len() - i,
                        {
                            assert(decreases_to!(*self => (*self)->children));
                            assert(decreases_to!(*children => children[i as int]));
                            let c = children[i].split_copy(new_id, source_id, direction);
                            let ghost prev = out@;
                            out.push(c);
                            assert(out@.drop_last() =~= prev);
                            assert(children@.take(i + 1).drop_last() =~= children@.take(i as int));
                            let ghost mt = LayoutNode::models(children@.take(i + 1));
                            assert(mt.drop_last() == LayoutNode::models(children@.take(i as int)));
                            assert(mt.last() == children@[i as int].model());
                            i = i + 1;
                        }
                        assert(children@.take(children@.len() as int) =~= children@);
                        LayoutNode::Split { direction: *d, children: out }
                    },
                }
            },
        }
    }

    /// Adds pane `new_id` beside pane `source_id`; see `split_model`.
    pub fn split(&mut self, new_id: PaneId, source_id: PaneId, direction: Direction)
        ensures
            final(self)@ == split_model(old(self)@, new_id, source_id, direction),
    {
        *self = self.split_copy(new_id, source_id, direction);
    }

    /// The panes of the layout, from first to last.
    pub fn pane_ids(&self) -> (r: Vec<PaneId>)
        ensures
            r@ == ids(self@),
        decreases self,
    {
        match self {
            LayoutNode::Pane(id) => {
                let mut v: Vec<PaneId> = Vec::new();
                v.push(*id);
                assert(v@ =~= seq![*id]);
                v
            },
            LayoutNode::Split { children, .. } => {
                let mut out: Vec<PaneId> = Vec::new();
                let mut i: usize = 0;
                proof {
                    lemma_models_len(children@);
                }
                while i < children.len()
                    invariant
                        i <= children@.len(),
                        *self == (LayoutNode::Split { direction: self->direction, children: *children }),
                        LayoutNode::models(children@).len() == children@.len(),
                        forall|k: int| 0 <= k < children@.len() ==> #[trigger] LayoutNode::models(children@)[k] == children@[k].model(),
                        out@ == ids_seq(LayoutNode::models(children@).take(i as int)),
                    decreases children@.len() - i,
                {
                    assert(decreases_to!(*self => (*self)->children));
                    assert(decreases_to!(*children => children[i as int]));
                    let sub = children[i].pane_ids();
                    let ghost ms = LayoutNode::models(children@);
                    assert(ms.take(i + 1).drop_last() =~= ms.take(i as int));
                    out.append(&mut sub.clone());
                    i = i + 1;
                }
                assert(LayoutNode::models(children@).take(children@.len() as int) =~= LayoutNode::models(children@));
                out
            },
        }
    }
}

/// `s` holds `src` at position `i` and nowhere else.
pub open spec fn unique_at(s: Seq<PaneId>, i: int, src: PaneId) -> bool {
    &&& 0 <= i < s.len()
    &&& s[i] == src
    &&& forall|j: int| 0 <= j < s.len() && j != i ==> s[j] != src
}

pub proof fn lemma_ids_seq_append(a: Seq<LayoutModel>, b: Seq<LayoutModel>)
    ensures
        ids_seq(a + b) == ids_seq(a) + ids_seq(b),
    decreases b.len(),
{
    if b.len() == 0 {
        assert(a + b =~= a);
        assert(ids_seq(a) + Seq::<PaneId>::empty() =~= ids_seq(a));
    } else {
        lemma_ids_seq_append(a, b.drop_last());
        assert((a + b).drop_last() =~= a + b.drop_last());
        assert((a + b).last() == b.last());
        assert(ids_seq(a) + ids_seq(b.drop_last()) + ids(b.last()) =~= ids_seq(a) + (ids_seq(
            b.drop_last(),
        ) + ids(b.last())));
    }
}

pub proof fn lemma_ids_seq_push(cs: Seq<LayoutModel>, x: LayoutModel)
    ensures
        ids_seq(cs.push(x)) == ids_seq(cs) + ids(x),
{
    assert(cs.push(x).drop_last() =~= cs);
    assert(cs.push(x).last() == x);
}

pub proof fn lemma_ids_seq_one(x: LayoutModel)
    ensures
        ids_seq(seq![x]) == ids(x),
{
    lemma_ids_seq_push(Seq::empty(), x);
    assert(Seq::<LayoutModel>::empty().push(x) =~= seq![x]);
    assert(Seq::<PaneId>::empty() + ids(x) =~= ids(x));
}

/// Splitting `cs` at a child that is the pane `src` splits the panes there.
pub proof fn lemma_ids_at(cs: Seq<LayoutModel>, k: int)
    requires
        0 <= k < cs.len(),
    ensures
        ids_seq(cs) == ids_seq(cs.take(k)) + ids(cs[k]) + ids_seq(cs.skip(k + 1)),
{
    assert(cs.take(k + 1) + cs.skip(k + 1) =~= cs);
    lemma_ids_seq_append(cs.take(k + 1), cs.skip(k + 1));
    assert(cs.take(k).push(cs[k]) =~= cs.take(k + 1));
    lemma_ids_seq_push(cs.take(k), cs[k]);
}

pub proof fn lemma_absent_model(m: LayoutModel, new: PaneId, src: PaneId, dir: Direction)
    requires
        !ids(m).contains(src),
    ensures
        split_model(m, new, src, dir) == m,
    decreases m, 1nat,
{
    match m {
        LayoutModel::Pane(p) => {
            assert(ids(m)[0] == p);
            if p == src {
                assert(ids(m).contains(src));
            }
        },
        LayoutModel::Split(d, cs) => {
            lemma_first_pane_bound(cs, src);
            if first_pane(cs, src) >= 0 {
                let k = first_pane(cs, src);
                lemma_ids_at(cs, k);
                let pre = ids_seq(cs.take(k));
                assert(ids(cs[k]) =~= seq![src]);
                assert(ids(m)[pre.len() as int] == src);
                assert(ids(m).contains(src));
            }
            lemma_absent_seq(cs, new, src, dir);
        },
    }
}

pub proof fn lemma_absent_seq(cs: Seq<LayoutModel>, new: PaneId, src: PaneId, dir: Direction)
    requires
        !ids_seq(cs).contains(src),
    ensures
        split_seq(cs, new, src, dir) == cs,
    decreases cs, 0nat,
{
    if cs.len() > 0 {
        let a = cs.drop_last();
        let l = cs.last();
        assert forall|x: int| 0 <= x < ids_seq(a).len() implies ids_seq(a)[x] != src by {
            assert(ids_seq(cs)[x] == ids_seq(a)[x]);
        }
        assert forall|x: int| 0 <= x < ids(l).len() implies ids(l)[x] != src by {
            assert(ids_seq(cs)[ids_seq(a).len() + x] == ids(l)[x]);
        }
        lemma_absent_seq(a, new, src, dir);
        lemma_absent_model(l, new, src, dir);
        assert(split_seq(cs, new, src, dir) =~= cs);
    }
}

pub proof fn lemma_unique_model(m: LayoutModel, new: PaneId, src: PaneId, dir: Direction, i: int)
    requires
        unique_at(ids(m), i, src),
    ensures
        ids(split_model(m, new, src, dir)) == ids(m).insert(i + 1, new),
    decreases m, 1nat,
{
    match m {
        LayoutModel::Pane(p) => {
            let two = seq![LayoutModel::Pane(p), LayoutModel::Pane(new)];
            assert(seq![LayoutModel::Pane(p)].push(LayoutModel::Pane(new)) =~= two);
            lemma_ids_seq_one(LayoutModel::Pane(p));
            lemma_ids_seq_push(seq![LayoutModel::Pane(p)], LayoutModel::Pane(new));
            assert(ids(LayoutModel::Pane(p)) =~= seq![p]);
            assert(ids(LayoutModel::Pane(new)) =~= seq![new]);
            assert(ids_seq(two) =~= seq![p, new]);
            assert(seq![p].insert(1, new) =~= seq![p, new]);
        },
        LayoutModel::Split(d, cs) => {
            lemma_first_pane_bound(cs, src);
            if d == dir && first_pane(cs, src) >= 0 {
                let k = first_pane(cs, src);
                let cs2 = cs.insert(k + 1, LayoutModel::Pane(new));
                assert(cs.take(k + 1) + cs.skip(k + 1) =~= cs);
                assert(cs2 =~= cs.take(k + 1) + (seq![LayoutModel::Pane(new)] + cs.skip(k + 1)));
                lemma_ids_seq_append(cs.take(k + 1), cs.skip(k + 1));
                lemma_ids_seq_append(cs.take(k + 1), seq![LayoutModel::Pane(new)] + cs.skip(k + 1));
                lemma_ids_seq_append(seq![LayoutModel::Pane(new)], cs.skip(k + 1));
                lemma_ids_seq_one(LayoutModel::Pane(new));
                assert(ids(LayoutModel::Pane(new)) =~= seq![new]);
                lemma_ids_at(cs, k);
                assert(cs.take(k).push(cs[k]) =~= cs.take(k + 1));
                lemma_ids_seq_push(cs.take(k), cs[k]);
                let pre = ids_seq(cs.take(k));
                assert(ids(cs[k]) =~= seq![src]);
                assert(ids(m)[pre.len() as int] == src);
                assert(i == pre.len());
                assert(ids(split_model(m, new, src, dir)) =~= ids(m).insert(i + 1, new));
            } else {
                lemma_unique_seq(cs, new, src, dir, i);
            }
        },
    }
}

pub proof fn lemma_unique_seq(cs: Seq<LayoutModel>, new: PaneId, src: PaneId, dir: Direction, i: int)
    requires
        unique_at(ids_seq(cs), i, src),
    ensures
        ids_seq(split_seq(cs, new, src, dir)) == ids_seq(cs).insert(i + 1, new),
    decreases cs, 0nat,
{
    let a = cs.drop_last();
    let l = cs.last();
    let ia = ids_seq(a);
    let il = ids(l);
    assert(ids_seq(cs) == ia + il);
    if i < ia.len() {
        assert forall|x: int| 0 <= x < il.len() implies il[x] != src by {
            assert(ids_seq(cs)[ia.len() + x] == il[x]);
        }
        assert forall|x: int| 0 <= x < ia.len() && x != i implies ia[x] != src by {
            assert(ids_seq(cs)[x] == ia[x]);
        }
        assert(ia[i] == ids_seq(cs)[i]);
        lemma_unique_seq(a, new, src, dir, i);
        lemma_absent_model(l, new, src, dir);
        lemma_ids_seq_push(split_seq(a, new, src, dir), split_model(l, new, src, dir));
        assert(ids_seq(split_seq(cs, new, src, dir)) =~= ids_seq(cs).insert(i + 1, new));
    } else {
        assert forall|x: int| 0 <= x < ia.len() implies ia[x] != src by {
            assert(ids_seq(cs)[x] == ia[x]);
        }
        let j = i - ia.len();
        assert forall|x: int| 0 <= x < il.len() && x != j implies il[x] != src by {
            assert(ids_seq(cs)[ia.len() + x] == il[x]);
        }
        assert(il[j] == ids_seq(cs)[i]);
        lemma_absent_seq(a, new, src, dir);
        lemma_unique_model(l, new, src, dir, j);
        lemma_ids_seq_push(split_seq(a, new, src, dir), split_model(l, new, src, dir));
        assert(ids_seq(split_seq(cs, new, src, dir)) =~= ids_seq(cs).insert(i + 1, new));
    }
}

/// Splitting a layout that shows pane `src` once, at position `i`, adds pane
/// `new` right after it and keeps the other panes in their order.
pub proof fn law_split_adds_after_source(m: LayoutModel, new: PaneId, src: PaneId, dir: Direction, i: int)
    requires
        unique_at(ids(m), i, src),
    ensures
        ids(split_model(m, new, src, dir)) == ids(m).insert(i + 1, new),
{
    lemma_unique_model(m, new, src, dir, i);
}

/// Splitting at a pane that the layout does not show changes nothing.
pub proof fn law_split_without_source(m: LayoutModel, new: PaneId, src: PaneId, dir: Direction)
    requires
        !ids(m).contains(src),
    ensures
        split_model(m, new, src, dir) == m,
{
    lemma_absent_model(m, new, src, dir);
}

} // verus!
