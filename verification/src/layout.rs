//! The layout side table and the constraint-propagation pass.
//!
//! `LayoutDom` holds, per node identifier, the node's last-computed size,
//! its position relative to its parent's content origin, and a dirty flag.
//! One top-down, depth-first pass (`layout_all`) walks the reconciled tree:
//! each widget derives its children's constraints from its own, the
//! children are sized recursively, and the widget's own size is clamped
//! into its incoming constraints at the call boundary — an untrusted
//! widget's size is never trusted unclamped. A node the pass does not
//! visit keeps its stale size and position and stays flagged dirty.
//!
//! The pass carries an explicit recursion budget; `layout_all` grants one
//! level per arena slot, which no well-formed tree can exhaust. A node
//! met with no budget left, like a dangling child identifier, is sized as
//! an empty extent clamped into its constraints.

use vstd::prelude::*;
use crate::arena::Id;
use crate::dom::{Dom, Node, NodeId};
use crate::geometry::{Constraints, Extent2};
use crate::widget::{FixedWidget, ListProps, ListWidget, PadWidget, WidgetInstance};

verus! {

/// Per-node layout record: computed size, offset relative to the parent's
/// content origin (never absolute coordinates), and whether the entry is
/// stale (not refreshed by the latest pass).
#[derive(Clone, Copy, PartialEq, Eq, Structural, Debug)]
pub struct LayoutNode {
    pub size: Extent2,
    pub pos: Extent2,
    pub dirty: bool,
}

#[derive(Clone, Copy)]
struct LayoutEntry {
    id: Id,
    node: LayoutNode,
}

/// The side table of layout records, keyed by node identifier and owned
/// exclusively by the layout pass; tree code never aliases it.
pub struct LayoutDom {
    entries: Vec<Option<LayoutEntry>>,
}

impl View for LayoutDom {
    type V = Map<Id, LayoutNode>;

    closed spec fn view(&self) -> Map<Id, LayoutNode> {
        Map::new(
            |id: Id|
                id.index < self.entries@.len() && self.entries@[id.index as int] is Some
                    && self.entries@[id.index as int]->0.id == id,
            |id: Id| self.entries@[id.index as int]->0.node,
        )
    }
}

/// The constraints a widget hands each child it sizes, derived from its own
/// incoming constraints: padding subtracts its overhead from both bounds,
/// a stack lets children take anything up to its own maximum, and a leaf
/// sizes no children.
pub open spec fn spec_child_constraints(w: WidgetInstance, c: Constraints) -> Constraints {
    match w {
        WidgetInstance::Pad(pw) => Constraints {
            min: c.min.spec_sub_sat(pw.props.spec_total()),
            max: c.max.spec_sub_sat(pw.props.spec_total()),
        },
        WidgetInstance::List(_) => Constraints { min: Extent2::spec_zero(), max: c.max },
        WidgetInstance::Fixed(_) => c,
    }
}

/// One stacking step: extend the accumulated extent `prev` by a child of
/// size `s`, inserting the configured spacing before every child but the
/// first; the cross axis takes the maximum.
pub open spec fn spec_stack_step(prev: Extent2, s: Extent2, props: ListProps, first: bool) -> Extent2 {
    let gap: u32 = if first {
        0
    } else {
        props.spacing
    };
    if props.vertical {
        Extent2 {
            x: if prev.x >= s.x { prev.x } else { s.x },
            y: crate::geometry::sat_add(crate::geometry::sat_add(prev.y, gap), s.y),
        }
    } else {
        Extent2 {
            x: crate::geometry::sat_add(crate::geometry::sat_add(prev.x, gap), s.x),
            y: if prev.y >= s.y { prev.y } else { s.y },
        }
    }
}

/// The unclamped extent of a stack's first `k` children.
pub open spec fn spec_list_acc(
    nodes: Map<Id, Node>,
    widgets: Map<Id, WidgetInstance>,
    children: Seq<Id>,
    k: int,
    cc: Constraints,
    fuel: nat,
    props: ListProps,
) -> Extent2
    decreases fuel, 1int, k,
{
    if k <= 0 {
        Extent2::spec_zero()
    } else {
        let prev = spec_list_acc(nodes, widgets, children, k - 1, cc, fuel, props);
        let s = spec_size(nodes, widgets, children[k - 1], cc, fuel);
        spec_stack_step(prev, s, props, k - 1 == 0)
    }
}

/// The main-axis offset at which a stack places its `k`-th child.
pub open spec fn spec_list_offset(
    nodes: Map<Id, Node>,
    widgets: Map<Id, WidgetInstance>,
    children: Seq<Id>,
    k: int,
    cc: Constraints,
    fuel: nat,
    props: ListProps,
) -> u32
    decreases fuel, 1int, k,
{
    if k <= 0 {
        0
    } else {
        let prev = spec_list_offset(nodes, widgets, children, k - 1, cc, fuel, props);
        let s = spec_size(nodes, widgets, children[k - 1], cc, fuel);
        crate::geometry::sat_add(
            crate::geometry::sat_add(prev, if props.vertical { s.y } else { s.x }),
            props.spacing,
        )
    }
}

/// The size the layout pass computes for `id` under constraints `c` with
/// the given recursion budget: a leaf's intrinsic size, a padded child's
/// size plus the padding overhead, or the stacked extent of a container's
/// children — in every case clamped into `c` at the boundary.
pub open spec fn spec_size(
    nodes: Map<Id, Node>,
    widgets: Map<Id, WidgetInstance>,
    id: Id,
    c: Constraints,
    fuel: nat,
) -> Extent2
    decreases fuel, 0int, 0int,
{
    if fuel == 0 || !nodes.dom().contains(id) || !widgets.dom().contains(nodes[id].widget) {
        c.spec_constrain(Extent2::spec_zero())
    } else {
        let w = widgets[nodes[id].widget];
        let cc = spec_child_constraints(w, c);
        let children = nodes[id].children@;
        match w {
            WidgetInstance::Fixed(fw) => c.spec_constrain(fw.props.size),
            WidgetInstance::Pad(pw) => {
                if children.len() == 0 {
                    c.spec_constrain(Extent2::spec_zero())
                } else {
                    c.spec_constrain(
                        spec_size(
                            nodes,
                            widgets,
                            children.last(),
                            cc,
                            (fuel - 1) as nat,
                        ).spec_add_sat(pw.props.spec_total()),
                    )
                }
            },
            WidgetInstance::List(lw) => c.spec_constrain(
                spec_list_acc(
                    nodes,
                    widgets,
                    children,
                    children.len() as int,
                    cc,
                    (fuel - 1) as nat,
                    lw.props,
                ),
            ),
        }
    }
}

/// Constraint satisfaction: for any tree, any widgets, any recursion
/// budget, and any well-formed constraints, the size the layout pass
/// computes lies within the constraints' minimum and maximum bounds,
/// component-wise — clamping at the call boundary guarantees it whatever a
/// widget asked for.
pub proof fn lemma_spec_size_fits(
    nodes: Map<Id, Node>,
    widgets: Map<Id, WidgetInstance>,
    id: Id,
    c: Constraints,
    fuel: nat,
)
    requires
        c.wf(),
    ensures
        c.fits(spec_size(nodes, widgets, id, c, fuel)),
{
}

/// Where a widget places its `j`-th child, relative to its own content
/// origin.
pub open spec fn spec_child_pos(
    nodes: Map<Id, Node>,
    widgets: Map<Id, WidgetInstance>,
    w: WidgetInstance,
    children: Seq<Id>,
    j: int,
    cc: Constraints,
    fuel: nat,
) -> Extent2 {
    match w {
        WidgetInstance::Pad(pw) => pw.props.spec_offset(),
        WidgetInstance::List(lw) => {
            let off = spec_list_offset(nodes, widgets, children, j, cc, fuel, lw.props);
            if lw.props.vertical {
                Extent2 { x: 0, y: off }
            } else {
                Extent2 { x: off, y: 0 }
            }
        },
        WidgetInstance::Fixed(_) => Extent2::spec_zero(),
    }
}

impl LayoutDom {
    /// An empty table.
    pub fn new() -> (r: LayoutDom)
        ensures
            r@ == Map::<Id, LayoutNode>::empty(),
    {
        let r = LayoutDom { entries: Vec::new() };
        proof {
            assert(r@ =~= Map::<Id, LayoutNode>::empty());
        }
        r
    }

    /// The record for `id`, if the pass ever produced one that was not
    /// displaced by a reused slot.
    pub fn get(&self, id: NodeId) -> (r: Option<LayoutNode>)
        ensures
            match r {
                Some(ln) => self@.dom().contains(id) && ln == self@[id],
                None => !self@.dom().contains(id),
            },
    {
        if id.index < self.entries.len() {
            match &self.entries[id.index] {
                Some(e) => {
                    if e.id.index == id.index && e.id.generation == id.generation {
                        Some(e.node)
                    } else {
                        None
                    }
                },
                None => None,
            }
        } else {
            None
        }
    }

    /// Write the whole record for `id`. A record previously stored for
    /// another generation of the same slot is displaced.
    fn set_entry(&mut self, id: NodeId, node: LayoutNode)
        ensures
            final(self)@.dom().contains(id),
            final(self)@[id] == node,
            forall|k: Id|
                k.index != id.index ==> ((#[trigger] final(self)@.dom().contains(k)) == old(
                    self,
                )@.dom().contains(k) && (old(self)@.dom().contains(k) ==> final(self)@[k] == old(
                    self,
                )@[k])),
            forall|k: Id| k != id && k.index == id.index ==> !final(self)@.dom().contains(k),
    {
        while self.entries.len() <= id.index
            invariant
                self@ == old(self)@,
                self.entries@.len() >= old(self).entries@.len(),
                forall|t: int|
                    #![trigger self.entries@[t]]
                    0 <= t < self.entries@.len() ==> (if t < old(self).entries@.len() {
                        self.entries@[t] == old(self).entries@[t]
                    } else {
                        self.entries@[t] is None
                    }),
            decreases id.index + 1 - self.entries@.len(),
        {
            self.entries.push(None);
            proof {
                assert(self@ =~= old(self)@);
            }
        }
        self.entries.set(id.index, Some(LayoutEntry { id, node }));
        proof {
            assert(self@.dom().contains(id));
        }
    }

    /// Update only the position of `id`'s record; a missing record is
    /// created with an empty size. Positions are always parent-relative.
    pub fn set_pos(&mut self, id: NodeId, pos: Extent2)
        ensures
            final(self)@.dom().contains(id),
            final(self)@[id].pos == pos,
            final(self)@[id].size == (if old(self)@.dom().contains(id) {
                old(self)@[id].size
            } else {
                Extent2::spec_zero()
            }),
            final(self)@[id].dirty == (if old(self)@.dom().contains(id) {
                old(self)@[id].dirty
            } else {
                false
            }),
            forall|k: Id|
                k.index != id.index ==> ((#[trigger] final(self)@.dom().contains(k)) == old(
                    self,
                )@.dom().contains(k) && (old(self)@.dom().contains(k) ==> final(self)@[k] == old(
                    self,
                )@[k])),
            forall|k: Id| k != id && k.index == id.index ==> !final(self)@.dom().contains(k),
    {
        let current = self.get(id);
        let node = match current {
            Some(ln) => LayoutNode { size: ln.size, pos, dirty: ln.dirty },
            None => LayoutNode { size: Extent2::zero(), pos, dirty: false },
        };
        self.set_entry(id, node);
    }

    /// Refresh the size of `id`'s record and clear its dirty flag, keeping
    /// whatever position the parent last assigned.
    fn set_size_keep_pos(&mut self, id: NodeId, size: Extent2)
        ensures
            final(self)@.dom().contains(id),
            final(self)@[id].size == size,
            !final(self)@[id].dirty,
            final(self)@[id].pos == (if old(self)@.dom().contains(id) {
                old(self)@[id].pos
            } else {
                Extent2::spec_zero()
            }),
            forall|k: Id|
                k.index != id.index ==> ((#[trigger] final(self)@.dom().contains(k)) == old(
                    self,
                )@.dom().contains(k) && (old(self)@.dom().contains(k) ==> final(self)@[k] == old(
                    self,
                )@[k])),
            forall|k: Id| k != id && k.index == id.index ==> !final(self)@.dom().contains(k),
    {
        let current = self.get(id);
        let node = match current {
            Some(ln) => LayoutNode { size, pos: ln.pos, dirty: false },
            None => LayoutNode { size, pos: Extent2::zero(), dirty: false },
        };
        self.set_entry(id, node);
    }

    /// Flag every record stale; the pass then clears the flag on exactly
    /// the nodes it visits, so anything still flagged kept prior-pass data.
    fn mark_all_dirty(&mut self)
        ensures
            final(self)@.dom() == old(self)@.dom(),
            forall|k: Id|
                #[trigger] old(self)@.dom().contains(k) ==> final(self)@[k] == (LayoutNode {
                    size: old(self)@[k].size,
                    pos: old(self)@[k].pos,
                    dirty: true,
                }),
    {
        let total = self.entries.len();
        let mut i: usize = 0;
        while i < total
            invariant
                i <= total,
                total == self.entries@.len(),
                self.entries@.len() == old(self).entries@.len(),
                forall|t: int|
                    i <= t < total ==> self.entries@[t] == old(self).entries@[t],
                forall|t: int|
                    #![trigger self.entries@[t]]
                    0 <= t < i ==> match old(self).entries@[t] {
                        Some(e) => self.entries@[t] == Some(
                            LayoutEntry {
                                id: e.id,
                                node: LayoutNode { size: e.node.size, pos: e.node.pos, dirty: true },
                            },
                        ),
                        None => self.entries@[t] is None,
                    },
            decreases total - i,
        {
            match &self.entries[i] {
                Some(e) => {
                    let refreshed = LayoutEntry {
                        id: e.id,
                        node: LayoutNode { size: e.node.size, pos: e.node.pos, dirty: true },
                    };
                    self.entries.set(i, Some(refreshed));
                },
                None => {},
            }
            i = i + 1;
        }
        proof {
            assert(self@.dom() =~= old(self)@.dom());
        }
    }

    /// Size the subtree at `id` under constraints `c`, spending one budget
    /// level per tree level: the node's widget derives child constraints,
    /// sizes its children recursively, records their sizes and positions,
    /// and reports its own size, which is clamped into `c` at this
    /// boundary. The result is exactly `spec_size`, and for well-formed
    /// constraints it always fits them, whatever the widgets asked for.
    pub fn calculate(&mut self, dom: &Dom, id: NodeId, c: Constraints, fuel: u64) -> (r: Extent2)
        requires
            dom.wf(),
        ensures
            r == spec_size(dom.nodes_map(), dom.widgets_map(), id, c, fuel as nat),
            c.wf() ==> c.fits(r),
            fuel > 0 && dom.nodes_map().dom().contains(id) ==> final(self)@.dom().contains(id)
                && final(self)@[id].size == r && !final(self)@[id].dirty,
            !(fuel > 0 && dom.nodes_map().dom().contains(id)) ==> final(self)@ == old(self)@,
        decreases fuel, 1int,
    {
        if fuel == 0 {
            c.constrain(Extent2::zero())
        } else {
            match dom.node_ref(id) {
                None => c.constrain(Extent2::zero()),
                Some(node) => {
                    proof {
                        dom.lemma_wf_node_ok(id);
                    }
                    let w = match dom.widget_of(id) {
                        Some(w) => *w,
                        None => vstd::pervasive::unreached(),
                    };
                    match w {
                        WidgetInstance::Fixed(fw) => {
                            let r = fw.layout(c);
                            self.set_size_keep_pos(id, r);
                            r
                        },
                        WidgetInstance::Pad(pw) => {
                            let r = pw.layout(dom, id, node, self, c, fuel);
                            self.set_size_keep_pos(id, r);
                            r
                        },
                        WidgetInstance::List(lw) => {
                            let r = lw.layout(dom, id, node, self, c, fuel);
                            self.set_size_keep_pos(id, r);
                            r
                        },
                    }
                },
            }
        }
    }

    /// Lay the whole tree out against the host's viewport constraints:
    /// flag every record stale, size the root recursively with one budget
    /// level per arena slot, and pin the root at the origin. The root's
    /// size always lies within well-formed viewport constraints,
    /// component-wise.
    pub fn layout_all(&mut self, dom: &Dom, viewport: Constraints) -> (r: Extent2)
        requires
            dom.wf(),
        ensures
            r == spec_size(
                dom.nodes_map(),
                dom.widgets_map(),
                dom.root_id(),
                viewport,
                dom.node_slots(),
            ),
            viewport.wf() ==> viewport.fits(r),
            final(self)@.dom().contains(dom.root_id()),
            final(self)@[dom.root_id()].size == r,
            final(self)@[dom.root_id()].pos == Extent2::spec_zero(),
            !final(self)@[dom.root_id()].dirty,
    {
        self.mark_all_dirty();
        proof {
            dom.lemma_root_slot();
        }
        let fuel = dom.node_slot_count();
        let root = dom.root_node();
        let r = self.calculate(dom, root, viewport, fuel as u64);
        self.set_pos(root, Extent2::zero());
        r
    }
}

fn stack_step(prev: Extent2, s: Extent2, props: ListProps, first: bool) -> (r: Extent2)
    ensures
        r == spec_stack_step(prev, s, props, first),
{
    let gap: u32 = if first {
        0
    } else {
        props.spacing
    };
    if props.vertical {
        Extent2 {
            x: if prev.x >= s.x { prev.x } else { s.x },
            y: crate::geometry::sat_add_px(crate::geometry::sat_add_px(prev.y, gap), s.y),
        }
    } else {
        Extent2 {
            x: crate::geometry::sat_add_px(crate::geometry::sat_add_px(prev.x, gap), s.x),
            y: if prev.y >= s.y { prev.y } else { s.y },
        }
    }
}

impl FixedWidget {
    /// A leaf's layout: no children are sized; the intrinsic content size
    /// is clamped into the incoming constraints.
    pub fn layout(&self, input: Constraints) -> (r: Extent2)
        ensures
            r == input.spec_constrain(self.props.size),
            input.wf() ==> input.fits(r),
    {
        input.constrain(self.props.size)
    }
}

impl PadWidget {
    /// The padding widget's layout: every child gets the incoming
    /// constraints less the padding overhead, sits at the padding offset,
    /// and the widget takes its last child's size plus the overhead (an
    /// empty extent with no children), clamped into the incoming
    /// constraints.
    #[verifier::rlimit(100)]
    pub fn layout(
        &self,
        dom: &Dom,
        id: NodeId,
        node: &Node,
        layout: &mut LayoutDom,
        input: Constraints,
        fuel: u64,
    ) -> (r: Extent2)
        requires
            dom.wf(),
            fuel >= 1,
            dom.nodes_map().dom().contains(id),
            *node == dom.nodes_map()[id],
            dom.widgets_map().dom().contains(node.widget),
            dom.widgets_map()[node.widget] == WidgetInstance::Pad(*self),
        ensures
            r == spec_size(dom.nodes_map(), dom.widgets_map(), id, input, fuel as nat),
            input.wf() ==> input.fits(r),
            forall|j: int|
                0 <= j < node.children@.len() && dom.nodes_map().dom().contains(
                    #[trigger] node.children@[j],
                ) ==> final(layout)@.dom().contains(node.children@[j]) && final(layout)@[node
                    .children@[j]] == (LayoutNode {
                    size: spec_size(
                        dom.nodes_map(),
                        dom.widgets_map(),
                        node.children@[j],
                        spec_child_constraints(WidgetInstance::Pad(*self), input),
                        (fuel - 1) as nat,
                    ),
                    pos: self.props.spec_offset(),
                    dirty: false,
                }),
        decreases fuel, 0int,
    {
        proof {
            dom.lemma_wf_node_ok(id);
            dom.lemma_node_index_injective();
        }
        let total = self.props.total();
        let offset = self.props.offset();
        let child_constraints = Constraints {
            min: input.min.sub_sat(total),
            max: input.max.sub_sat(total),
        };
        let ghost cc = spec_child_constraints(WidgetInstance::Pad(*self), input);
        let ghost f1 = (fuel - 1) as nat;
        let mut sizes: Vec<Extent2> = Vec::new();
        let mut j: usize = 0;
        while j < node.children.len()
            invariant
                dom.wf(),
                fuel >= 1,
                child_constraints == cc,
                cc == spec_child_constraints(WidgetInstance::Pad(*self), input),
                f1 == (fuel - 1) as nat,
                j <= node.children@.len(),
                sizes@.len() == j,
                forall|t: int|
                    0 <= t < j ==> #[trigger] sizes@[t] == spec_size(
                        dom.nodes_map(),
                        dom.widgets_map(),
                        node.children@[t],
                        cc,
                        f1,
                    ),
            decreases node.children@.len() - j,
        {
            let child = node.children[j];
            let s = layout.calculate(dom, child, child_constraints, fuel - 1);
            sizes.push(s);
            j = j + 1;
        }
        let mut k: usize = 0;
        while k < node.children.len()
            invariant
                dom.wf(),
                dom.nodes_map().dom().contains(id),
                *node == dom.nodes_map()[id],
                dom.node_ok(id),
                k <= node.children@.len(),
                sizes@.len() == node.children@.len(),
                forall|t: int|
                    0 <= t < node.children@.len() ==> #[trigger] sizes@[t] == spec_size(
                        dom.nodes_map(),
                        dom.widgets_map(),
                        node.children@[t],
                        cc,
                        f1,
                    ),
                offset == self.props.spec_offset(),
                forall|a: Id, b: Id|
                    #![trigger dom.nodes_map().dom().contains(a), dom.nodes_map().dom().contains(b)]
                    dom.nodes_map().dom().contains(a) && dom.nodes_map().dom().contains(b) && a
                        != b ==> a.index != b.index,
                forall|t: int|
                    0 <= t < k && dom.nodes_map().dom().contains(
                        #[trigger] node.children@[t],
                    ) ==> layout@.dom().contains(node.children@[t]) && layout@[node.children@[t]]
                        == (LayoutNode { size: sizes@[t], pos: self.props.spec_offset(), dirty: false }),
            decreases node.children@.len() - k,
        {
            let child = node.children[k];
            if dom.contains(child) {
                let s = sizes[k];
                layout.set_entry(child, LayoutNode { size: s, pos: offset, dirty: false });
                proof {
                    assert forall|t: int|
                        0 <= t < k && dom.nodes_map().dom().contains(
                            #[trigger] node.children@[t],
                        ) implies layout@.dom().contains(node.children@[t]) by {
                        let ch = dom.nodes_map()[id].children@;
                        assert(ch == node.children@);
                        assert(ch[t] != ch[k as int]);
                        assert(ch[t].index != ch[k as int].index);
                    }
                    assert forall|t: int|
                        0 <= t < k && dom.nodes_map().dom().contains(
                            #[trigger] node.children@[t],
                        ) implies layout@[node.children@[t]] == (LayoutNode {
                        size: sizes@[t],
                        pos: self.props.spec_offset(),
                        dirty: false,
                    }) by {
                        let ch = dom.nodes_map()[id].children@;
                        assert(ch == node.children@);
                        assert(ch[t] != ch[k as int]);
                        assert(ch[t].index != ch[k as int].index);
                    }
                }
            }
            k = k + 1;
        }
        let n = node.children.len();
        let self_size = if n > 0 {
            sizes[n - 1].add_sat(total)
        } else {
            Extent2::zero()
        };
        input.constrain(self_size)
    }
}

impl ListWidget {
    /// The stacking widget's layout: children may take anything up to the
    /// incoming maximum, are placed one after another along the configured
    /// axis with the configured spacing, and the widget takes the stacked
    /// extent — main-axis sum plus spacing, cross-axis maximum — clamped
    /// into the incoming constraints.
    #[verifier::rlimit(100)]
    pub fn layout(
        &self,
        dom: &Dom,
        id: NodeId,
        node: &Node,
        layout: &mut LayoutDom,
        input: Constraints,
        fuel: u64,
    ) -> (r: Extent2)
        requires
            dom.wf(),
            fuel >= 1,
            dom.nodes_map().dom().contains(id),
            *node == dom.nodes_map()[id],
            dom.widgets_map().dom().contains(node.widget),
            dom.widgets_map()[node.widget] == WidgetInstance::List(*self),
        ensures
            r == spec_size(dom.nodes_map(), dom.widgets_map(), id, input, fuel as nat),
            input.wf() ==> input.fits(r),
            forall|j: int|
                0 <= j < node.children@.len() && dom.nodes_map().dom().contains(
                    #[trigger] node.children@[j],
                ) ==> final(layout)@.dom().contains(node.children@[j]) && final(layout)@[node
                    .children@[j]] == (LayoutNode {
                    size: spec_size(
                        dom.nodes_map(),
                        dom.widgets_map(),
                        node.children@[j],
                        spec_child_constraints(WidgetInstance::List(*self), input),
                        (fuel - 1) as nat,
                    ),
                    pos: spec_child_pos(
                        dom.nodes_map(),
                        dom.widgets_map(),
                        WidgetInstance::List(*self),
                        node.children@,
                        j,
                        spec_child_constraints(WidgetInstance::List(*self), input),
                        (fuel - 1) as nat,
                    ),
                    dirty: false,
                }),
        decreases fuel, 0int,
    {
        proof {
            dom.lemma_wf_node_ok(id);
            dom.lemma_node_index_injective();
        }
        let child_constraints = Constraints { min: Extent2::zero(), max: input.max };
        let ghost cc = spec_child_constraints(WidgetInstance::List(*self), input);
        let ghost f1 = (fuel - 1) as nat;
        let mut sizes: Vec<Extent2> = Vec::new();
        let mut j: usize = 0;
        while j < node.children.len()
            invariant
                dom.wf(),
                fuel >= 1,
                child_constraints == cc,
                cc == spec_child_constraints(WidgetInstance::List(*self), input),
                f1 == (fuel - 1) as nat,
                j <= node.children@.len(),
                sizes@.len() == j,
                forall|t: int|
                    0 <= t < j ==> #[trigger] sizes@[t] == spec_size(
                        dom.nodes_map(),
                        dom.widgets_map(),
                        node.children@[t],
                        cc,
                        f1,
                    ),
            decreases node.children@.len() - j,
        {
            let child = node.children[j];
            let s = layout.calculate(dom, child, child_constraints, fuel - 1);
            sizes.push(s);
            j = j + 1;
        }
        let mut acc = Extent2::zero();
        let mut off: u32 = 0;
        let mut k: usize = 0;
        while k < node.children.len()
            invariant
                dom.wf(),
                dom.nodes_map().dom().contains(id),
                *node == dom.nodes_map()[id],
                dom.node_ok(id),
                k <= node.children@.len(),
                sizes@.len() == node.children@.len(),
                cc == spec_child_constraints(WidgetInstance::List(*self), input),
                forall|t: int|
                    0 <= t < node.children@.len() ==> #[trigger] sizes@[t] == spec_size(
                        dom.nodes_map(),
                        dom.widgets_map(),
                        node.children@[t],
                        cc,
                        f1,
                    ),
                acc == spec_list_acc(
                    dom.nodes_map(),
                    dom.widgets_map(),
                    node.children@,
                    k as int,
                    cc,
                    f1,
                    self.props,
                ),
                off == spec_list_offset(
                    dom.nodes_map(),
                    dom.widgets_map(),
                    node.children@,
                    k as int,
                    cc,
                    f1,
                    self.props,
                ),
                forall|a: Id, b: Id|
                    #![trigger dom.nodes_map().dom().contains(a), dom.nodes_map().dom().contains(b)]
                    dom.nodes_map().dom().contains(a) && dom.nodes_map().dom().contains(b) && a
                        != b ==> a.index != b.index,
                forall|t: int|
                    0 <= t < k && dom.nodes_map().dom().contains(
                        #[trigger] node.children@[t],
                    ) ==> layout@.dom().contains(node.children@[t]) && layout@[node.children@[t]]
                        == (LayoutNode {
                        size: sizes@[t],
                        pos: spec_child_pos(
                            dom.nodes_map(),
                            dom.widgets_map(),
                            WidgetInstance::List(*self),
                            node.children@,
                            t,
                            cc,
                            f1,
                        ),
                        dirty: false,
                    }),
            decreases node.children@.len() - k,
        {
            let child = node.children[k];
            let s = sizes[k];
            let pos = if self.props.vertical {
                Extent2::new(0, off)
            } else {
                Extent2::new(off, 0)
            };
            if dom.contains(child) {
                layout.set_entry(child, LayoutNode { size: s, pos, dirty: false });
                proof {
                    assert forall|t: int|
                        0 <= t < k && dom.nodes_map().dom().contains(
                            #[trigger] node.children@[t],
                        ) implies layout@.dom().contains(node.children@[t]) by {
                        let ch = dom.nodes_map()[id].children@;
                        assert(ch == node.children@);
                        assert(ch[t] != ch[k as int]);
                        assert(ch[t].index != ch[k as int].index);
                    }
                    assert forall|t: int|
                        0 <= t < k && dom.nodes_map().dom().contains(
                            #[trigger] node.children@[t],
                        ) implies layout@[node.children@[t]] == (LayoutNode {
                        size: sizes@[t],
                        pos: spec_child_pos(
                            dom.nodes_map(),
                            dom.widgets_map(),
                            WidgetInstance::List(*self),
                            node.children@,
                            t,
                            cc,
                            f1,
                        ),
                        dirty: false,
                    }) by {
                        let ch = dom.nodes_map()[id].children@;
                        assert(ch == node.children@);
                        assert(ch[t] != ch[k as int]);
                        assert(ch[t].index != ch[k as int].index);
                    }
                }
            }
            acc = stack_step(acc, s, self.props, k == 0);
            off = crate::geometry::sat_add_px(
                crate::geometry::sat_add_px(off, if self.props.vertical { s.y } else { s.x }),
                self.props.spacing,
            );
            k = k + 1;
        }
        input.constrain(acc)
    }
}

} // verus!
