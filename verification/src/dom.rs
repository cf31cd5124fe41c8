//! The persistent widget tree and its per-frame reconciliation.
//!
//! Application code rebuilds the call tree every frame: `start` opens the
//! frame, each widget call funnels through `enter` (with `exit` closing its
//! nesting level), and `finish` sweeps every node the frame did not revisit.
//! `enter` matches the call positionally against the cursor's prior-frame
//! child: same position and same variant means the node and its widget
//! instance are reused (identity is stable); anything else destroys the
//! stale occupant and creates a fresh node under a never-before-issued
//! identifier.

use vstd::prelude::*;
use crate::arena::{Arena, Id};
use crate::widget::{Response, Variant, WidgetInstance, WidgetProps};

verus! {

/// A stable identifier for a tree position held across frames.
pub type NodeId = Id;

/// The tree-structural record of one widget call's node.
pub struct Node {
    /// Ordered child identifiers. Entries below `next_child` were committed
    /// by the current frame; entries at and beyond it are the prior frame's
    /// tail, kept so the next calls can reuse them positionally.
    pub children: Vec<NodeId>,
    /// Weak back-reference to the parent: lookup-only, never owning.
    pub parent: Option<NodeId>,
    /// The widget-instance storage slot this node's behavior lives in.
    pub widget: Id,
    /// How many children the current frame has committed at this node.
    pub next_child: usize,
    /// The frame that last visited this node; the sweep removes every node
    /// whose stamp lags the just-completed frame.
    pub stamp: u64,
}

/// Whether `id` lies in the subtree under `anc`, following child lists for
/// at most `fuel` steps: `anc` itself, or inside the subtree of one of
/// `anc`'s children.
pub open spec fn spec_in_subtree(nodes: Map<Id, Node>, anc: Id, id: Id, fuel: nat) -> bool
    decreases fuel,
{
    id == anc || (fuel > 0 && nodes.dom().contains(anc) && exists|j: int|
        0 <= j < nodes[anc].children@.len() && spec_in_subtree(
            nodes,
            nodes[anc].children@[j],
            id,
            (fuel - 1) as nat,
        ))
}

/// Whether `id` is `anc` itself or one of its descendants, at any depth.
pub open spec fn spec_descendant(nodes: Map<Id, Node>, anc: Id, id: Id) -> bool {
    exists|fuel: nat| spec_in_subtree(nodes, anc, id, fuel)
}

/// The persistent widget tree plus the traversal cursor of the frame under
/// construction.
pub struct Dom {
    nodes: Arena<Node>,
    widgets: Arena<WidgetInstance>,
    root: Id,
    stack: Vec<Id>,
    frame: u64,
    in_frame: bool,
}

impl Dom {
    /// The live tree: every node reachable by identifier.
    pub closed spec fn nodes_map(&self) -> Map<Id, Node> {
        self.nodes@
    }

    /// The live widget instances, keyed by their storage slot.
    pub closed spec fn widgets_map(&self) -> Map<Id, WidgetInstance> {
        self.widgets@
    }

    /// Every node identifier this tree ever issued.
    pub closed spec fn issued(&self) -> Set<Id> {
        self.nodes.issued_ids()
    }

    /// Every widget-instance identifier the widget arena ever issued.
    closed spec fn widget_issued(&self) -> Set<Id> {
        self.widgets.issued_ids()
    }

    pub closed spec fn root_id(&self) -> Id {
        self.root
    }

    /// The stack of nodes entered and not yet exited; its last element is
    /// the cursor new calls attach to.
    pub closed spec fn cursor_stack(&self) -> Seq<Id> {
        self.stack@
    }

    pub closed spec fn frame_count(&self) -> u64 {
        self.frame
    }

    /// Whether a frame is open (`start` called, `finish` not yet).
    pub closed spec fn frame_active(&self) -> bool {
        self.in_frame
    }

    /// Slots the node arena holds; an upper bound on live node count and a
    /// sufficient recursion budget for any walk of a well-formed tree.
    pub closed spec fn node_slots(&self) -> nat {
        self.nodes.spec_slot_count()
    }

    /// The node the next `enter` call attaches its child to.
    pub open spec fn cursor(&self) -> Id {
        self.cursor_stack().last()
    }

    /// The positional index the next `enter` call resolves at the cursor.
    pub open spec fn cursor_index(&self) -> int {
        self.nodes_map()[self.cursor()].next_child as int
    }

    /// Whether the cursor still has a prior-frame child at the next index.
    pub open spec fn has_prior_child(&self) -> bool {
        self.cursor_index() < self.nodes_map()[self.cursor()].children@.len()
    }

    /// The prior-frame child at the next index, when there is one.
    pub open spec fn prior_child(&self) -> Id {
        self.nodes_map()[self.cursor()].children@[self.cursor_index()]
    }

    /// Whether an `enter(props)` call reuses the prior-frame child: one
    /// exists at this position, is still live, and its widget's variant
    /// matches the requested one.
    pub open spec fn reuses(&self, props: WidgetProps) -> bool {
        &&& self.has_prior_child()
        &&& self.nodes_map().dom().contains(self.prior_child())
        &&& self.widgets_map()[self.nodes_map()[self.prior_child()].widget].spec_variant()
            == props.spec_variant()
    }

    /// Structural health of one node: its widget is live, its committed
    /// count never passes its child list, and its child list holds distinct
    /// identifiers that were issued by this tree and never name the node
    /// itself or the root.
    pub open spec fn node_ok(&self, id: Id) -> bool {
        let n = self.nodes_map()[id];
        &&& self.widgets_map().dom().contains(n.widget)
        &&& n.next_child <= n.children@.len()
        &&& forall|j: int|
            0 <= j < n.children@.len() ==> self.issued().contains(#[trigger] n.children@[j])
                && n.children@[j] != id && n.children@[j] != self.root_id()
        &&& forall|j1: int, j2: int|
            #![trigger n.children@[j1], n.children@[j2]]
            0 <= j1 < j2 < n.children@.len() ==> n.children@[j1] != n.children@[j2]
    }

    /// Every identifier occurs as a child at most once in the whole tree:
    /// two distinct child positions never name the same node.
    pub open spec fn child_positions_unique(&self) -> bool {
        forall|a: Id, b: Id, i: int, j: int|
            #![trigger self.nodes_map()[a].children@[i], self.nodes_map()[b].children@[j]]
            self.nodes_map().dom().contains(a) && self.nodes_map().dom().contains(b) && 0 <= i
                < self.nodes_map()[a].children@.len() && 0 <= j
                < self.nodes_map()[b].children@.len() && (a != b || i != j)
                ==> self.nodes_map()[a].children@[i] != self.nodes_map()[b].children@[j]
    }

    /// Each open nesting level sits at its parent's most recently committed
    /// child position.
    pub open spec fn cursor_chain(&self) -> bool {
        forall|k: int|
            0 <= k < self.cursor_stack().len() - 1 ==> self.nodes_map()[#[trigger] self
                .cursor_stack()[k]].next_child >= 1 && self.cursor_stack()[k + 1]
                == self.nodes_map()[self.cursor_stack()[k]].children@[self.nodes_map()[self
                .cursor_stack()[k]].next_child - 1]
    }

    /// The tree's global invariant.
    pub closed spec fn wf(&self) -> bool {
        &&& self.nodes.inv()
        &&& self.widgets.inv()
        &&& self.nodes@.dom().contains(self.root)
        &&& self.nodes@[self.root].parent is None
        &&& self.in_frame ==> self.stack@.len() >= 1 && self.stack@[0] == self.root
        &&& self.in_frame ==> forall|i: int|
            0 <= i < self.stack@.len() ==> self.nodes@.dom().contains(#[trigger] self.stack@[i])
        &&& self.in_frame ==> self.nodes@[self.root].stamp == self.frame
        &&& self.in_frame ==> self.cursor_chain()
        &&& self.in_frame ==> forall|k1: int, k2: int|
            #![trigger self.stack@[k1], self.stack@[k2]]
            0 <= k1 < k2 < self.stack@.len() ==> self.stack@[k1] != self.stack@[k2]
        &&& self.child_positions_unique()
        &&& forall|id: Id| #[trigger] self.nodes@.dom().contains(id) ==> self.node_ok(id)
        &&& forall|a: Id, b: Id|
            #![trigger self.nodes@[a].widget, self.nodes@[b].widget]
            self.nodes@.dom().contains(a) && self.nodes@.dom().contains(b) && a != b
                ==> self.nodes@[a].widget != self.nodes@[b].widget
    }

    /// The prior-frame child the next call would resolve — not yet
    /// committed this frame — is on no open nesting level: were it, it
    /// would sit at a committed position of some stack node, and child
    /// positions are unique.
    proof fn lemma_prior_child_not_on_stack(&self)
        requires
            self.wf(),
            self.frame_active(),
            self.has_prior_child(),
        ensures
            forall|m: int|
                0 <= m < self.cursor_stack().len() ==> #[trigger] self.cursor_stack()[m]
                    != self.prior_child(),
    {
        let p = self.cursor();
        let i = self.cursor_index();
        self.lemma_cursor_live();
        assert(self.node_ok(p));
        let cid = self.prior_child();
        assert forall|m: int| 0 <= m < self.stack@.len() implies #[trigger] self.stack@[m]
            != cid by {
            if self.stack@[m] == cid {
                if m == 0 {
                    assert(self.nodes_map()[p].children@[i] != self.root_id());
                } else {
                    let q = self.stack@[m - 1];
                    assert(self.nodes@.dom().contains(q));
                    assert(self.node_ok(q));
                    let nc = self.nodes_map()[q].next_child as int;
                    assert(self.stack@[m] == self.nodes_map()[q].children@[nc - 1]);
                    assert(self.nodes_map()[p].children@[i] == self.nodes_map()[q].children@[nc
                        - 1]);
                    assert(p == q && i == nc - 1);
                    assert(false);
                }
            }
        }
    }

    /// While a frame is open the cursor names a live node.
    pub proof fn lemma_cursor_live(&self)
        requires
            self.wf(),
            self.frame_active(),
        ensures
            self.nodes_map().dom().contains(self.cursor()),
            self.cursor_stack().len() >= 1,
    {
        assert(self.nodes@.dom().contains(self.stack@[self.stack@.len() - 1]));
    }

    /// A live node satisfies the structural health predicate.
    pub proof fn lemma_wf_node_ok(&self, id: Id)
        requires
            self.wf(),
            self.nodes_map().dom().contains(id),
        ensures
            self.node_ok(id),
    {
    }

    /// A child of a subtree member is a subtree member one level deeper.
    proof fn lemma_subtree_extend(nodes: Map<Id, Node>, anc: Id, s: Id, j: int, fuel: nat)
        requires
            spec_in_subtree(nodes, anc, s, fuel),
            nodes.dom().contains(s),
            0 <= j < nodes[s].children@.len(),
        ensures
            spec_in_subtree(nodes, anc, nodes[s].children@[j], fuel + 1),
        decreases fuel,
    {
        let c = nodes[s].children@[j];
        if s == anc {
            assert(spec_in_subtree(nodes, c, c, ((fuel + 1) - 1) as nat));
        } else {
            let j0 = choose|j0: int|
                0 <= j0 < nodes[anc].children@.len() && spec_in_subtree(
                    nodes,
                    nodes[anc].children@[j0],
                    s,
                    (fuel - 1) as nat,
                );
            Self::lemma_subtree_extend(nodes, nodes[anc].children@[j0], s, j, (fuel - 1) as nat);
        }
    }

    /// Every subtree member other than its anchor was issued by this tree:
    /// it stands in some child list, and child lists hold issued ids only.
    proof fn lemma_subtree_issued(&self, anc: Id, id: Id, fuel: nat)
        requires
            self.wf(),
            spec_in_subtree(self.nodes_map(), anc, id, fuel),
        ensures
            id == anc || self.issued().contains(id),
        decreases fuel,
    {
        if id != anc {
            assert(self.nodes_map().dom().contains(anc));
            assert(self.node_ok(anc));
            let j = choose|j: int|
                0 <= j < self.nodes_map()[anc].children@.len() && spec_in_subtree(
                    self.nodes_map(),
                    self.nodes_map()[anc].children@[j],
                    id,
                    (fuel - 1) as nat,
                );
            self.lemma_subtree_issued(self.nodes_map()[anc].children@[j], id, (fuel - 1) as nat);
        }
    }

    /// No member of the subtree under `start` sits on the cursor stack when
    /// `start` itself does not: each stack entry is the committed child of
    /// its predecessor, and child positions are unique.
    proof fn lemma_subtree_off_stack_at(&self, start: Id, fuel: nat)
        requires
            self.wf(),
            self.frame_active(),
            forall|m: int|
                0 <= m < self.cursor_stack().len() ==> #[trigger] self.cursor_stack()[m] != start,
        ensures
            forall|m: int|
                0 <= m < self.cursor_stack().len() ==> !spec_in_subtree(
                    self.nodes_map(),
                    start,
                    #[trigger] self.cursor_stack()[m],
                    fuel,
                ),
        decreases fuel,
    {
        if fuel > 0 && self.nodes_map().dom().contains(start) {
            assert(self.node_ok(start));
            let ch = self.nodes_map()[start].children@;
            assert forall|j: int, m: int|
                0 <= j < ch.len() && 0 <= m < self.stack@.len() implies self.stack@[m]
                != ch[j] by {
                if self.stack@[m] == ch[j] {
                    if m == 0 {
                        assert(self.nodes_map()[start].children@[j] != self.root_id());
                    } else {
                        let q = self.stack@[m - 1];
                        assert(self.nodes@.dom().contains(q));
                        assert(self.node_ok(q));
                        let nc = self.nodes_map()[q].next_child as int;
                        assert(self.stack@[m] == self.nodes_map()[q].children@[nc - 1]);
                        assert(self.nodes_map()[start].children@[j] == self.nodes_map()[q]
                            .children@[nc - 1]);
                        assert(start == q && j == nc - 1);
                        assert(false);
                    }
                }
            }
            assert forall|j: int, m: int|
                0 <= j < ch.len() && 0 <= m < self.cursor_stack().len() implies !spec_in_subtree(
                    self.nodes_map(),
                    ch[j],
                    self.cursor_stack()[m],
                    (fuel - 1) as nat,
                ) by {
                assert(forall|m2: int|
                    0 <= m2 < self.cursor_stack().len() ==> #[trigger] self.cursor_stack()[m2]
                        != ch[j]);
                self.lemma_subtree_off_stack_at(ch[j], (fuel - 1) as nat);
            }
            assert forall|m: int| 0 <= m < self.cursor_stack().len() implies !spec_in_subtree(
                self.nodes_map(),
                start,
                #[trigger] self.cursor_stack()[m],
                fuel,
            ) by {
                if spec_in_subtree(self.nodes_map(), start, self.cursor_stack()[m], fuel) {
                    let j = choose|j: int|
                        0 <= j < ch.len() && spec_in_subtree(
                            self.nodes_map(),
                            ch[j],
                            self.cursor_stack()[m],
                            (fuel - 1) as nat,
                        );
                    assert(false);
                }
            }
        }
    }

    /// The depth-free form: nothing on the cursor stack is a descendant of
    /// a node that is itself off the stack.
    proof fn lemma_subtree_off_stack(&self, start: Id)
        requires
            self.wf(),
            self.frame_active(),
            forall|m: int|
                0 <= m < self.cursor_stack().len() ==> #[trigger] self.cursor_stack()[m] != start,
        ensures
            forall|m: int|
                0 <= m < self.cursor_stack().len() ==> !spec_descendant(
                    self.nodes_map(),
                    start,
                    #[trigger] self.cursor_stack()[m],
                ),
    {
        assert forall|m: int| 0 <= m < self.cursor_stack().len() implies !spec_descendant(
            self.nodes_map(),
            start,
            #[trigger] self.cursor_stack()[m],
        ) by {
            if spec_descendant(self.nodes_map(), start, self.cursor_stack()[m]) {
                let f = choose|f: nat|
                    spec_in_subtree(self.nodes_map(), start, self.cursor_stack()[m], f);
                self.lemma_subtree_off_stack_at(start, f);
                assert(false);
            }
        }
    }

    /// The node arena holds at least the root's slot, so a budget of one
    /// level per slot is never zero.
    pub proof fn lemma_root_slot(&self)
        requires
            self.wf(),
        ensures
            self.node_slots() >= 1,
    {
        self.nodes.lemma_dom_index_bound();
        assert(self.nodes@.dom().contains(self.root));
    }

    /// Two distinct live nodes never share a slot index.
    pub proof fn lemma_node_index_injective(&self)
        requires
            self.wf(),
        ensures
            forall|a: Id, b: Id|
                #![trigger self.nodes_map().dom().contains(a), self.nodes_map().dom().contains(b)]
                self.nodes_map().dom().contains(a) && self.nodes_map().dom().contains(b) && a != b
                    ==> a.index != b.index,
    {
        self.nodes.lemma_index_injective();
    }

    /// Destroy `start` and its entire subtree at once: every node reachable
    /// from it through child lists leaves the arena together with its
    /// widget instance, and lookups against any of them answer "not found"
    /// from here on. Nothing outside the subtree moves. The caller hands in
    /// the cursor's uncommitted prior-frame child, which sits on no open
    /// nesting level, so the sweep can never touch the cursor stack.
    #[verifier::rlimit(100)]
    fn remove_subtree(&mut self, start: Id)
        requires
            old(self).wf(),
            old(self).frame_active(),
            old(self).nodes_map().dom().contains(start),
            old(self).has_prior_child(),
            start == old(self).prior_child(),
            forall|m: int|
                0 <= m < old(self).cursor_stack().len() ==> #[trigger] old(self).cursor_stack()[m]
                    != start,
        ensures
            final(self).wf(),
            final(self).frame_active(),
            final(self).frame_count() == old(self).frame_count(),
            final(self).root_id() == old(self).root_id(),
            final(self).cursor_stack() == old(self).cursor_stack(),
            final(self).issued() == old(self).issued(),
            final(self).widget_issued() == old(self).widget_issued(),
            final(self).node_slots() == old(self).node_slots(),
            forall|k: Id, f: nat|
                spec_in_subtree(old(self).nodes_map(), start, k, f) ==> !final(self).nodes_map().dom().contains(k),
            forall|k: Id|
                #[trigger] final(self).nodes_map().dom().contains(k) ==> old(self).nodes_map().dom().contains(k) && final(self).nodes_map()[k] == old(self).nodes_map()[k],
            forall|k: Id|
                #[trigger] old(self).nodes_map().dom().contains(k) && !spec_descendant(
                    old(self).nodes_map(),
                    start,
                    k,
                ) ==> final(self).nodes_map().dom().contains(k),
            forall|k: Id|
                #[trigger] old(self).nodes_map().dom().contains(k) && !spec_descendant(
                    old(self).nodes_map(),
                    start,
                    k,
                ) ==> final(self).widgets_map().dom().contains(old(self).nodes_map()[k].widget)
                    && final(self).widgets_map()[old(self).nodes_map()[k].widget] == old(self).widgets_map()[old(self).nodes_map()[k].widget],
            forall|k: Id|
                #[trigger] old(self).nodes_map().dom().contains(k) && spec_descendant(
                    old(self).nodes_map(),
                    start,
                    k,
                ) ==> !final(self).widgets_map().dom().contains(old(self).nodes_map()[k].widget),
            forall|w: Id|
                #[trigger] final(self).widgets_map().dom().contains(w) ==> old(self).widgets_map().dom().contains(w) && final(self).widgets_map()[w] == old(self).widgets_map()[w],
            forall|k: Id|
                #[trigger] final(self).nodes_map().dom().contains(k) ==> final(self).widgets_map().dom().contains(final(self).nodes_map()[k].widget),
    {
        proof {
            self.lemma_subtree_off_stack(start);
        }
        let ghost total = self.nodes.spec_slot_count();
        let mut work: Vec<Id> = Vec::new();
        work.push(start);
        let ghost mut removed_idx: Set<int> = Set::empty();
        proof {
            vstd::set_lib::lemma_int_range(0, total as int);
            vstd::set_lib::lemma_len_subset(
                removed_idx,
                vstd::set_lib::set_int_range(0, total as int),
            );
            assert(spec_in_subtree(old(self).nodes_map(), start, start, 0));
            assert(spec_descendant(old(self).nodes_map(), start, start));
            assert(work@[0] == start);
            assert forall|k: Id, f: nat|
                spec_in_subtree(old(self).nodes_map(), start, k, f)
                    && self.nodes@.dom().contains(k) implies exists|t: int|
                0 <= t < work@.len() && self.nodes@.dom().contains(#[trigger] work@[t])
                    && spec_descendant(old(self).nodes_map(), work@[t], k) by {
                assert(self.nodes@.dom().contains(work@[0]));
                assert(spec_descendant(old(self).nodes_map(), work@[0], k));
            }
        }
        while work.len() > 0
            invariant
                old(self).wf(),
                old(self).frame_active(),
                old(self).nodes_map().dom().contains(start),
                old(self).has_prior_child(),
                start == old(self).prior_child(),
                forall|m: int|
                    0 <= m < old(self).cursor_stack().len() ==> !spec_descendant(
                        old(self).nodes_map(),
                        start,
                        #[trigger] old(self).cursor_stack()[m],
                    ),
                self.nodes.inv(),
                self.widgets.inv(),
                self.root == old(self).root_id(),
                self.frame == old(self).frame_count(),
                self.in_frame == old(self).frame_active(),
                self.stack@ == old(self).cursor_stack(),
                self.nodes.issued_ids() == old(self).issued(),
                self.widgets.issued_ids() == old(self).widget_issued(),
                self.nodes.spec_slot_count() == total,
                total == old(self).node_slots(),
                forall|k: Id|
                    #[trigger] self.nodes@.dom().contains(k) ==> old(self).nodes_map().dom().contains(k) && self.nodes@[k] == old(self).nodes_map()[k],
                forall|w: Id|
                    #[trigger] self.widgets@.dom().contains(w) ==> old(self).widgets_map().dom().contains(w) && self.widgets@[w] == old(self).widgets_map()[w],
                forall|t: int|
                    0 <= t < work@.len() ==> spec_descendant(
                        old(self).nodes_map(),
                        start,
                        #[trigger] work@[t],
                    ),
                forall|t: int|
                    0 <= t < work@.len() ==> (#[trigger] work@[t]) == start || exists|u: Id, j: int|
                        !self.nodes@.dom().contains(u) && old(self).nodes_map().dom().contains(u)
                            && 0 <= j < old(self).nodes_map()[u].children@.len() && work@[t] == old(self).nodes_map()[u].children@[j],
                forall|k: Id|
                    #[trigger] old(self).nodes_map().dom().contains(k)
                        && !self.nodes@.dom().contains(k) ==> spec_descendant(
                        old(self).nodes_map(),
                        start,
                        k,
                    ) && !self.widgets@.dom().contains(old(self).nodes_map()[k].widget) && (k
                        == start || exists|u: Id, j: int|
                        !self.nodes@.dom().contains(u) && old(self).nodes_map().dom().contains(u)
                            && 0 <= j < old(self).nodes_map()[u].children@.len() && k == old(self).nodes_map()[u].children@[j]),
                forall|k: Id|
                    #[trigger] self.nodes@.dom().contains(k) ==> self.widgets@.dom().contains(
                        self.nodes@[k].widget,
                    ),
                forall|k: Id, f: nat|
                    spec_in_subtree(old(self).nodes_map(), start, k, f)
                        && self.nodes@.dom().contains(k) ==> exists|t: int|
                        0 <= t < work@.len() && self.nodes@.dom().contains(#[trigger] work@[t])
                            && spec_descendant(old(self).nodes_map(), work@[t], k),
                removed_idx.finite(),
                removed_idx.subset_of(vstd::set_lib::set_int_range(0, total as int)),
                removed_idx.len() <= total,
                forall|k: Id|
                    #[trigger] self.nodes@.dom().contains(k) ==> !removed_idx.contains(
                        k.index as int,
                    ),
            decreases total - removed_idx.len(), work@.len(),
        {
            let ghost pre = *self;
            let ghost pre_work = work@;
            let s = match work.pop() {
                Some(s) => s,
                None => vstd::pervasive::unreached(),
            };
            proof {
                assert(pre_work[pre_work.len() - 1] == s);
                assert(work@ == pre_work.drop_last());
            }
            let got = self.nodes.remove(s);
            match got {
                Some(node) => {
                    let _swept_widget = self.widgets.remove(node.widget);
                    let mut children = node.children;
                    let ghost ch = children@;
                    proof {
                        pre.nodes.lemma_index_injective();
                        pre.nodes.lemma_dom_index_bound();
                        assert(pre.nodes@.dom().contains(s));
                        assert((s.index as int) < (total as int));
                        removed_idx = removed_idx.insert(s.index as int);
                        vstd::set_lib::lemma_int_range(0, total as int);
                        assert(removed_idx.subset_of(
                            vstd::set_lib::set_int_range(0, total as int),
                        ));
                        vstd::set_lib::lemma_len_subset(
                            removed_idx,
                            vstd::set_lib::set_int_range(0, total as int),
                        );
                        let onodes = old(self).nodes_map();
                        assert(ch == onodes[s].children@);
                        assert(old(self).node_ok(s));
                        let p = old(self).cursor();
                        let ci = old(self).cursor_index();
                        assert(old(self).nodes_map().dom().contains(p)) by {
                            old(self).lemma_cursor_live();
                        }
                        assert(old(self).node_ok(p));
                        // s is off the stack: it is a descendant of start
                        assert(spec_descendant(onodes, start, s));
                        // each child of s is a descendant of start too
                        assert forall|j: int| 0 <= j < ch.len() implies spec_descendant(
                            onodes,
                            start,
                            #[trigger] ch[j],
                        ) by {
                            let f0 = choose|f0: nat| spec_in_subtree(onodes, start, s, f0);
                            Self::lemma_subtree_extend(onodes, start, s, j, f0);
                        }
                        // no child of s was removed before: its sole position
                        // in the whole tree belongs to s, which was live
                        assert forall|j: int|
                            0 <= j < ch.len() && onodes.dom().contains(
                                #[trigger] ch[j],
                            ) implies pre.nodes@.dom().contains(ch[j]) by {
                            if !pre.nodes@.dom().contains(ch[j]) {
                                if ch[j] == start {
                                    assert(onodes[p].children@[ci] == onodes[s].children@[j]);
                                    assert(p == s && ci == j);
                                    assert(!spec_descendant(onodes, start, p));
                                    assert(false);
                                } else {
                                    let (u, j2): (Id, int) = choose|u: Id, j2: int|
                                        !pre.nodes@.dom().contains(u) && onodes.dom().contains(u)
                                            && 0 <= j2 < onodes[u].children@.len() && ch[j]
                                            == onodes[u].children@[j2];
                                    assert(onodes[u].children@[j2] == onodes[s].children@[j]);
                                    assert(u == s && j2 == j);
                                    assert(false);
                                }
                            }
                        }
                        // the frontier stays covered by live entries: a claim
                        // settled through s moves to the child it runs through
                        assert forall|k: Id, f: nat|
                            spec_in_subtree(onodes, start, k, f) && self.nodes@.dom().contains(
                                k,
                            ) implies exists|t: int|
                            0 <= t < pre_work.drop_last().add(ch).len()
                                && self.nodes@.dom().contains(
                                #[trigger] pre_work.drop_last().add(ch)[t],
                            ) && spec_descendant(onodes, pre_work.drop_last().add(ch)[t], k) by {
                            assert(pre.nodes@.dom().contains(k));
                            assert(exists|t: int|
                                0 <= t < pre_work.len() && pre.nodes@.dom().contains(
                                    #[trigger] pre_work[t],
                                ) && spec_descendant(onodes, pre_work[t], k));
                            let t0 = choose|t0: int|
                                0 <= t0 < pre_work.len() && pre.nodes@.dom().contains(
                                    pre_work[t0],
                                ) && spec_descendant(onodes, pre_work[t0], k);
                            let nw = pre_work.drop_last().add(ch);
                            if t0 < pre_work.len() - 1 && pre_work[t0] != s {
                                assert(nw[t0] == pre_work[t0]);
                            } else {
                                // the witness was s itself
                                assert(pre_work[t0] == s || pre_work[t0] == pre_work[
                                    pre_work.len() - 1
                                ]);
                                assert(spec_descendant(onodes, s, k));
                                let f2 = choose|f2: nat| spec_in_subtree(onodes, s, k, f2);
                                assert(k != s);
                                assert(f2 > 0 && onodes.dom().contains(s));
                                let j = choose|j: int|
                                    0 <= j < onodes[s].children@.len() && spec_in_subtree(
                                        onodes,
                                        onodes[s].children@[j],
                                        k,
                                        (f2 - 1) as nat,
                                    );
                                assert(onodes.dom().contains(ch[j])) by {
                                    if !onodes.dom().contains(ch[j]) {
                                        assert(k == ch[j]);
                                        assert(false);
                                    }
                                }
                                assert(self.nodes@.dom().contains(ch[j])) by {
                                    assert(pre.nodes@.dom().contains(ch[j]));
                                    assert(ch[j] != s);
                                }
                                let t1 = pre_work.len() - 1 + j;
                                assert(nw[t1] == ch[j]);
                                assert(spec_descendant(onodes, ch[j], k)) by {
                                    assert(spec_in_subtree(onodes, ch[j], k, (f2 - 1) as nat));
                                }
                            }
                        }
                        // surviving nodes keep live widgets: theirs differ
                        // from the one just torn down
                        assert forall|k: Id| #[trigger] self.nodes@.dom().contains(
                            k,
                        ) implies self.widgets@.dom().contains(self.nodes@[k].widget) by {
                            assert(k != s);
                            assert(old(self).nodes_map().dom().contains(k));
                            assert(old(self).nodes_map()[k].widget != old(self).nodes_map()[s].widget);
                        }
                    }
                    work.append(&mut children);
                },
                None => {
                    proof {
                        let onodes = old(self).nodes_map();
                        // the frontier needs no repair: its witnesses are
                        // live, and the popped entry was not
                        assert forall|k: Id, f: nat|
                            spec_in_subtree(onodes, start, k, f) && self.nodes@.dom().contains(
                                k,
                            ) implies exists|t: int|
                            0 <= t < work@.len() && self.nodes@.dom().contains(#[trigger] work@[t])
                                && spec_descendant(onodes, work@[t], k) by {
                            assert(!pre.nodes@.dom().contains(s));
                            assert(pre.nodes@.dom().contains(k));
                            assert(exists|t: int|
                                0 <= t < pre_work.len() && pre.nodes@.dom().contains(
                                    #[trigger] pre_work[t],
                                ) && spec_descendant(onodes, pre_work[t], k));
                            let t0 = choose|t0: int|
                                0 <= t0 < pre_work.len() && pre.nodes@.dom().contains(
                                    #[trigger] pre_work[t0],
                                ) && spec_descendant(onodes, pre_work[t0], k);
                            assert(pre_work[t0] != s);
                            assert(t0 < pre_work.len() - 1);
                            assert(work@[t0] == pre_work[t0]);
                        }
                    }
                },
            }
        }
        proof {
            // an empty frontier means the whole subtree is gone
            assert forall|k: Id, f: nat|
                spec_in_subtree(old(self).nodes_map(), start, k, f) implies !self
                .nodes@.dom().contains(k) by {
                if self.nodes@.dom().contains(k) {
                    assert(false);
                }
            }
            // everything off the subtree survived
            assert forall|k: Id|
                #[trigger] old(self).nodes_map().dom().contains(k) && !spec_descendant(
                    old(self).nodes_map(),
                    start,
                    k,
                ) implies self.nodes@.dom().contains(k) by {
                if !self.nodes@.dom().contains(k) {
                    assert(spec_descendant(old(self).nodes_map(), start, k));
                }
            }
            // well-formedness: the survivors are exactly as they were
            assert forall|id: Id| #[trigger] self.nodes@.dom().contains(id) implies self.node_ok(
                id,
            ) by {
                assert(old(self).node_ok(id));
                assert(self.nodes@[id].children@ == old(self).nodes_map()[id].children@);
            }
            assert forall|a: Id, b: Id, i2: int, j2: int|
                #![trigger self.nodes_map()[a].children@[i2], self.nodes_map()[b].children@[j2]]
                self.nodes_map().dom().contains(a) && self.nodes_map().dom().contains(b) && 0 <= i2
                    < self.nodes_map()[a].children@.len() && 0 <= j2
                    < self.nodes_map()[b].children@.len() && (a != b || i2 != j2) implies self
                .nodes_map()[a].children@[i2] != self.nodes_map()[b].children@[j2] by {
                assert(self.nodes@[a].children@ == old(self).nodes_map()[a].children@);
                assert(self.nodes@[b].children@ == old(self).nodes_map()[b].children@);
                assert(old(self).nodes_map()[a].children@[i2] != old(self).nodes_map()[b].children@[j2]);
            }
            assert(self.nodes@.dom().contains(self.root)) by {
                assert(!spec_descendant(old(self).nodes_map(), start, self.root)) by {
                    assert(old(self).cursor_stack()[0] == old(self).root_id());
                }
            }
            assert forall|m: int| 0 <= m < self.stack@.len() implies self.nodes@.dom().contains(
                #[trigger] self.stack@[m],
            ) by {
                assert(!spec_descendant(old(self).nodes_map(), start, self.stack@[m]));
                assert(old(self).nodes_map().dom().contains(self.stack@[m]));
            }
        }
    }

    fn placeholder_node() -> (r: Node) {
        Node {
            children: Vec::new(),
            parent: None,
            widget: Id { index: 0, generation: 0 },
            next_child: 0,
            stamp: 0,
        }
    }

    /// A fresh tree: a single live root (a vertical stack by default), no
    /// frame open yet.
    pub fn new() -> (r: Dom)
        ensures
            r.wf(),
            !r.frame_active(),
            r.frame_count() == 0,
            r.nodes_map().dom() =~= Set::<Id>::empty().insert(r.root_id()),
            r.nodes_map()[r.root_id()].children@ == Seq::<Id>::empty(),
            r.widgets_map()[r.nodes_map()[r.root_id()].widget] == WidgetInstance::spec_new(
                Variant::List,
            ),
            r.widgets_map()[r.nodes_map()[r.root_id()].widget].spec_variant() == Variant::List,
    {
        let mut widgets: Arena<WidgetInstance> = Arena::new();
        let root_widget = WidgetInstance::new(Variant::List);
        let wid = widgets.insert(root_widget);
        let mut nodes: Arena<Node> = Arena::new();
        let root_node = Node {
            children: Vec::new(),
            parent: None,
            widget: wid,
            next_child: 0,
            stamp: 0,
        };
        let root = nodes.insert(root_node);
        let d = Dom { nodes, widgets, root, stack: Vec::new(), frame: 0, in_frame: false };
        proof {
            assert(d.nodes@.dom() =~= Set::<Id>::empty().insert(root));
        }
        d
    }

    /// Begin a new frame: move the frame counter on, reset the traversal
    /// cursor to the root, and keep the whole prior-frame tree intact for
    /// reuse lookups. Calling it with a frame already open is a programmer
    /// error and is excluded by contract.
    pub fn start(&mut self)
        requires
            old(self).wf(),
            !old(self).frame_active(),
            old(self).frame_count() < u64::MAX,
        ensures
            final(self).wf(),
            final(self).frame_active(),
            final(self).frame_count() == old(self).frame_count() + 1,
            final(self).root_id() == old(self).root_id(),
            final(self).cursor_stack() == Seq::<Id>::empty().push(old(self).root_id()),
            final(self).widgets_map() == old(self).widgets_map(),
            final(self).issued() == old(self).issued(),
            final(self).node_slots() == old(self).node_slots(),
            final(self).nodes_map().dom() == old(self).nodes_map().dom(),
            forall|k: Id|
                #[trigger] old(self).nodes_map().dom().contains(k) && k != old(self).root_id()
                    ==> final(self).nodes_map()[k] == old(self).nodes_map()[k],
            final(self).nodes_map()[old(self).root_id()].children == old(self).nodes_map()[old(self).root_id()].children,
            final(self).nodes_map()[old(self).root_id()].widget == old(self).nodes_map()[old(self).root_id()].widget,
            final(self).nodes_map()[old(self).root_id()].next_child == 0,
    {
        self.frame = self.frame + 1;
        self.in_frame = true;
        self.stack = Vec::new();
        let rt = self.root;
        self.stack.push(rt);
        let got = self.nodes.replace(rt, Self::placeholder_node());
        let mut node = match got {
            Some(n) => n,
            None => vstd::pervasive::unreached(),
        };
        node.next_child = 0;
        node.stamp = self.frame;
        self.nodes.replace(rt, node);
        proof {
            assert(self.nodes@.dom() =~= old(self).nodes@.dom());
            assert forall|id: Id| #[trigger] self.nodes@.dom().contains(id) implies self.node_ok(id) by {
                assert(old(self).node_ok(id));
            }
        }
    }

    /// The single operation every widget call funnels through: resolve the
    /// call as the next child of the cursor, reusing the prior frame's node
    /// when position and variant match and recreating it otherwise, then
    /// make the resolved node the cursor for nested calls until `exit`.
    ///
    /// Identity stability: when `reuses(props)` holds, the returned
    /// identifier is exactly the prior frame's child at this position, no
    /// identifier set changes, and the widget instance keeps its state
    /// except for the explicit props update. Replacement: otherwise the
    /// returned identifier was never issued before, and the stale occupant
    /// (if any) is destroyed immediately — its entire subtree, nodes and
    /// widget instances alike, is unreachable before this call returns,
    /// and the teardown precedes the fresh instance's construction. The
    /// fresh widget starts from the variant's default state with `props`
    /// applied.
    #[verifier::rlimit(60)]
    pub fn enter(&mut self, props: WidgetProps) -> (r: Response)
        requires
            old(self).wf(),
            old(self).frame_active(),
        ensures
            final(self).wf(),
            final(self).frame_active(),
            final(self).frame_count() == old(self).frame_count(),
            final(self).root_id() == old(self).root_id(),
            final(self).node_slots() >= old(self).node_slots(),
            final(self).cursor_stack() == old(self).cursor_stack().push(r.id),
            final(self).nodes_map().dom().contains(r.id),
            r.id != old(self).cursor(),
            r.id != old(self).root_id(),
            final(self).nodes_map()[r.id].stamp == final(self).frame_count(),
            final(self).nodes_map()[r.id].next_child == 0,
            final(self).nodes_map()[r.id].parent == Some(old(self).cursor()),
            final(self).nodes_map()[old(self).cursor()].next_child == old(self).cursor_index()
                + 1,
            final(self).nodes_map()[old(self).cursor()].widget == old(self).nodes_map()[old(self).cursor()].widget,
            final(self).nodes_map()[old(self).cursor()].stamp == old(self).nodes_map()[old(self).cursor()].stamp,
            old(self).reuses(props) ==> ({
                &&& r.id == old(self).prior_child()
                &&& final(self).nodes_map().dom() == old(self).nodes_map().dom()
                &&& final(self).issued() == old(self).issued()
                &&& final(self).widgets_map().dom() == old(self).widgets_map().dom()
                &&& final(self).nodes_map()[r.id].widget == old(self).nodes_map()[r.id].widget
                &&& final(self).nodes_map()[r.id].children == old(self).nodes_map()[r.id].children
                &&& final(self).widgets_map()[old(self).nodes_map()[r.id].widget] == old(self).widgets_map()[old(self).nodes_map()[r.id].widget].spec_updated(props)
                &&& final(self).nodes_map()[old(self).cursor()].children == old(self).nodes_map()[old(self).cursor()].children
                &&& forall|k: Id|
                    k != r.id && k != old(self).cursor() && #[trigger] old(self).nodes_map().dom().contains(k) ==> final(self).nodes_map()[k] == old(self).nodes_map()[k]
                &&& forall|w: Id|
                    w != old(self).nodes_map()[r.id].widget && #[trigger] old(self).widgets_map().dom().contains(w) ==> final(self).widgets_map()[w] == old(self).widgets_map()[w]
            }),
            !old(self).reuses(props) ==> ({
                &&& !old(self).issued().contains(r.id)
                &&& final(self).issued() == old(self).issued().insert(r.id)
                &&& final(self).nodes_map()[r.id].children@ == Seq::<Id>::empty()
                &&& !old(self).widgets_map().dom().contains(final(self).nodes_map()[r.id].widget)
                &&& final(self).widgets_map()[final(self).nodes_map()[r.id].widget]
                    == WidgetInstance::spec_new(props.spec_variant()).spec_updated(props)
                &&& old(self).has_prior_child() ==> r.id != old(self).prior_child() && !final(self).nodes_map().dom().contains(old(self).prior_child())
                &&& (old(self).has_prior_child() && old(self).nodes_map().dom().contains(old(self).prior_child())) ==> ({
                    &&& forall|k: Id, f: nat|
                        spec_in_subtree(old(self).nodes_map(), old(self).prior_child(), k, f)
                            ==> !final(self).nodes_map().dom().contains(k)
                    &&& forall|k: Id|
                        #[trigger] old(self).nodes_map().dom().contains(k) && spec_descendant(
                            old(self).nodes_map(),
                            old(self).prior_child(),
                            k,
                        ) ==> !final(self).widgets_map().dom().contains(old(self).nodes_map()[k].widget)
                })
                &&& final(self).nodes_map()[old(self).cursor()].children@ == (if old(self).has_prior_child() {
                    old(self).nodes_map()[old(self).cursor()].children@.update(
                        old(self).cursor_index(),
                        r.id,
                    )
                } else {
                    old(self).nodes_map()[old(self).cursor()].children@.push(r.id)
                })
                &&& forall|k: Id|
                    k != r.id && k != old(self).cursor() && (!(old(self).has_prior_child() && old(self).nodes_map().dom().contains(old(self).prior_child())) || !spec_descendant(
                        old(self).nodes_map(),
                        old(self).prior_child(),
                        k,
                    )) && (!old(self).has_prior_child() || k != old(self).prior_child())
                        && #[trigger] old(self).nodes_map().dom().contains(k) ==> final(self).nodes_map().dom().contains(k) && final(self).nodes_map()[k] == old(self).nodes_map()[k]
                &&& forall|k: Id|
                    (!(old(self).has_prior_child() && old(self).nodes_map().dom().contains(old(self).prior_child())) || !spec_descendant(
                        old(self).nodes_map(),
                        old(self).prior_child(),
                        k,
                    )) && #[trigger] old(self).nodes_map().dom().contains(k) ==> final(self).widgets_map().dom().contains(old(self).nodes_map()[k].widget) && final(self).widgets_map()[old(self).nodes_map()[k].widget] == old(self).widgets_map()[old(self).nodes_map()[k].widget]
                &&& forall|w: Id|
                    #[trigger] final(self).widgets_map().dom().contains(w) && w != final(self).nodes_map()[r.id].widget ==> old(self).widgets_map().dom().contains(w)
                        && final(self).widgets_map()[w] == old(self).widgets_map()[w]
            }),
    {
        proof {
            self.lemma_cursor_live();
        }
        let p = self.stack[self.stack.len() - 1];
        let pn0 = match self.nodes.get(p) {
            Some(n) => n,
            None => vstd::pervasive::unreached(),
        };
        let i = pn0.next_child;
        let plen = pn0.children.len();
        let prior: Option<Id> = if i < plen {
            Some(pn0.children[i])
        } else {
            None
        };
        proof {
            self.nodes.lemma_dom_sub_issued();
            self.widgets.lemma_dom_sub_issued();
            if self.has_prior_child() {
                self.lemma_prior_child_not_on_stack();
            }
        }
        let mut reuse = false;
        let mut prior_live = false;
        let mut prior_widget = Id { index: 0, generation: 0 };
        match prior {
            Some(cid) => {
                proof {
                    assert(self.node_ok(p));
                }
                match self.nodes.get(cid) {
                    Some(cn) => {
                        prior_live = true;
                        prior_widget = cn.widget;
                        proof {
                            assert(self.node_ok(cid));
                        }
                        let w = match self.widgets.get(cn.widget) {
                            Some(w) => w,
                            None => vstd::pervasive::unreached(),
                        };
                        if w.variant() == props.variant() {
                            reuse = true;
                        }
                    },
                    None => {},
                }
            },
            None => {},
        }
        proof {
            assert(reuse == old(self).reuses(props));
        }
        if reuse {
            let cid = match prior {
                Some(c) => c,
                None => vstd::pervasive::unreached(),
            };
            let mut w = match self.widgets.replace(prior_widget, WidgetInstance::new(Variant::Fixed)) {
                Some(w) => w,
                None => vstd::pervasive::unreached(),
            };
            w.update(props);
            let _stale_w = self.widgets.replace(prior_widget, w);
            let mut cn = match self.nodes.replace(cid, Self::placeholder_node()) {
                Some(n) => n,
                None => vstd::pervasive::unreached(),
            };
            cn.next_child = 0;
            cn.stamp = self.frame;
            cn.parent = Some(p);
            let _old_c = self.nodes.replace(cid, cn);
            let mut pn = match self.nodes.replace(p, Self::placeholder_node()) {
                Some(n) => n,
                None => vstd::pervasive::unreached(),
            };
            pn.next_child = i + 1;
            let _old_p = self.nodes.replace(p, pn);
            self.stack.push(cid);
            proof {
                assert(self.nodes@.dom() =~= old(self).nodes@.dom());
                assert(self.widgets@.dom() =~= old(self).widgets@.dom());
                assert forall|id: Id| #[trigger] self.nodes@.dom().contains(id) implies self
                    .node_ok(id) by {
                    assert(old(self).node_ok(id));
                    assert(self.nodes@[id].children@ == old(self).nodes@[id].children@);
                }
                assert forall|a: Id, b: Id, i2: int, j2: int|
                    #![trigger self.nodes_map()[a].children@[i2], self.nodes_map()[b].children@[j2]]
                    self.nodes_map().dom().contains(a) && self.nodes_map().dom().contains(b) && 0
                        <= i2 < self.nodes_map()[a].children@.len() && 0 <= j2
                        < self.nodes_map()[b].children@.len() && (a != b || i2
                        != j2) implies self.nodes_map()[a].children@[i2] != self.nodes_map()[b].children@[j2] by {
                    assert(self.nodes@[a].children@ == old(self).nodes@[a].children@);
                    assert(self.nodes@[b].children@ == old(self).nodes@[b].children@);
                    assert(old(self).nodes_map()[a].children@[i2] != old(self).nodes_map()[b].children@[j2]);
                }
                let os = old(self).stack@;
                assert(self.stack@ == os.push(cid));
                assert forall|k: int| 0 <= k < self.stack@.len() - 1 implies self.nodes_map()[
                    #[trigger] self.stack@[k]].next_child >= 1 && self.stack@[k + 1]
                    == self.nodes_map()[self.stack@[k]].children@[self.nodes_map()[self.stack@[k]].next_child - 1] by {
                    if k == os.len() - 1 {
                        assert(self.stack@[k] == p);
                        assert(self.nodes@[p].next_child == i + 1);
                        assert(self.nodes@[p].children@[i as int] == cid);
                    } else {
                        assert(self.stack@[k] == os[k]);
                        assert(self.stack@[k + 1] == os[k + 1]);
                        assert(os[k] != p);
                        assert(os[k] != cid);
                        assert(self.nodes@[os[k]] == old(self).nodes@[os[k]]);
                    }
                }
            }
            Response { id: cid }
        } else {
            if prior_live {
                let cid = match prior {
                    Some(c) => c,
                    None => vstd::pervasive::unreached(),
                };
                proof {
                    self.lemma_subtree_off_stack(cid);
                }
                self.remove_subtree(cid);
            }
            let mut w = WidgetInstance::new(props.variant());
            w.update(props);
            let wid = self.widgets.insert(w);
            let node = Node {
                children: Vec::new(),
                parent: Some(p),
                widget: wid,
                next_child: 0,
                stamp: self.frame,
            };
            proof {
                self.nodes.lemma_live_issued(p);
            }
            let cid = self.nodes.insert(node);
            let mut pn = match self.nodes.replace(p, Self::placeholder_node()) {
                Some(n) => n,
                None => vstd::pervasive::unreached(),
            };
            if i < pn.children.len() {
                pn.children.set(i, cid);
                pn.next_child = i + 1;
            } else {
                pn.children.push(cid);
                pn.next_child = pn.children.len();
            }
            let _old_p = self.nodes.replace(p, pn);
            self.stack.push(cid);
            proof {
                assert(old(self).node_ok(p));
                if prior_live {
                    let stale = old(self).prior_child();
                    assert forall|f: nat| !spec_in_subtree(
                        old(self).nodes_map(),
                        stale,
                        cid,
                        f,
                    ) by {
                        if spec_in_subtree(old(self).nodes_map(), stale, cid, f) {
                            old(self).lemma_subtree_issued(stale, cid, f);
                            assert(old(self).issued().contains(stale));
                            assert(false);
                        }
                    }
                }
                match prior {
                    Some(stale0) => {
                        assert(stale0 == old(self).prior_child());
                        assert(old(self).issued().contains(stale0));
                        assert(cid != stale0);
                        if prior_live {
                            assert(spec_in_subtree(old(self).nodes_map(), stale0, stale0, 0));
                            assert(!self.nodes@.dom().contains(stale0));
                        } else {
                            assert(!old(self).nodes_map().dom().contains(stale0));
                            assert(!self.nodes@.dom().contains(stale0));
                        }
                    },
                    None => {},
                }
                assert forall|id: Id| #[trigger] self.nodes@.dom().contains(id) implies self
                    .node_ok(id) by {
                    if id != p && id != cid {
                        assert(old(self).node_ok(id));
                    }
                }
                assert forall|a: Id, b: Id|
                    self.nodes@.dom().contains(a) && self.nodes@.dom().contains(b) && a
                        != b implies #[trigger] self.nodes@[a].widget != #[trigger] self.nodes@[b].widget by {
                    if a != cid && b != cid {
                        assert(old(self).nodes@.dom().contains(a));
                        assert(old(self).nodes@.dom().contains(b));
                    }
                }
            }
            Response { id: cid }
        }
    }

    /// Close the nesting level the last unmatched `enter` opened, restoring
    /// the prior cursor. Exiting the root is frame-lifecycle misuse and is
    /// excluded by contract.
    pub fn exit(&mut self)
        requires
            old(self).wf(),
            old(self).frame_active(),
            old(self).cursor_stack().len() > 1,
        ensures
            final(self).wf(),
            final(self).frame_active(),
            final(self).cursor_stack() == old(self).cursor_stack().drop_last(),
            final(self).nodes_map() == old(self).nodes_map(),
            final(self).widgets_map() == old(self).widgets_map(),
            final(self).issued() == old(self).issued(),
            final(self).frame_count() == old(self).frame_count(),
            final(self).root_id() == old(self).root_id(),
            final(self).node_slots() == old(self).node_slots(),
    {
        let _popped = self.stack.pop();
    }

    /// End the frame: sweep. Every node that exists but was not revisited by
    /// the just-completed frame — its stamp lags the frame counter — is
    /// removed together with its widget instance, which receives its
    /// teardown (removal from storage) exactly once; lookups against such
    /// identifiers answer "not found" from here on. Nodes the frame did
    /// visit survive untouched, their widget state intact. Calling `finish`
    /// with unclosed nesting levels (or no frame open) is a programmer
    /// error and is excluded by contract.
    #[verifier::rlimit(60)]
    pub fn finish(&mut self)
        requires
            old(self).wf(),
            old(self).frame_active(),
            old(self).cursor_stack().len() == 1,
        ensures
            final(self).wf(),
            !final(self).frame_active(),
            final(self).frame_count() == old(self).frame_count(),
            final(self).root_id() == old(self).root_id(),
            final(self).issued() == old(self).issued(),
            final(self).node_slots() == old(self).node_slots(),
            forall|id: Id|
                #[trigger] final(self).nodes_map().dom().contains(id) ==> old(self).nodes_map().dom().contains(id) && old(self).nodes_map()[id].stamp == old(self).frame_count() && final(self).nodes_map()[id] == old(self).nodes_map()[id],
            forall|id: Id|
                #[trigger] old(self).nodes_map().dom().contains(id) && old(self).nodes_map()[id].stamp == old(self).frame_count() ==> final(self).nodes_map().dom().contains(id),
            forall|id: Id|
                #[trigger] final(self).nodes_map().dom().contains(id) ==> final(self).widgets_map().dom().contains(old(self).nodes_map()[id].widget) && final(self).widgets_map()[old(self).nodes_map()[id].widget] == old(self).widgets_map()[old(self).nodes_map()[id].widget],
            forall|id: Id|
                #[trigger] old(self).nodes_map().dom().contains(id) && old(self).nodes_map()[id].stamp != old(self).frame_count() ==> !final(self).widgets_map().dom().contains(old(self).nodes_map()[id].widget),
    {
        let total = self.nodes.slot_count();
        proof {
            self.nodes.lemma_dom_index_bound();
        }
        let mut i: usize = 0;
        while i < total
            invariant
                old(self).wf(),
                self.nodes.inv(),
                self.widgets.inv(),
                i <= total,
                total == self.nodes.spec_slot_count(),
                self.nodes.issued_ids() == old(self).nodes.issued_ids(),
                self.root == old(self).root,
                self.frame == old(self).frame,
                self.in_frame,
                forall|id: Id|
                    #[trigger] old(self).nodes@.dom().contains(id) ==> id.index < total,
                forall|id: Id|
                    #[trigger] self.nodes@.dom().contains(id) ==> old(self).nodes@.dom().contains(id) && self.nodes@[id] == old(self).nodes@[id],
                forall|id: Id|
                    #[trigger] old(self).nodes@.dom().contains(id) && (id.index >= i || old(self).nodes@[id].stamp == old(self).frame) ==> self.nodes@.dom().contains(id),
                forall|id: Id|
                    #[trigger] old(self).nodes@.dom().contains(id) && id.index < i && old(self).nodes@[id].stamp != old(self).frame ==> !self.nodes@.dom().contains(id)
                        && !self.widgets@.dom().contains(old(self).nodes@[id].widget),
                forall|w: Id|
                    #[trigger] self.widgets@.dom().contains(w) ==> old(self).widgets@.dom().contains(w) && self.widgets@[w] == old(self).widgets@[w],
                forall|id: Id|
                    #[trigger] self.nodes@.dom().contains(id) ==> self.widgets@.dom().contains(
                        self.nodes@[id].widget,
                    ),
            decreases total - i,
        {
            let got = self.nodes.id_at(i);
            match got {
                Some(id) => {
                    let n = match self.nodes.get(id) {
                        Some(n) => n,
                        None => vstd::pervasive::unreached(),
                    };
                    let stamp = n.stamp;
                    let wid = n.widget;
                    if stamp != self.frame {
                        let _swept_node = self.nodes.remove(id);
                        let _swept_widget = self.widgets.remove(wid);
                        proof {
                            assert forall|k: Id| #[trigger] self.nodes@.dom().contains(k) implies self.widgets@.dom().contains(self.nodes@[k].widget) by {
                                assert(old(self).nodes@.dom().contains(k));
                                assert(old(self).nodes@.dom().contains(id));
                                assert(k != id);
                                assert(old(self).nodes@[k].widget != old(self).nodes@[id].widget);
                            }
                        }
                    }
                },
                None => {},
            }
            i = i + 1;
        }
        self.in_frame = false;
        self.stack = Vec::new();
        proof {
            assert(self.nodes@.dom().contains(self.root));
            assert forall|id: Id| #[trigger] self.nodes@.dom().contains(id) implies self.node_ok(id) by {
                assert(old(self).node_ok(id));
                assert(self.nodes@[id] == old(self).nodes@[id]);
            }
            assert forall|a: Id, b: Id, i2: int, j2: int|
                #![trigger self.nodes_map()[a].children@[i2], self.nodes_map()[b].children@[j2]]
                self.nodes_map().dom().contains(a) && self.nodes_map().dom().contains(b) && 0 <= i2
                    < self.nodes_map()[a].children@.len() && 0 <= j2
                    < self.nodes_map()[b].children@.len() && (a != b || i2 != j2) implies self
                .nodes_map()[a].children@[i2] != self.nodes_map()[b].children@[j2] by {
                assert(self.nodes@[a].children@ == old(self).nodes@[a].children@);
                assert(self.nodes@[b].children@ == old(self).nodes@[b].children@);
                assert(old(self).nodes_map()[a].children@[i2] != old(self).nodes_map()[b].children@[j2]);
            }
        }
    }

    /// The node the cursor rests on: the one whose children the calls made
    /// so far have committed. Usable only while a frame is open.
    pub fn get_current(&self) -> (r: &Node)
        requires
            self.wf(),
            self.frame_active(),
        ensures
            *r == self.nodes_map()[self.cursor()],
    {
        proof {
            self.lemma_cursor_live();
        }
        let c = self.stack[self.stack.len() - 1];
        match self.nodes.get(c) {
            Some(n) => n,
            None => vstd::pervasive::unreached(),
        }
    }

    /// Whether `id` names a live node. Stale identifiers — from swept or
    /// replaced nodes — answer false, never misbehave.
    pub fn contains(&self, id: NodeId) -> (r: bool)
        ensures
            r == self.nodes_map().dom().contains(id),
    {
        match self.nodes.get(id) {
            Some(_) => true,
            None => false,
        }
    }

    /// The node `id` names, if live.
    pub fn node_ref(&self, id: NodeId) -> (r: Option<&Node>)
        ensures
            match r {
                Some(n) => self.nodes_map().dom().contains(id) && *n == self.nodes_map()[id],
                None => !self.nodes_map().dom().contains(id),
            },
    {
        self.nodes.get(id)
    }

    /// The widget instance behind the live node `id`.
    pub fn widget_of(&self, id: NodeId) -> (r: Option<&WidgetInstance>)
        requires
            self.wf(),
        ensures
            match r {
                Some(w) => self.nodes_map().dom().contains(id) && *w == self.widgets_map()[self.nodes_map()[id].widget],
                None => !self.nodes_map().dom().contains(id),
            },
    {
        match self.nodes.get(id) {
            Some(n) => match self.widgets.get(n.widget) {
                Some(w) => Some(w),
                None => vstd::pervasive::unreached(),
            },
            None => None,
        }
    }

    /// Exec mirror of `frame_active`, for callers that must check before
    /// calling the frame-lifecycle operations.
    pub fn is_frame_active(&self) -> (r: bool)
        ensures
            r == self.frame_active(),
    {
        self.in_frame
    }

    /// Exec mirror of `cursor_stack().len()`.
    pub fn depth(&self) -> (r: usize)
        ensures
            r == self.cursor_stack().len(),
    {
        self.stack.len()
    }

    /// Exec mirror of `frame_count`.
    pub fn current_frame(&self) -> (r: u64)
        ensures
            r == self.frame_count(),
    {
        self.frame
    }

    /// The root's identifier; the root is always live.
    pub fn root_node(&self) -> (r: NodeId)
        ensures
            r == self.root_id(),
            self.wf() ==> self.nodes_map().dom().contains(r),
    {
        self.root
    }

    /// Exec mirror of `node_slots`.
    pub fn node_slot_count(&self) -> (r: usize)
        ensures
            r == self.node_slots(),
    {
        self.nodes.slot_count()
    }
}

} // verus!
