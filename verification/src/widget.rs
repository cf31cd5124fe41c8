//! The widget capability: the per-variant behavioral state a node carries,
//! the props that configure it each frame, and the response handed back to
//! the caller of every widget call.
//!
//! The capability is a flat set of variants behind one instance type: each
//! variant constructs default state (`new`), accepts new configuration
//! (`update`), and owns a layout rule that the layout pass interprets.
//! Reconciliation compares only the variant tag; props may change freely
//! without disturbing a node's identity.

use vstd::prelude::*;
use crate::arena::Id;
use crate::geometry::{sat_add, Extent2};

verus! {

/// The concrete kind of a widget; node identity across frames requires the
/// variant at a tree position to stay the same.
#[derive(Clone, Copy, PartialEq, Eq, Structural, Debug)]
pub enum Variant {
    /// Stacks its children along one axis.
    List,
    /// Applies padding around its children.
    Pad,
    /// A leaf with an intrinsic content size.
    Fixed,
}

/// Padding around a single child widget, in pixels per edge.
#[derive(Clone, Copy, PartialEq, Eq, Structural, Debug)]
pub struct Pad {
    pub left: u32,
    pub right: u32,
    pub top: u32,
    pub bottom: u32,
}

impl Pad {
    pub fn zero() -> (r: Pad)
        ensures
            r.left == 0,
            r.right == 0,
            r.top == 0,
            r.bottom == 0,
    {
        Pad { left: 0, right: 0, top: 0, bottom: 0 }
    }

    /// The same padding on every edge.
    pub fn all(value: u32) -> (r: Pad)
        ensures
            r.left == value,
            r.right == value,
            r.top == value,
            r.bottom == value,
    {
        Pad { left: value, right: value, top: value, bottom: value }
    }

    /// One padding for the horizontal edges, another for the vertical ones.
    pub fn balanced(horizontal: u32, vertical: u32) -> (r: Pad)
        ensures
            r.left == horizontal,
            r.right == horizontal,
            r.top == vertical,
            r.bottom == vertical,
    {
        Pad { left: horizontal, right: horizontal, top: vertical, bottom: vertical }
    }

    /// Padding on the left and right edges only.
    pub fn horizontal(value: u32) -> (r: Pad)
        ensures
            r.left == value,
            r.right == value,
            r.top == 0,
            r.bottom == 0,
    {
        Pad { left: value, right: value, top: 0, bottom: 0 }
    }

    /// Padding on the top and bottom edges only.
    pub fn vertical(value: u32) -> (r: Pad)
        ensures
            r.left == 0,
            r.right == 0,
            r.top == value,
            r.bottom == value,
    {
        Pad { left: 0, right: 0, top: value, bottom: value }
    }

    /// Total horizontal and vertical overhead this padding adds.
    pub open spec fn spec_total(self) -> Extent2 {
        Extent2 { x: sat_add(self.left, self.right), y: sat_add(self.top, self.bottom) }
    }

    pub fn total(self) -> (r: Extent2)
        ensures
            r == self.spec_total(),
    {
        Extent2::new(self.left, 0).add_sat(Extent2::new(self.right, 0)).add_sat(
            Extent2::new(0, self.top),
        ).add_sat(Extent2::new(0, self.bottom))
    }

    /// Where a padded child's content origin sits relative to this widget.
    pub open spec fn spec_offset(self) -> Extent2 {
        Extent2 { x: self.left, y: self.top }
    }

    pub fn offset(self) -> (r: Extent2)
        ensures
            r == self.spec_offset(),
    {
        Extent2::new(self.left, self.top)
    }
}

/// Configuration of a stacking container.
#[derive(Clone, Copy, PartialEq, Eq, Structural, Debug)]
pub struct ListProps {
    /// Stack along the y axis when true, along the x axis otherwise.
    pub vertical: bool,
    /// Pixels inserted between adjacent children.
    pub spacing: u32,
}

impl ListProps {
    /// A vertical stack with no spacing.
    pub fn column() -> (r: ListProps)
        ensures
            r.vertical,
            r.spacing == 0,
    {
        ListProps { vertical: true, spacing: 0 }
    }

    /// A horizontal stack with no spacing.
    pub fn row() -> (r: ListProps)
        ensures
            !r.vertical,
            r.spacing == 0,
    {
        ListProps { vertical: false, spacing: 0 }
    }
}

/// Configuration of a leaf with an intrinsic content size.
#[derive(Clone, Copy, PartialEq, Eq, Structural, Debug)]
pub struct FixedProps {
    pub size: Extent2,
}

/// The configuration a widget call supplies; its constructor names the
/// variant the call asks for.
#[derive(Clone, Copy, PartialEq, Eq, Structural, Debug)]
pub enum WidgetProps {
    List(ListProps),
    Pad(Pad),
    Fixed(FixedProps),
}

impl WidgetProps {
    pub open spec fn spec_variant(self) -> Variant {
        match self {
            WidgetProps::List(_) => Variant::List,
            WidgetProps::Pad(_) => Variant::Pad,
            WidgetProps::Fixed(_) => Variant::Fixed,
        }
    }

    pub fn variant(&self) -> (r: Variant)
        ensures
            r == self.spec_variant(),
    {
        match self {
            WidgetProps::List(_) => Variant::List,
            WidgetProps::Pad(_) => Variant::Pad,
            WidgetProps::Fixed(_) => Variant::Fixed,
        }
    }
}

/// Per-node behavioral state of the padding widget.
#[derive(Clone, Copy, PartialEq, Eq, Structural, Debug)]
pub struct PadWidget {
    pub props: Pad,
}

impl PadWidget {
    pub fn new() -> (r: PadWidget)
        ensures
            r.props == (Pad { left: 0, right: 0, top: 0, bottom: 0 }),
    {
        PadWidget { props: Pad::zero() }
    }

    pub fn update(&mut self, props: Pad)
        ensures
            final(self).props == props,
    {
        self.props = props;
    }
}

/// Per-node behavioral state of the stacking widget.
#[derive(Clone, Copy, PartialEq, Eq, Structural, Debug)]
pub struct ListWidget {
    pub props: ListProps,
}

impl ListWidget {
    pub fn new() -> (r: ListWidget)
        ensures
            r.props == (ListProps { vertical: true, spacing: 0 }),
    {
        ListWidget { props: ListProps::column() }
    }

    pub fn update(&mut self, props: ListProps)
        ensures
            final(self).props == props,
    {
        self.props = props;
    }
}

/// Per-node behavioral state of the fixed-size leaf widget.
#[derive(Clone, Copy, PartialEq, Eq, Structural, Debug)]
pub struct FixedWidget {
    pub props: FixedProps,
}

impl FixedWidget {
    pub fn new() -> (r: FixedWidget)
        ensures
            r.props == (FixedProps { size: Extent2 { x: 0, y: 0 } }),
    {
        FixedWidget { props: FixedProps { size: Extent2::zero() } }
    }

    pub fn update(&mut self, props: FixedProps)
        ensures
            final(self).props == props,
    {
        self.props = props;
    }
}

/// The type-erased behavioral state stored per node: one live widget of some
/// variant. Created once per logical node, updated on every revisit, and
/// destroyed by the sweep; there is no detached-but-retained state.
#[derive(Clone, Copy, PartialEq, Eq, Structural, Debug)]
pub enum WidgetInstance {
    List(ListWidget),
    Pad(PadWidget),
    Fixed(FixedWidget),
}

impl WidgetInstance {
    pub open spec fn spec_variant(self) -> Variant {
        match self {
            WidgetInstance::List(_) => Variant::List,
            WidgetInstance::Pad(_) => Variant::Pad,
            WidgetInstance::Fixed(_) => Variant::Fixed,
        }
    }

    pub fn variant(&self) -> (r: Variant)
        ensures
            r == self.spec_variant(),
    {
        match self {
            WidgetInstance::List(_) => Variant::List,
            WidgetInstance::Pad(_) => Variant::Pad,
            WidgetInstance::Fixed(_) => Variant::Fixed,
        }
    }

    /// Default state for a variant, with no external inputs.
    pub open spec fn spec_new(variant: Variant) -> WidgetInstance {
        match variant {
            Variant::List => WidgetInstance::List(
                ListWidget { props: ListProps { vertical: true, spacing: 0 } },
            ),
            Variant::Pad => WidgetInstance::Pad(
                PadWidget { props: Pad { left: 0, right: 0, top: 0, bottom: 0 } },
            ),
            Variant::Fixed => WidgetInstance::Fixed(
                FixedWidget { props: FixedProps { size: Extent2 { x: 0, y: 0 } } },
            ),
        }
    }

    pub fn new(variant: Variant) -> (r: WidgetInstance)
        ensures
            r == WidgetInstance::spec_new(variant),
            r.spec_variant() == variant,
    {
        match variant {
            Variant::List => WidgetInstance::List(ListWidget::new()),
            Variant::Pad => WidgetInstance::Pad(PadWidget::new()),
            Variant::Fixed => WidgetInstance::Fixed(FixedWidget::new()),
        }
    }

    /// The state after applying `props`: the matching variant's props are
    /// replaced; props of a foreign variant leave the state untouched (the
    /// reconciler never applies foreign props, since a variant mismatch
    /// recreates the widget instead).
    pub open spec fn spec_updated(self, props: WidgetProps) -> WidgetInstance {
        match (self, props) {
            (WidgetInstance::List(_), WidgetProps::List(p)) => WidgetInstance::List(
                ListWidget { props: p },
            ),
            (WidgetInstance::Pad(_), WidgetProps::Pad(p)) => WidgetInstance::Pad(
                PadWidget { props: p },
            ),
            (WidgetInstance::Fixed(_), WidgetProps::Fixed(p)) => WidgetInstance::Fixed(
                FixedWidget { props: p },
            ),
            _ => self,
        }
    }

    /// Apply new configuration. The response a widget call returns carries
    /// only the node's identifier, so it depends on nothing `update` does;
    /// together with `lemma_update_idempotent` this makes a repeated update
    /// with the same props observationally silent.
    pub fn update(&mut self, props: WidgetProps)
        ensures
            *final(self) == old(self).spec_updated(props),
            final(self).spec_variant() == old(self).spec_variant(),
    {
        match (&*self, &props) {
            (WidgetInstance::List(_), WidgetProps::List(p)) => {
                *self = WidgetInstance::List(ListWidget { props: *p });
            },
            (WidgetInstance::Pad(_), WidgetProps::Pad(p)) => {
                *self = WidgetInstance::Pad(PadWidget { props: *p });
            },
            (WidgetInstance::Fixed(_), WidgetProps::Fixed(p)) => {
                *self = WidgetInstance::Fixed(FixedWidget { props: *p });
            },
            _ => {},
        }
    }
}

/// Updating a widget twice with the same props leaves exactly the state one
/// update leaves: the second application changes nothing, so its response
/// (which carries only the node's identifier) is the same as the first's.
pub proof fn lemma_update_idempotent(w: WidgetInstance, props: WidgetProps)
    ensures
        w.spec_updated(props).spec_updated(props) == w.spec_updated(props),
{
}

/// The value handed back to calling code after a widget call: the stable
/// identifier of the node the call resolved to, usable for lookups within
/// the same frame and as a stale-detected handle afterwards.
#[derive(Clone, Copy, PartialEq, Eq, Structural, Debug)]
pub struct Response {
    pub id: Id,
}

} // verus!
