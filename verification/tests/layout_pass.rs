use yakui_core::dom::Dom;
use yakui_core::geometry::{Constraints, Extent2};
use yakui_core::layout::LayoutDom;
use yakui_core::widget::{FixedProps, ListProps, Pad, WidgetProps};

fn fixed(w: u32, h: u32) -> WidgetProps {
    WidgetProps::Fixed(FixedProps { size: Extent2::new(w, h) })
}

fn viewport(w: u32, h: u32) -> Constraints {
    Constraints::new(Extent2::zero(), Extent2::new(w, h))
}

#[test]
fn two_stacked_children_under_loose_constraints() {
    let mut dom = Dom::new();
    dom.start();
    let a = dom.enter(fixed(70, 30));
    dom.exit();
    let b = dom.enter(fixed(20, 50));
    dom.exit();
    dom.finish();

    let mut layout = LayoutDom::new();
    let root_size = layout.layout_all(&dom, viewport(200, 200));

    assert_eq!(root_size, Extent2::new(70, 80));
    let la = layout.get(a.id).expect("first child has a layout record");
    assert_eq!(la.size, Extent2::new(70, 30));
    assert_eq!(la.pos, Extent2::new(0, 0));
    let lb = layout.get(b.id).expect("second child has a layout record");
    assert_eq!(lb.size, Extent2::new(20, 50));
    assert_eq!(lb.pos, Extent2::new(0, 30));
    let lr = layout.get(dom.root_node()).expect("root has a layout record");
    assert_eq!(lr.size, Extent2::new(70, 80));
    assert_eq!(lr.pos, Extent2::new(0, 0));
    assert!(!lr.dirty);
}

#[test]
fn root_size_is_clamped_into_viewport() {
    let mut dom = Dom::new();
    dom.start();
    dom.enter(fixed(70, 30));
    dom.exit();
    dom.enter(fixed(20, 50));
    dom.exit();
    dom.finish();

    let mut layout = LayoutDom::new();
    let root_size = layout.layout_all(&dom, viewport(50, 50));
    assert_eq!(root_size, Extent2::new(50, 50));
}

#[test]
fn padding_adds_overhead_and_offsets_child() {
    let mut dom = Dom::new();
    dom.start();
    let pad = dom.enter(WidgetProps::Pad(Pad::all(5)));
    let child = dom.enter(fixed(30, 40));
    dom.exit();
    dom.exit();
    dom.finish();

    let mut layout = LayoutDom::new();
    let root_size = layout.layout_all(&dom, viewport(200, 200));

    assert_eq!(root_size, Extent2::new(40, 50));
    let lp = layout.get(pad.id).expect("pad has a layout record");
    assert_eq!(lp.size, Extent2::new(40, 50));
    let lc = layout.get(child.id).expect("padded child has a layout record");
    assert_eq!(lc.size, Extent2::new(30, 40));
    assert_eq!(lc.pos, Extent2::new(5, 5));
}

#[test]
fn asymmetric_padding_uses_left_and_top_offset() {
    let mut dom = Dom::new();
    dom.start();
    dom.enter(WidgetProps::Pad(Pad::balanced(7, 3)));
    let child = dom.enter(fixed(10, 10));
    dom.exit();
    dom.exit();
    dom.finish();

    let mut layout = LayoutDom::new();
    let root_size = layout.layout_all(&dom, viewport(200, 200));
    assert_eq!(root_size, Extent2::new(24, 16));
    let lc = layout.get(child.id).unwrap();
    assert_eq!(lc.pos, Extent2::new(7, 3));
}

#[test]
fn empty_padding_widget_takes_constraint_minimum() {
    let mut dom = Dom::new();
    dom.start();
    let pad = dom.enter(WidgetProps::Pad(Pad::all(9)));
    dom.exit();
    dom.finish();

    let mut layout = LayoutDom::new();
    let root_size = layout.layout_all(&dom, viewport(100, 100));
    assert_eq!(root_size, Extent2::new(0, 0));
    assert_eq!(layout.get(pad.id).unwrap().size, Extent2::new(0, 0));
}

#[test]
fn vertical_spacing_separates_children() {
    let mut dom = Dom::new();
    dom.start();
    let list = dom.enter(WidgetProps::List(ListProps { vertical: true, spacing: 10 }));
    let a = dom.enter(fixed(10, 10));
    dom.exit();
    let b = dom.enter(fixed(10, 10));
    dom.exit();
    dom.exit();
    dom.finish();

    let mut layout = LayoutDom::new();
    layout.layout_all(&dom, viewport(100, 100));

    assert_eq!(layout.get(list.id).unwrap().size, Extent2::new(10, 30));
    assert_eq!(layout.get(a.id).unwrap().pos, Extent2::new(0, 0));
    assert_eq!(layout.get(b.id).unwrap().pos, Extent2::new(0, 20));
}

#[test]
fn horizontal_list_sums_widths() {
    let mut dom = Dom::new();
    dom.start();
    let row = dom.enter(WidgetProps::List(ListProps::row()));
    let a = dom.enter(fixed(40, 60));
    dom.exit();
    let b = dom.enter(fixed(40, 60));
    dom.exit();
    let c = dom.enter(fixed(40, 60));
    dom.exit();
    dom.exit();
    dom.finish();

    let mut layout = LayoutDom::new();
    layout.layout_all(&dom, viewport(500, 500));

    assert_eq!(layout.get(row.id).unwrap().size, Extent2::new(120, 60));
    assert_eq!(layout.get(a.id).unwrap().pos, Extent2::new(0, 0));
    assert_eq!(layout.get(b.id).unwrap().pos, Extent2::new(40, 0));
    assert_eq!(layout.get(c.id).unwrap().pos, Extent2::new(80, 0));
}

#[test]
fn unvisited_record_stays_dirty() {
    let mut dom = Dom::new();
    dom.start();
    dom.enter(fixed(10, 10));
    dom.exit();
    let b = dom.enter(fixed(20, 20));
    dom.exit();
    dom.finish();

    let mut layout = LayoutDom::new();
    layout.layout_all(&dom, viewport(100, 100));
    assert!(!layout.get(b.id).unwrap().dirty);

    // Next frame only revisits the first child; the second is swept.
    dom.start();
    dom.enter(fixed(10, 10));
    dom.exit();
    dom.finish();

    layout.layout_all(&dom, viewport(100, 100));
    // The swept node's record keeps its stale data, flagged dirty — it was
    // not refreshed by this pass and must never be mistaken for fresh.
    let stale = layout.get(b.id).expect("stale record is retained");
    assert!(stale.dirty);
    assert_eq!(stale.size, Extent2::new(20, 20));
}

#[test]
fn relayout_after_reconciliation_updates_sizes() {
    let mut dom = Dom::new();
    dom.start();
    let a = dom.enter(fixed(10, 10));
    dom.exit();
    dom.finish();

    let mut layout = LayoutDom::new();
    layout.layout_all(&dom, viewport(100, 100));
    assert_eq!(layout.get(a.id).unwrap().size, Extent2::new(10, 10));

    dom.start();
    let a2 = dom.enter(fixed(33, 44));
    dom.exit();
    dom.finish();
    assert_eq!(a.id, a2.id);

    layout.layout_all(&dom, viewport(100, 100));
    assert_eq!(layout.get(a.id).unwrap().size, Extent2::new(33, 44));
}

#[test]
fn nested_column_with_row_of_buttons() {
    let mut dom = Dom::new();
    dom.start();
    let wide = dom.enter(fixed(70, 30));
    dom.exit();
    let row = dom.enter(WidgetProps::List(ListProps::row()));
    let r1 = dom.enter(fixed(40, 60));
    dom.exit();
    let r2 = dom.enter(fixed(40, 60));
    dom.exit();
    let r3 = dom.enter(fixed(40, 60));
    dom.exit();
    dom.exit();
    let small = dom.enter(fixed(20, 50));
    dom.exit();
    dom.finish();

    let mut layout = LayoutDom::new();
    let root_size = layout.layout_all(&dom, viewport(800, 600));

    assert_eq!(root_size, Extent2::new(120, 140));
    assert_eq!(layout.get(wide.id).unwrap().pos, Extent2::new(0, 0));
    assert_eq!(layout.get(row.id).unwrap().pos, Extent2::new(0, 30));
    assert_eq!(layout.get(row.id).unwrap().size, Extent2::new(120, 60));
    assert_eq!(layout.get(r1.id).unwrap().pos, Extent2::new(0, 0));
    assert_eq!(layout.get(r2.id).unwrap().pos, Extent2::new(40, 0));
    assert_eq!(layout.get(r3.id).unwrap().pos, Extent2::new(80, 0));
    assert_eq!(layout.get(small.id).unwrap().pos, Extent2::new(0, 90));
    assert_eq!(layout.get(small.id).unwrap().size, Extent2::new(20, 50));
}
