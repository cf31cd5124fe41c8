use yakui_core::dom::Dom;
use yakui_core::geometry::Extent2;
use yakui_core::widget::{
    FixedProps, ListProps, Pad, Variant, WidgetInstance, WidgetProps,
};

fn fixed(w: u32, h: u32) -> WidgetProps {
    WidgetProps::Fixed(FixedProps { size: Extent2::new(w, h) })
}

#[test]
fn identity_stable_across_identical_frames() {
    let mut dom = Dom::new();

    dom.start();
    let a1 = dom.enter(fixed(10, 10));
    dom.exit();
    let b1 = dom.enter(WidgetProps::Pad(Pad::all(4)));
    dom.exit();
    dom.finish();

    dom.start();
    let a2 = dom.enter(fixed(10, 10));
    dom.exit();
    let b2 = dom.enter(WidgetProps::Pad(Pad::all(4)));
    dom.exit();
    dom.finish();

    assert_eq!(a1.id, a2.id);
    assert_eq!(b1.id, b2.id);
}

#[test]
fn identity_stable_when_only_props_change() {
    let mut dom = Dom::new();

    dom.start();
    let a1 = dom.enter(fixed(10, 10));
    dom.exit();
    dom.finish();

    dom.start();
    let a2 = dom.enter(fixed(99, 1));
    dom.exit();
    dom.finish();

    assert_eq!(a1.id, a2.id);
    let w = dom.widget_of(a1.id).expect("node should be live");
    let mut expected = WidgetInstance::new(Variant::Fixed);
    expected.update(WidgetProps::Fixed(FixedProps { size: Extent2::new(99, 1) }));
    assert_eq!(*w, expected);
}

#[test]
fn variant_change_replaces_node() {
    let mut dom = Dom::new();

    dom.start();
    let a1 = dom.enter(fixed(10, 10));
    dom.exit();
    dom.finish();

    dom.start();
    let a2 = dom.enter(WidgetProps::List(ListProps::column()));
    dom.exit();
    dom.finish();

    assert_ne!(a1.id, a2.id);
    assert!(!dom.contains(a1.id));
    assert!(dom.contains(a2.id));
}

#[test]
fn sweep_removes_unrevisited_subtree() {
    let mut dom = Dom::new();

    dom.start();
    let list = dom.enter(WidgetProps::List(ListProps::column()));
    let c1 = dom.enter(fixed(5, 5));
    dom.exit();
    let c2 = dom.enter(fixed(6, 6));
    dom.exit();
    dom.exit();
    dom.finish();

    assert!(dom.contains(list.id));
    assert!(dom.contains(c1.id));
    assert!(dom.contains(c2.id));

    dom.start();
    dom.finish();

    assert!(!dom.contains(list.id));
    assert!(!dom.contains(c1.id));
    assert!(!dom.contains(c2.id));
    assert!(dom.contains(dom.root_node()));
}

#[test]
fn removing_middle_child_recreates_shifted_tail() {
    let mut dom = Dom::new();

    // Frame F: children with variants [Fixed, List, Pad].
    dom.start();
    let a1 = dom.enter(fixed(1, 1));
    dom.exit();
    let b1 = dom.enter(WidgetProps::List(ListProps::row()));
    dom.exit();
    let c1 = dom.enter(WidgetProps::Pad(Pad::all(2)));
    dom.exit();
    dom.finish();

    // Frame F+1: children with variants [Fixed, Pad] — the middle child is
    // gone. Matching is strictly positional: the Pad call now sits at index
    // 1 where the List lived, so the old Pad node is recreated, not reused.
    dom.start();
    let a2 = dom.enter(fixed(1, 1));
    dom.exit();
    let c2 = dom.enter(WidgetProps::Pad(Pad::all(2)));
    dom.exit();
    dom.finish();

    assert_eq!(a1.id, a2.id);
    assert_ne!(c1.id, c2.id);
    assert!(!dom.contains(b1.id));
    assert!(!dom.contains(c1.id));
    assert!(dom.contains(a2.id));
    assert!(dom.contains(c2.id));
}

#[test]
fn update_twice_with_same_props_is_idempotent() {
    let props = WidgetProps::Fixed(FixedProps { size: Extent2::new(10, 20) });
    let mut once = WidgetInstance::new(Variant::Fixed);
    once.update(props);
    let mut twice = once;
    twice.update(props);
    assert_eq!(once, twice);
}

#[test]
fn stale_response_lookups_answer_absent() {
    let mut dom = Dom::new();

    dom.start();
    let a = dom.enter(fixed(10, 10));
    dom.exit();
    dom.finish();

    dom.start();
    dom.finish();

    assert!(!dom.contains(a.id));
    assert!(dom.widget_of(a.id).is_none());
    assert!(dom.node_ref(a.id).is_none());
}

#[test]
fn get_current_tracks_cursor_children() {
    let mut dom = Dom::new();

    dom.start();
    let list = dom.enter(WidgetProps::List(ListProps::column()));
    let c1 = dom.enter(fixed(5, 5));
    dom.exit();
    let current = dom.get_current();
    assert_eq!(current.children.len(), 1);
    assert_eq!(current.children[0], c1.id);
    assert_eq!(current.next_child, 1);
    dom.exit();
    dom.finish();

    let node = dom.node_ref(list.id).expect("list node is live");
    assert_eq!(node.parent, Some(dom.root_node()));
}

#[test]
fn frame_lifecycle_flags() {
    let mut dom = Dom::new();
    assert!(!dom.is_frame_active());
    assert_eq!(dom.current_frame(), 0);
    dom.start();
    assert!(dom.is_frame_active());
    assert_eq!(dom.current_frame(), 1);
    assert_eq!(dom.depth(), 1);
    dom.finish();
    assert!(!dom.is_frame_active());
}

#[test]
fn replacement_destroys_subtree_before_finish() {
    let mut dom = Dom::new();

    dom.start();
    dom.enter(WidgetProps::List(ListProps::column()));
    let child = dom.enter(fixed(5, 5));
    let grandchild = dom.enter(fixed(1, 1));
    dom.exit();
    dom.exit();
    dom.exit();
    dom.finish();

    assert!(dom.contains(child.id));
    assert!(dom.contains(grandchild.id));

    // The next frame asks for a different variant at the list's position.
    // The stale list and its entire subtree must be unreachable right after
    // the replacing call, before the frame is even finished.
    dom.start();
    let replacement = dom.enter(WidgetProps::Pad(Pad::all(1)));
    assert!(!dom.contains(child.id));
    assert!(!dom.contains(grandchild.id));
    assert!(dom.widget_of(child.id).is_none());
    assert!(dom.widget_of(grandchild.id).is_none());
    assert!(dom.contains(replacement.id));
    dom.exit();
    dom.finish();
}
