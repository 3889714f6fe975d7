use ribir_layout::box_clamp::BoxClamp;
use ribir_layout::context::LifeCycleCtx;
use ribir_layout::flex::Flex;
use ribir_layout::geom::{Point, Rect, Size, Transform};
use ribir_layout::layout_info::VisualBox;
use ribir_layout::tree::{Render, WidgetTree};
use ribir_layout::widgets::{PlainBox, SizedBox};

/// A row of two boxes of 100 x 50 in a window of 500 x 500.
fn row_tree() -> (WidgetTree, usize, usize) {
    let mut tree = WidgetTree::new(Render::Flex(Flex::row()));
    let a = tree.append_child(0, Render::Sized(SizedBox { size: Size::new(100, 50) }));
    let b = tree.append_child(0, Render::Sized(SizedBox { size: Size::new(100, 50) }));
    tree.layout(BoxClamp::max_size(Size::new(500, 500)));
    (tree, a, b)
}

#[test]
fn map_to_parent_adds_the_position() {
    let (tree, _, b) = row_tree();
    assert_eq!(tree.map_to_parent(b, Point::new(3, 4)), Point::new(103, 4));
    assert_eq!(tree.map_from_parent(b, Point::new(103, 4)), Point::new(3, 4));
}

#[test]
fn round_trip_with_the_identity_is_exact() {
    let (mut tree, a, _) = row_tree();
    tree.set_transform(a, Some(Transform::identity()));
    let p = Point::new(-7, 9);
    assert_eq!(tree.map_from_parent(a, tree.map_to_parent(a, p)), p);
}

#[test]
fn round_trip_with_a_quarter_turn() {
    let (mut tree, _, b) = row_tree();
    let quarter = Transform { m11: 0, m12: 1, m21: -1, m22: 0, m31: 5, m32: 0 };
    tree.set_transform(b, Some(quarter));
    let p = Point::new(2, 3);
    let up = tree.map_to_parent(b, p);
    assert_eq!(up, Point::new(-3 + 5 + 100, 2));
    assert_eq!(tree.map_from_parent(b, up), p);
}

#[test]
fn a_scale_is_undone_on_the_way_back() {
    let (mut tree, _, b) = row_tree();
    let scale = Transform { m11: 2, m12: 0, m21: 0, m22: 2, m31: 0, m32: 0 };
    tree.set_transform(b, Some(scale));
    assert_eq!(tree.map_to_parent(b, Point::new(1000, 1000)), Point::new(2100, 2000));
    assert_eq!(tree.map_from_parent(b, Point::new(2100, 2000)), Point::new(1000, 1000));
    let g = tree.map_to_global(Point::new(1000, 1000), b);
    assert_eq!(tree.map_from_global(g, b), Point::new(1000, 1000));
}

#[test]
fn a_transform_without_inverse_is_skipped_on_the_way_back() {
    let (mut tree, _, b) = row_tree();
    let flat = Transform { m11: 1, m12: 1, m21: 1, m22: 1, m31: 0, m32: 0 };
    tree.set_transform(b, Some(flat));
    assert_eq!(tree.map_to_parent(b, Point::new(1, 2)), Point::new(103, 3));
    assert_eq!(tree.map_from_parent(b, Point::new(103, 3)), Point::new(3, 3));
}

#[test]
fn global_mapping_goes_through_every_ancestor() {
    let mut tree = WidgetTree::new(Render::Flex(Flex::row()));
    let a = tree.append_child(0, Render::Sized(SizedBox { size: Size::new(100, 50) }));
    let b = tree.append_child(0, Render::Flex(Flex::column()));
    let c = tree.append_child(b, Render::Plain(PlainBox { size: Size::new(20, 20) }));
    let d = tree.append_child(b, Render::Plain(PlainBox { size: Size::new(20, 20) }));
    tree.layout(BoxClamp::max_size(Size::new(500, 500)));
    assert_eq!(tree.layout_box_pos(a), Some(Point::new(0, 0)));
    assert_eq!(tree.layout_box_pos(d), Some(Point::new(0, 20)));
    let g = tree.map_to_global(Point::new(1, 2), d);
    assert_eq!(g, Point::new(101, 22));
    assert_eq!(tree.map_from_global(g, d), Point::new(1, 2));
    assert_eq!(tree.map_to_global(Point::new(1, 2), c), Point::new(101, 2));
    let ctx = LifeCycleCtx::new(&tree, d);
    assert_eq!(ctx.id(), d);
    assert_eq!(ctx.map_to_global(Point::zero()), Point::new(100, 20));
    assert_eq!(ctx.box_rect(), Some(Rect::new(Point::new(0, 20), Size::new(20, 20))));
}

#[test]
fn a_node_with_no_layout_maps_nothing() {
    let mut tree = WidgetTree::new(Render::Flex(Flex::row()));
    let a = tree.append_child(0, Render::Plain(PlainBox { size: Size::new(1, 1) }));
    assert_eq!(tree.map_to_parent(a, Point::new(4, 4)), Point::new(4, 4));
    assert_eq!(tree.widget_box_rect(a), None);
}

#[test]
fn visual_box_bounds() {
    let r = Rect::new(Point::new(0, 0), Size::new(10, 10));
    let s = Rect::new(Point::new(5, -5), Size::new(10, 10));
    assert_eq!(VisualBox { rect: None, subtree: None }.bounds_rect(), None);
    assert_eq!(VisualBox { rect: Some(r), subtree: None }.bounds_rect(), Some(r));
    assert_eq!(VisualBox { rect: None, subtree: Some(s) }.bounds_rect(), Some(s));
    assert_eq!(
        VisualBox { rect: Some(r), subtree: Some(s) }.bounds_rect(),
        Some(Rect::new(Point::new(0, -5), Size::new(15, 15)))
    );
}
