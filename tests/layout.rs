use ribir_layout::box_clamp::BoxClamp;
use ribir_layout::geom::{Point, Size};
use ribir_layout::layout::perform_child_layout;
use ribir_layout::tree::{Render, WidgetTree};
use ribir_layout::widgets::{IgnorePointer, PlainBox, SizedBox, Stack, StackFit, Visibility};

fn plain(w: u32, h: u32) -> Render {
    Render::Plain(PlainBox { size: Size::new(w, h) })
}

fn sized(w: u32, h: u32) -> Render {
    Render::Sized(SizedBox { size: Size::new(w, h) })
}

fn window() -> BoxClamp {
    BoxClamp::max_size(Size::new(500, 500))
}

#[test]
fn relayout_from_parent() {
    let mut tree = WidgetTree::new(plain(50, 50));
    let child = tree.append_child(0, plain(0, 0));
    tree.layout(window());
    assert_eq!(tree.performed_count(0), 1);

    tree.set_render(child, plain(10, 10));
    tree.mark_dirty(child);
    tree.layout(window());
    assert_eq!(tree.performed_count(0), 2);
    assert_eq!(tree.layout_box_size(child), Some(Size::new(10, 10)));
}

#[test]
fn second_pass_on_an_unchanged_tree_changes_nothing() {
    let mut tree = WidgetTree::new(plain(100, 100));
    let a = tree.append_child(0, sized(40, 40));
    let b = tree.append_child(a, plain(10, 10));
    tree.layout(window());
    let before: Vec<_> = (0..tree.len()).map(|i| tree.layout_info(i)).collect();
    let counts: Vec<u64> = (0..tree.len()).map(|i| tree.performed_count(i)).collect();
    tree.layout(window());
    let after: Vec<_> = (0..tree.len()).map(|i| tree.layout_info(i)).collect();
    let counts_after: Vec<u64> = (0..tree.len()).map(|i| tree.performed_count(i)).collect();
    assert_eq!(before, after);
    assert_eq!(counts, counts_after);
    assert_eq!(tree.layout_box_size(b), Some(Size::new(40, 40)));
}

#[test]
fn sizes_stay_within_their_clamps() {
    let mut tree = WidgetTree::new(plain(900, 20));
    let a = tree.append_child(0, plain(5, 5));
    let clamp = BoxClamp { min: Size::new(30, 30), max: Size::new(400, 400) };
    let size = tree.layout(clamp);
    assert_eq!(size, Size::new(400, 30));
    for id in [0, a] {
        let info = tree.layout_info(id).unwrap();
        let s = info.size.unwrap();
        assert!(info.clamp.min.width <= s.width && s.width <= info.clamp.max.width);
        assert!(info.clamp.min.height <= s.height && s.height <= info.clamp.max.height);
    }
    assert_eq!(tree.layout_box_size(a), Some(Size::new(30, 30)));
}

#[test]
fn a_child_sized_by_its_parent_is_served_from_the_cache() {
    let mut tree = WidgetTree::new(plain(100, 100));
    let fixed = tree.append_child(0, sized(40, 40));
    let other = tree.append_child(0, plain(10, 10));
    tree.layout(window());
    assert_eq!(tree.performed_count(fixed), 1);

    tree.set_render(other, plain(20, 20));
    tree.mark_dirty(other);
    tree.layout(window());
    assert_eq!(tree.performed_count(0), 2);
    assert_eq!(tree.performed_count(other), 2);
    assert_eq!(tree.performed_count(fixed), 1);
}

#[test]
fn a_cached_layout_is_served_without_computing() {
    let mut tree = WidgetTree::new(plain(100, 100));
    let child = tree.append_child(0, plain(10, 10));
    let clamp = BoxClamp::fixed_size(Size::new(30, 30));
    let r1 = perform_child_layout(&tree.nodes, &mut tree.store, child, clamp);
    let r2 = perform_child_layout(&tree.nodes, &mut tree.store, child, clamp);
    assert_eq!(r1, Size::new(30, 30));
    assert_eq!(r1, r2);
    assert_eq!(tree.performed_count(child), 1);
    let r3 = perform_child_layout(&tree.nodes, &mut tree.store, child, BoxClamp::max_size(Size::new(50, 50)));
    assert_eq!(r3, Size::new(10, 10));
    assert_eq!(tree.performed_count(child), 2);
}

#[test]
fn a_change_deep_in_a_chain_lays_out_each_level_once() {
    let mut tree = WidgetTree::new(plain(200, 200));
    let a = tree.append_child(0, plain(50, 50));
    let b = tree.append_child(a, plain(50, 50));
    let c = tree.append_child(b, plain(0, 0));
    let s = tree.append_child(0, sized(30, 30));
    let s1 = tree.append_child(s, plain(5, 5));
    tree.layout(window());
    let sibling = (tree.layout_info(s), tree.layout_info(s1));
    for id in [0, a, b, c, s, s1] {
        assert_eq!(tree.performed_count(id), 1);
    }

    tree.set_render(c, plain(10, 10));
    tree.mark_dirty(c);
    tree.layout(window());
    for id in [0, a, b, c] {
        assert_eq!(tree.performed_count(id), 2);
    }
    assert_eq!(tree.layout_box_size(c), Some(Size::new(10, 10)));
    assert_eq!(tree.performed_count(s), 1);
    assert_eq!(tree.performed_count(s1), 1);
    assert_eq!((tree.layout_info(s), tree.layout_info(s1)), sibling);

    tree.set_render(c, plain(20, 20));
    tree.mark_dirty(c);
    tree.layout(window());
    for id in [0, a, b, c] {
        assert_eq!(tree.performed_count(id), 3);
    }
    assert_eq!(tree.layout_box_size(c), Some(Size::new(20, 20)));
}

#[test]
fn dirtiness_stops_at_a_box_sized_by_its_parent() {
    let mut tree = WidgetTree::new(plain(200, 200));
    let fixed = tree.append_child(0, sized(50, 50));
    let inner = tree.append_child(fixed, plain(5, 5));
    tree.layout(window());
    tree.set_render(inner, plain(7, 7));
    tree.mark_dirty(inner);
    assert_eq!(tree.dirty, vec![fixed]);
    assert_eq!(tree.layout_box_size(0), Some(Size::new(200, 200)));
    assert_eq!(tree.layout_box_size(fixed), None);
    tree.layout(window());
    assert_eq!(tree.performed_count(0), 1);
    assert_eq!(tree.performed_count(fixed), 2);
    assert_eq!(tree.performed_count(inner), 2);
    assert!(tree.dirty.is_empty());
}

#[test]
fn a_replaced_subtree_is_laid_out_afresh() {
    let mut tree = WidgetTree::new(plain(200, 200));
    let a = tree.append_child(0, plain(20, 20));
    tree.layout(window());
    tree.mark_structural_change(a);
    assert_eq!(tree.layout_info(a), None);
    tree.layout(window());
    assert_eq!(tree.layout_box_size(a), Some(Size::new(20, 20)));
    assert_eq!(tree.performed_count(a), 2);
}

#[test]
fn a_new_child_is_laid_out_after_its_parent_is_marked() {
    let mut tree = WidgetTree::new(plain(200, 200));
    tree.layout(window());
    let a = tree.append_child(0, plain(20, 20));
    tree.mark_dirty(a);
    tree.layout(window());
    assert_eq!(tree.layout_box_size(a), Some(Size::new(20, 20)));
}

#[test]
fn sized_box_forces_its_size_on_its_child() {
    let mut tree = WidgetTree::new(sized(100, 100));
    let child = tree.append_child(0, plain(10, 10));
    tree.layout(window());
    assert_eq!(tree.layout_box_size(0), Some(Size::new(100, 100)));
    assert_eq!(tree.layout_box_size(child), Some(Size::new(100, 100)));
}

#[test]
fn expanded_size() {
    let mut tree = WidgetTree::new(Render::Sized(SizedBox { size: Size::infinite() }));
    let child = tree.append_child(0, plain(0, 0));
    tree.layout(window());
    assert_eq!(tree.layout_box_size(0), Some(Size::new(500, 500)));
    assert_eq!(tree.layout_box_size(child), Some(Size::infinite()));
}

#[test]
fn layout_info_or_default_inserts_a_missing_entry() {
    let mut tree = WidgetTree::new(plain(1, 1));
    assert_eq!(tree.layout_info(0), None);
    let info = tree.store.layout_info_or_default(0);
    assert_eq!(info.size, None);
    assert_eq!(tree.layout_info(0), Some(info));
}

#[test]
fn hidden_visibility_takes_no_room() {
    let mut tree = WidgetTree::new(Render::Visibility(Visibility::new(false)));
    let child = tree.append_child(0, plain(10, 10));
    tree.layout(window());
    assert_eq!(tree.layout_box_size(0), Some(Size::new(0, 0)));
    assert_eq!(tree.layout_info(child), None);

    tree.set_render(0, Render::Visibility(Visibility::new(true)));
    tree.mark_dirty(0);
    tree.layout(window());
    assert_eq!(tree.layout_box_size(0), Some(Size::new(10, 10)));
}

#[test]
fn ignore_pointer_takes_its_child_size() {
    let mut tree = WidgetTree::new(Render::IgnorePointer(IgnorePointer::new(true)));
    tree.append_child(0, plain(12, 8));
    tree.layout(window());
    assert_eq!(tree.layout_box_size(0), Some(Size::new(12, 8)));
    assert!(!IgnorePointer::new(true).hit_test().can_hit_child);
    assert!(IgnorePointer::new(false).hit_test().can_hit_child);
    assert!(!Visibility::new(false).hit_test().can_hit_child);
}

#[test]
fn stack_takes_its_largest_child() {
    let mut tree = WidgetTree::new(Render::Stack(Stack { fit: StackFit::Loose }));
    let a = tree.append_child(0, plain(30, 10));
    let b = tree.append_child(0, plain(10, 40));
    let c = tree.append_child(0, plain(100, 100));
    tree.set_in_parent_layout(c, true);
    tree.layout(BoxClamp { min: Size::new(20, 20), max: Size::new(500, 500) });
    assert_eq!(tree.layout_box_size(0), Some(Size::new(30, 40)));
    assert_eq!(tree.layout_box_size(a), Some(Size::new(30, 10)));
    assert_eq!(tree.layout_box_size(b), Some(Size::new(10, 40)));
    assert_eq!(tree.layout_box_size(c), Some(Size::new(30, 40)));
}

#[test]
fn expanded_stack_fixes_finite_bounds() {
    let mut tree = WidgetTree::new(Render::Stack(Stack { fit: StackFit::Expand }));
    let a = tree.append_child(0, plain(30, 10));
    tree.layout(BoxClamp::max_width(200));
    assert_eq!(tree.layout_box_size(a), Some(Size::new(200, 10)));
    assert_eq!(tree.layout_box_size(0), Some(Size::new(200, 10)));
}

#[test]
fn positions_do_not_change_without_a_layout() {
    let mut tree = WidgetTree::new(plain(100, 100));
    let a = tree.append_child(0, plain(10, 10));
    tree.layout(window());
    tree.store.update_position(a, Point::new(5, 6));
    assert_eq!(tree.layout_box_pos(a), Some(Point::new(5, 6)));
    tree.layout(window());
    assert_eq!(tree.layout_box_pos(a), Some(Point::new(5, 6)));
    assert_eq!(tree.performed_count(a), 1);
}

#[test]
fn fix_incorrect_relayout_root() {
    // A widget put in place of another has no layout info, but its parent has.
    let mut tree = WidgetTree::new(plain(0, 0));
    let child = tree.append_child(0, plain(1, 1));
    tree.layout(window());
    assert_eq!(tree.performed_count(0), 1);

    tree.set_render(child, plain(2, 2));
    tree.mark_structural_change(child);
    tree.layout(window());
    assert_eq!(tree.performed_count(0), 2);
    assert_eq!(tree.layout_box_size(child), Some(Size::new(2, 2)));
}
