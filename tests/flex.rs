use ribir_layout::box_clamp::BoxClamp;
use ribir_layout::flex::{Align, Direction, Flex, JustifyContent};
use ribir_layout::geom::{Point, Rect, Size};
use ribir_layout::tree::{Render, WidgetTree};
use ribir_layout::widgets::SizedBox;

/// Lays out a flex container of sized boxes under the clamp of a window of
/// `window`, and returns its box and the boxes of its children.
fn flex_with_children(flex: Flex, sizes: &[Size], window: Size) -> (Rect, Vec<Rect>) {
    let mut tree = WidgetTree::new(Render::Flex(flex));
    let ids: Vec<usize> = sizes
        .iter()
        .map(|s| tree.append_child(0, Render::Sized(SizedBox { size: *s })))
        .collect();
    tree.layout(BoxClamp::max_size(window));
    let rect = tree.widget_box_rect(0).unwrap();
    let children = ids.iter().map(|id| tree.widget_box_rect(*id).unwrap()).collect();
    (rect, children)
}

/// Lays out a flex container that a sized box of `outer` holds.
fn flex_in_box(flex: Flex, sizes: &[Size], outer: Size, window: Size) -> (Rect, Vec<Rect>) {
    let mut tree = WidgetTree::new(Render::Sized(SizedBox { size: outer }));
    let row = tree.append_child(0, Render::Flex(flex));
    let ids: Vec<usize> = sizes
        .iter()
        .map(|s| tree.append_child(row, Render::Sized(SizedBox { size: *s })))
        .collect();
    tree.layout(BoxClamp::max_size(window));
    let rect = tree.widget_box_rect(row).unwrap();
    let children = ids.iter().map(|id| tree.widget_box_rect(*id).unwrap()).collect();
    (rect, children)
}


#[test]
fn horizontal_line() {
    let sizes = vec![Size::new(10, 20); 10];
    let (rect, _) = flex_with_children(Flex::new(), &sizes, Size::new(500, 500));
    assert_eq!(rect.size, Size::new(100, 20));
}

#[test]
fn vertical_line() {
    let sizes = vec![Size::new(10, 20); 10];
    let col = Flex { direction: Direction::Vertical, ..Flex::new() };
    let (rect, _) = flex_with_children(col, &sizes, Size::new(500, 500));
    assert_eq!(rect.size, Size::new(10, 200));
}

#[test]
fn row_wrap() {
    let size = Size::new(200, 20);
    let row = Flex { wrap: true, ..Flex::new() };
    let (rect, children) = flex_with_children(row, &[size; 3], Size::new(500, 500));
    assert_eq!(rect.size, Size::new(400, 40));
    assert_eq!(children, vec![rect_at(0, 0, size), rect_at(200, 0, size), rect_at(0, 20, size)]);
}

fn rect_at(x: i64, y: i64, size: Size) -> Rect {
    Rect { origin: Point::new(x, y), size }
}

#[test]
fn reverse_row_wrap() {
    let size = Size::new(200, 20);
    let row = Flex { wrap: true, reverse: true, ..Flex::new() };
    let (rect, children) = flex_with_children(row, &[size; 3], Size::new(500, 500));
    assert_eq!(rect.size, Size::new(400, 40));
    assert_eq!(children, vec![rect_at(0, 20, size), rect_at(200, 0, size), rect_at(0, 0, size)]);
}

fn cross_align_check(align: Align, y_pos: [i64; 3]) {
    let row = Flex { align_items: align, ..Flex::row() };
    let sizes = [Size::new(100, 20), Size::new(100, 30), Size::new(100, 40)];
    let (rect, children) = flex_with_children(row, &sizes, Size::new(500, 500));
    assert_eq!(rect.size, Size::new(300, 40));
    assert_eq!(
        children,
        vec![
            rect_at(0, y_pos[0], Size::new(100, 20)),
            rect_at(100, y_pos[1], Size::new(100, 30)),
            rect_at(200, y_pos[2], Size::new(100, 40)),
        ]
    );
}

#[test]
fn cross_align() {
    cross_align_check(Align::Start, [0, 0, 0]);
    cross_align_check(Align::Center, [10, 5, 0]);
    cross_align_check(Align::End, [20, 10, 0]);

    let row = Flex { align_items: Align::Stretch, ..Flex::row() };
    let sizes = [Size::new(100, 20), Size::new(100, 30), Size::new(100, 40)];
    let (rect, children) = flex_with_children(row, &sizes, Size::new(500, 500));
    assert_eq!(rect.size, Size::new(300, 40));
    assert_eq!(
        children,
        vec![
            rect_at(0, 0, Size::new(100, 40)),
            rect_at(100, 0, Size::new(100, 40)),
            rect_at(200, 0, Size::new(100, 40)),
        ]
    );
}

fn main_align_check(justify_content: JustifyContent, pos: [(i64, i64); 3]) {
    let item_size = Size::new(100, 20);
    let row = Flex { justify_content, align_items: Align::Start, ..Flex::row() };
    // The row is given exactly the 500 x 500 of the window.
    let (rect, children) =
        flex_in_box(row, &[item_size; 3], Size::new(500, 500), Size::new(500, 500));
    assert_eq!(rect.size.width, 500);
    assert_eq!(rect.size.height, 500);
    for (child, (x, y)) in children.iter().zip(pos.iter()) {
        assert_eq!(child.origin.x, *x);
        assert_eq!(child.origin.y, *y);
    }
}

#[test]
fn main_align() {
    main_align_check(JustifyContent::Start, [(0, 0), (100, 0), (200, 0)]);
    main_align_check(JustifyContent::Center, [(100, 0), (200, 0), (300, 0)]);
    main_align_check(JustifyContent::End, [(200, 0), (300, 0), (400, 0)]);
    main_align_check(JustifyContent::SpaceBetween, [(0, 0), (200, 0), (400, 0)]);
    // Positions are whole pixels: the exact offsets, truncated.
    let space = 200.0_f64 / 3.0;
    main_align_check(
        JustifyContent::SpaceAround,
        [
            ((0.5 * space) as i64, 0),
            ((100. + space * 1.5) as i64, 0),
            ((2.5 * space + 200.) as i64, 0),
        ],
    );
    main_align_check(JustifyContent::SpaceEvenly, [(50, 0), (200, 0), (350, 0)]);
}

#[test]
fn space_between_three_equal_children_in_a_wide_bound() {
    let row = Flex { justify_content: JustifyContent::SpaceBetween, ..Flex::row() };
    let (rect, children) =
        flex_in_box(row, &[Size::new(100, 20); 3], Size::new(500, 20), Size::new(500, 500));
    assert_eq!(rect.size, Size::new(500, 20));
    let xs: Vec<i64> = children.iter().map(|c| c.origin.x).collect();
    assert_eq!(xs, vec![0, 200, 400]);
}

#[test]
fn space_between_single_child_starts_at_zero() {
    let row = Flex { justify_content: JustifyContent::SpaceBetween, ..Flex::row() };
    let (_, children) =
        flex_in_box(row, &[Size::new(100, 20)], Size::new(500, 20), Size::new(500, 500));
    assert_eq!(children[0].origin, Point::new(0, 0));
}

#[test]
fn wrap_breaks_into_two_lines() {
    let row = Flex { wrap: true, ..Flex::row() };
    let size = Size::new(200, 30);
    let (rect, children) = flex_with_children(row, &[size; 3], Size::new(500, 500));
    assert_eq!(rect.size, Size::new(400, 60));
    assert_eq!(children[0].origin.y, 0);
    assert_eq!(children[1].origin.y, 0);
    assert_eq!(children[2].origin, Point::new(0, 30));
}

#[test]
fn without_wrap_one_line_overflows() {
    let (rect, children) =
        flex_with_children(Flex::row(), &[Size::new(200, 30); 3], Size::new(500, 500));
    assert_eq!(rect.size, Size::new(500, 30));
    assert_eq!(children[2].origin, Point::new(400, 0));
}

#[test]
fn stretch_gives_every_child_the_line_height() {
    let row = Flex { align_items: Align::Stretch, ..Flex::row() };
    let sizes = [Size::new(100, 20), Size::new(100, 30), Size::new(100, 40)];
    let (_, children) = flex_with_children(row, &sizes, Size::new(500, 500));
    let heights: Vec<u32> = children.iter().map(|c| c.size.height).collect();
    assert_eq!(heights, vec![40, 40, 40]);
}

#[test]
fn flexible_children_share_the_free_space() {
    let mut tree = WidgetTree::new(Render::Sized(SizedBox { size: Size::new(500, 100) }));
    let row = tree.append_child(0, Render::Flex(Flex::row()));
    let fixed = tree.append_child(row, Render::Sized(SizedBox { size: Size::new(100, 20) }));
    let a = tree.append_child(row, Render::Sized(SizedBox { size: Size::new(0, 20) }));
    let b = tree.append_child(row, Render::Sized(SizedBox { size: Size::new(0, 20) }));
    tree.set_flex(a, Some(1));
    tree.set_flex(b, Some(3));
    tree.layout(BoxClamp::max_size(Size::new(800, 800)));
    let ra = tree.widget_box_rect(a).unwrap();
    let rb = tree.widget_box_rect(b).unwrap();
    assert_eq!(tree.widget_box_rect(fixed).unwrap().origin, Point::new(0, 0));
    assert_eq!(ra.size.width, 100);
    assert_eq!(ra.origin.x, 100);
    assert_eq!(rb.size.width, 300);
    assert_eq!(rb.origin.x, 200);
}

#[test]
fn zero_flex_factors_leave_sizes_alone() {
    let mut tree = WidgetTree::new(Render::Sized(SizedBox { size: Size::new(500, 100) }));
    let row = tree.append_child(0, Render::Flex(Flex::row()));
    let a = tree.append_child(row, Render::Sized(SizedBox { size: Size::new(50, 20) }));
    tree.set_flex(a, Some(0));
    tree.layout(BoxClamp::max_size(Size::new(800, 800)));
    assert_eq!(tree.widget_box_rect(a).unwrap().size, Size::new(50, 20));
}

#[test]
fn column_centers_on_the_cross_axis_of_a_fixed_box() {
    let col = Flex { direction: Direction::Vertical, align_items: Align::Center, ..Flex::new() };
    let (rect, children) =
        flex_in_box(col, &[Size::new(20, 10), Size::new(40, 10)], Size::new(100, 100), Size::new(500, 500));
    assert_eq!(rect.size, Size::new(100, 100));
    assert_eq!(children[0].origin, Point::new(40, 0));
    assert_eq!(children[1].origin, Point::new(30, 10));
}

#[test]
fn justify_offsets_of_each_mode() {
    assert_eq!(JustifyContent::Start.offset(500, 300, 3, 2), 0);
    assert_eq!(JustifyContent::Center.offset(500, 300, 3, 0), 100);
    assert_eq!(JustifyContent::End.offset(500, 300, 3, 1), 200);
    assert_eq!(JustifyContent::SpaceBetween.offset(500, 300, 3, 2), 200);
    assert_eq!(JustifyContent::SpaceBetween.offset(500, 300, 1, 0), 0);
    assert_eq!(JustifyContent::SpaceAround.offset(500, 300, 3, 1), 100);
    assert_eq!(JustifyContent::SpaceEvenly.offset(500, 300, 3, 0), 50);
    assert_eq!(JustifyContent::Center.offset(100, 301, 1, 0), -100);
}

#[test]
fn align_values() {
    assert_eq!(Align::Start.align_value(20, 40), 0);
    assert_eq!(Align::Center.align_value(20, 40), 10);
    assert_eq!(Align::End.align_value(20, 40), 20);
    assert_eq!(Align::Stretch.align_value(20, 40), 0);
    assert_eq!(Align::Center.align_value(45, 40), -2);
}

#[test]
fn a_line_of_zero_width_children_keeps_its_height() {
    let row = Flex { wrap: true, ..Flex::row() };
    let (rect, _) = flex_with_children(row, &[Size::new(0, 20); 2], Size::new(500, 500));
    assert_eq!(rect.size, Size::new(0, 20));
}
