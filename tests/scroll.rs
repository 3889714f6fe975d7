use ribir_layout::geom::{Point, Size};
use ribir_layout::scrollable::{Scrollable, ScrollableWidget};

/// Scrolls a content of 1000 x 1000 in a view of 100 x 100 by the delta, and
/// checks where the content ends up.
fn test_assert(scrollable: Scrollable, delta_x: i64, delta_y: i64, expect_x: i64, expect_y: i64) {
    let mut w = ScrollableWidget::new(scrollable);
    w.set_page_size(Size::new(100, 100));
    w.set_content_size(Size::new(1000, 1000));
    w.validate_scroll(Point::new(delta_x, delta_y));
    assert_eq!(w.pos.x, expect_x);
    assert_eq!(w.pos.y, expect_y);
}

#[test]
fn x_scroll() {
    test_assert(Scrollable::X, -10, -10, -10, 0);
    test_assert(Scrollable::X, -10000, -10, -900, 0);
    test_assert(Scrollable::X, 100, -10, 0, 0);
}

#[test]
fn y_scroll() {
    test_assert(Scrollable::Y, -10, -10, 0, -10);
    test_assert(Scrollable::Y, -10, -10000, 0, -900);
    test_assert(Scrollable::Y, 10, 100, 0, 0);
}

#[test]
fn both_scroll() {
    test_assert(Scrollable::Both, -10, -10, -10, -10);
    test_assert(Scrollable::Both, -10000, -10000, -900, -900);
    test_assert(Scrollable::Both, 100, 100, 0, 0);
}

#[test]
fn can_scroll_only_where_the_content_is_larger() {
    let mut w = ScrollableWidget::new(Scrollable::X);
    w.set_page_size(Size::new(100, 100));
    w.set_content_size(Size::new(50, 300));
    assert!(!w.can_scroll());
    assert_eq!(w.page_size(), Size::new(100, 100));
    assert_eq!(w.content_size(), Size::new(50, 300));
    let mut w = ScrollableWidget::new(Scrollable::Both);
    w.set_page_size(Size::new(100, 100));
    w.set_content_size(Size::new(50, 300));
    assert!(w.can_scroll());
}

#[test]
fn content_smaller_than_the_view_stays_at_the_origin() {
    let mut w = ScrollableWidget::new(Scrollable::Both);
    w.set_page_size(Size::new(100, 100));
    w.set_content_size(Size::new(10, 10));
    w.validate_scroll(Point::new(-50, -50));
    assert_eq!(w.pos, Point::new(0, 0));
}
