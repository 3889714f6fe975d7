use ribir_layout::box_clamp::BoxClamp;
use ribir_layout::geom::{Size, UNBOUNDED};

#[test]
fn clamp_restricts_each_axis() {
    let c = BoxClamp { min: Size::new(10, 20), max: Size::new(100, 200) };
    assert_eq!(c.clamp(Size::new(5, 500)), Size::new(10, 200));
    assert_eq!(c.clamp(Size::new(50, 50)), Size::new(50, 50));
}

#[test]
fn an_inverted_clamp_ends_at_its_maximum() {
    let c = BoxClamp { min: Size::new(10, 10), max: Size::new(5, 5) };
    assert_eq!(c.clamp(Size::new(7, 0)), Size::new(5, 5));
}

#[test]
fn constructors() {
    assert_eq!(BoxClamp::default(), BoxClamp { min: Size::zero(), max: Size::infinite() });
    assert_eq!(BoxClamp::fixed_size(Size::new(3, 4)).min, Size::new(3, 4));
    assert_eq!(BoxClamp::fixed_width(7), BoxClamp { min: Size::new(7, 0), max: Size::new(7, UNBOUNDED) });
    assert_eq!(BoxClamp::fixed_height(7), BoxClamp { min: Size::new(0, 7), max: Size::new(UNBOUNDED, 7) });
    assert_eq!(BoxClamp::min_size(Size::new(3, 4)).max, Size::infinite());
    assert_eq!(BoxClamp::min_width(3).min, Size::new(3, 0));
    assert_eq!(BoxClamp::min_height(3).min, Size::new(0, 3));
    assert_eq!(BoxClamp::max_size(Size::new(3, 4)).min, Size::zero());
    assert_eq!(BoxClamp::max_width(3).max, Size::new(3, UNBOUNDED));
    assert_eq!(BoxClamp::max_height(3).max, Size::new(UNBOUNDED, 3));
}

#[test]
fn combinators() {
    let c = BoxClamp { min: Size::new(10, 20), max: Size::new(100, 200) };
    assert_eq!(c.with_min_size(Size::new(500, 5)).min, Size::new(100, 5));
    assert_eq!(c.with_max_size(Size::new(5, 500)).max, Size::new(10, 500));
    assert_eq!(c.with_fixed_width(50), BoxClamp { min: Size::new(50, 20), max: Size::new(50, 200) });
    assert_eq!(c.with_fixed_height(50), BoxClamp { min: Size::new(10, 50), max: Size::new(100, 50) });
    assert_eq!(c.with_max_width(1).max, Size::new(10, 200));
    assert_eq!(c.with_max_height(300).max, Size::new(100, 300));
    assert_eq!(c.with_min_width(300).min, Size::new(100, 20));
    assert_eq!(c.with_min_height(1).min, Size::new(10, 1));
    assert_eq!(c.expand().max, Size::infinite());
    assert_eq!(c.loose().min, Size::zero());
    assert_eq!(c.free_width(), BoxClamp { min: Size::new(0, 20), max: Size::new(UNBOUNDED, 200) });
    assert_eq!(c.free_height(), BoxClamp { min: Size::new(10, 0), max: Size::new(100, UNBOUNDED) });
}

#[test]
fn container_estimates_prefer_a_finite_maximum() {
    let c = BoxClamp { min: Size::new(10, 20), max: Size::new(100, UNBOUNDED) };
    assert_eq!(c.container_width(500), 100);
    assert_eq!(c.container_height(5), 20);
    assert_eq!(c.container_height(50), 50);
}
