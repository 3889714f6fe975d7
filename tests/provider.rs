use ribir_layout::geom::Size;
use ribir_layout::provider::{Provided, ProvidedKind, Provider};
use ribir_layout::tree::{Render, WidgetTree};
use ribir_layout::widgets::PlainBox;

fn plain(w: u32, h: u32) -> Render {
    Render::Plain(PlainBox { size: Size::new(w, h) })
}

#[test]
fn direct_pass() {
    let mut tree = WidgetTree::new(plain(0, 0));
    Provider::new(Provided::Int(1)).attach(&mut tree, 0);
    let child = tree.append_child(0, plain(0, 0));
    let value = Provider::of(&tree, child, ProvidedKind::Int);
    assert_eq!(value, Some(Provided::Int(1)));
}

#[test]
fn indirect_pass() {
    let mut tree = WidgetTree::new(plain(0, 0));
    Provider::new(Provided::Int(1)).attach(&mut tree, 0);
    let mock = tree.append_child(0, plain(1, 1));
    let reader = tree.append_child(mock, plain(0, 0));
    let value = Provider::of(&tree, reader, ProvidedKind::Int);
    assert_eq!(value, Some(Provided::Int(1)));
}

#[test]
fn with_multi_providers() {
    let mut tree = WidgetTree::new(plain(0, 0));
    let p1 = tree.append_child(0, plain(0, 0));
    Provider::new(Provided::Int(1)).attach(&mut tree, p1);
    let r1 = tree.append_child(p1, plain(0, 0));
    let p2 = tree.append_child(0, plain(0, 0));
    Provider::new(Provided::Int(2)).attach(&mut tree, p2);
    let r2 = tree.append_child(p2, plain(0, 0));
    assert_eq!(Provider::of(&tree, r1, ProvidedKind::Int), Some(Provided::Int(1)));
    assert_eq!(Provider::of(&tree, r2, ProvidedKind::Int), Some(Provided::Int(2)));
}

#[test]
fn the_nearest_provider_of_the_kind_wins() {
    let mut tree = WidgetTree::new(plain(0, 0));
    Provider::new(Provided::Int(1)).attach(&mut tree, 0);
    let mid = tree.append_child(0, plain(0, 0));
    Provider::new(Provided::Flag(true)).attach(&mut tree, mid);
    let leaf = tree.append_child(mid, plain(0, 0));
    assert_eq!(Provider::of(&tree, leaf, ProvidedKind::Int), Some(Provided::Int(1)));
    assert_eq!(Provider::of(&tree, leaf, ProvidedKind::Flag), Some(Provided::Flag(true)));
    assert_eq!(Provider::of(&tree, 0, ProvidedKind::Flag), None);
}
