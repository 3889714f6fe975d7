use ribir_layout::focus::FocusNode;
use ribir_layout::geom::Size;
use ribir_layout::tree::{Render, WidgetTree};
use ribir_layout::widgets::PlainBox;

#[test]
fn dynamic_focus_node() {
    let mut tree = WidgetTree::new(Render::Plain(PlainBox { size: Size::zero() }));
    let id = tree.root();
    // Nested focus nodes compose from the inside out onto the same widget.
    let attached: Vec<bool> = (0..3)
        .map(|_| FocusNode { tab_index: 0i16, auto_focus: false }.compose_child(&mut tree, id))
        .collect();
    let cnt = attached.iter().filter(|a| **a).count();
    assert!(cnt == 1);
    assert!(tree.nodes[id].focus.is_some());
}

#[test]
fn the_first_focus_node_stays() {
    let mut tree = WidgetTree::new(Render::Plain(PlainBox { size: Size::new(1, 1) }));
    assert!(FocusNode::new(3, true).compose_child(&mut tree, 0));
    assert!(!FocusNode::new(5, false).compose_child(&mut tree, 0));
    assert_eq!(tree.nodes[0].focus, Some(FocusNode::new(3, true)));
}
