use vstd::prelude::*;

use crate::tree::{Node, WidgetTree};

verus! {

/// Makes a widget focusable.
#[derive(Debug, Clone, Copy, PartialEq, Eq, Structural)]
pub struct FocusNode {
    /// Where the widget stands in keyboard navigation: a negative value keeps
    /// it out of the sequence, zero puts it after the positive values in tree
    /// order, a positive value orders it by the value.
    pub tab_index: i16,
    /// The widget takes the focus when the window loads.
    pub auto_focus: bool,
}

impl FocusNode {
    pub fn new(tab_index: i16, auto_focus: bool) -> (r: FocusNode)
        ensures
            r.tab_index == tab_index,
            r.auto_focus == auto_focus,
    {
        FocusNode { tab_index, auto_focus }
    }

    /// Composes the focus node onto the widget `id`. A widget carries at most
    /// one focus node: where `id` already has one, it keeps it and nothing is
    /// attached. Returns whether this one was attached.
    pub fn compose_child(self, tree: &mut WidgetTree, id: usize) -> (r: bool)
        requires
            old(tree).wf(),
            id < old(tree).nodes@.len(),
        ensures
            final(tree).wf(),
            r == old(tree).nodes@[id as int].focus is None,
            final(tree).nodes@ == if r {
                old(tree).nodes@.update(id as int, Node { focus: Some(self), ..old(tree).nodes@[id as int] })
            } else {
                old(tree).nodes@
            },
            final(tree).store == old(tree).store,
    {
        if tree.nodes[id].focus.is_some() {
            false
        } else {
            tree.set_focus(id, Some(self));
            true
        }
    }
}

} // verus!
