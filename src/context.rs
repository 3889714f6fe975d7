use vstd::prelude::*;

use crate::geom::{Point, Rect};
use crate::tree::{to_global_fits, to_global_spec, WidgetTree};

verus! {

/// What a lifecycle handler of a node sees: the node, and the tree it lies
/// in, laid out.
pub struct LifeCycleCtx<'a> {
    pub id: usize,
    pub tree: &'a WidgetTree,
}

impl<'a> LifeCycleCtx<'a> {
    pub fn new(tree: &'a WidgetTree, id: usize) -> (r: LifeCycleCtx<'a>)
        ensures
            r.id == id,
            r.tree == tree,
    {
        LifeCycleCtx { id, tree }
    }

    /// The node the handler belongs to.
    pub fn id(&self) -> (r: usize)
        ensures
            r == self.id,
    {
        self.id
    }

    /// The node's box in its parent's space, where it has a size.
    pub fn box_rect(&self) -> (r: Option<Rect>)
        requires
            self.tree.wf(),
            self.id < self.tree.nodes@.len(),
        ensures
            r == (match self.tree.info(self.id as int) {
                Some(info) => match info.size {
                    Some(size) => Some(Rect { origin: info.pos, size }),
                    None => None,
                },
                None => None,
            }),
    {
        self.tree.widget_box_rect(self.id)
    }

    /// Maps a point of the node's space into global space.
    pub fn map_to_global(&self, pos: Point) -> (r: Point)
        requires
            self.tree.wf(),
            self.id < self.tree.nodes@.len(),
            to_global_fits(
                self.tree.nodes@,
                self.tree.store.infos@,
                self.id as int,
                pos.x as int,
                pos.y as int,
            ),
        ensures
            (r.x as int, r.y as int) == to_global_spec(
                self.tree.nodes@,
                self.tree.store.infos@,
                self.id as int,
                pos.x as int,
                pos.y as int,
            ),
    {
        self.tree.map_to_global(pos, self.id)
    }
}

} // verus!
