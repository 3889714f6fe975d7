use vstd::prelude::*;

use crate::geom::Size;

verus! {

/// A box of a fixed size; its children are laid out at exactly that size.
/// Its size depends on nothing but its declaration.
#[derive(Debug, Clone, Copy, PartialEq, Eq, Structural)]
pub struct SizedBox {
    pub size: Size,
}

/// A box of a declared size that passes its own clamp on to its children.
#[derive(Debug, Clone, Copy, PartialEq, Eq, Structural)]
pub struct PlainBox {
    pub size: Size,
}

/// How a `Stack` passes its clamp on to its children.
#[derive(Debug, Clone, Copy, PartialEq, Eq, Structural)]
pub enum StackFit {
    /// The minimum is lowered to zero.
    Loose,
    /// Each finite maximum becomes a fixed extent.
    Expand,
    /// The clamp passes unchanged.
    Passthrough,
}

/// Children laid over one another. Those not marked to lay out in their
/// parent decide the stack's size; the marked ones are laid out afterwards
/// within that size.
#[derive(Debug, Clone, Copy, PartialEq, Eq, Structural)]
pub struct Stack {
    pub fit: StackFit,
}

/// The outcome of a hit test on one node.
#[derive(Debug, Clone, Copy, PartialEq, Eq, Structural)]
pub struct HitTest {
    /// The node itself is hit.
    pub hit: bool,
    /// Its children may still be hit.
    pub can_hit_child: bool,
}

/// Lays out its child as given, and lets pointer events through to it or not.
#[derive(Debug, Clone, Copy, PartialEq, Eq, Structural)]
pub struct IgnorePointer {
    pub ignore: bool,
}

impl IgnorePointer {
    pub fn new(ignore: bool) -> (r: IgnorePointer)
        ensures
            r.ignore == ignore,
    {
        IgnorePointer { ignore }
    }

    /// Never hit itself; its children only where pointers are not ignored.
    pub fn hit_test(&self) -> (r: HitTest)
        ensures
            !r.hit,
            r.can_hit_child == !self.ignore,
    {
        HitTest { hit: false, can_hit_child: !self.ignore }
    }
}

/// Shows its child, or takes no room and hides it.
#[derive(Debug, Clone, Copy, PartialEq, Eq, Structural)]
pub struct Visibility {
    pub visible: bool,
}

impl Visibility {
    pub fn new(visible: bool) -> (r: Visibility)
        ensures
            r.visible == visible,
    {
        Visibility { visible }
    }

    pub fn get_visible(&self) -> (r: bool)
        ensures
            r == self.visible,
    {
        self.visible
    }

    /// Never hit itself; its children only while visible.
    pub fn hit_test(&self) -> (r: HitTest)
        ensures
            !r.hit,
            r.can_hit_child == self.visible,
    {
        HitTest { hit: false, can_hit_child: self.visible }
    }
}

} // verus!
