use vstd::prelude::*;

use crate::box_clamp::BoxClamp;
use crate::geom::{Point, Rect, Size};

verus! {

/// The paint bounds of a node and of its descendants, used for culling.
#[derive(Debug, Clone, Copy, PartialEq, Eq, Structural)]
pub struct VisualBox {
    /// The bounds of the node itself.
    pub rect: Option<Rect>,
    /// The union of the bounds of the node's descendants.
    pub subtree: Option<Rect>,
}

impl VisualBox {
    pub fn empty() -> (r: VisualBox)
        ensures
            r.rect.is_none(),
            r.subtree.is_none(),
    {
        VisualBox { rect: None, subtree: None }
    }

    /// The bounds of both rectangles together, whichever are present.
    pub open spec fn bounds_rect_spec(self) -> Option<Rect> {
        match (self.rect, self.subtree) {
            (Some(r), Some(s)) => Some(r.union_spec(s)),
            (Some(r), None) => Some(r),
            (None, Some(s)) => Some(s),
            (None, None) => None,
        }
    }

    pub fn bounds_rect(&self) -> (r: Option<Rect>)
        requires
            self.rect matches Some(r) ==> r.fits(),
            self.subtree matches Some(s) ==> s.fits(),
        ensures
            r == self.bounds_rect_spec(),
    {
        match (self.rect, self.subtree) {
            (Some(rect), Some(subtree)) => Some(rect.union(&subtree)),
            (Some(rect), None) => Some(rect),
            (None, Some(subtree)) => Some(subtree),
            (None, None) => None,
        }
    }
}

/// What the last layout of a node left behind.
#[derive(Debug, Clone, Copy, PartialEq, Eq, Structural)]
pub struct LayoutInfo {
    /// The clamp that the parent gave in the last layout.
    pub clamp: BoxClamp,
    /// The size that the layout gave; `None` until the node is laid out.
    pub size: Option<Size>,
    /// The position relative to the parent.
    pub pos: Point,
    /// The paint bounds.
    pub visual_box: VisualBox,
}

impl LayoutInfo {
    pub open spec fn default_spec() -> LayoutInfo {
        LayoutInfo {
            clamp: BoxClamp::unlimited_spec(),
            size: None,
            pos: Point { x: 0, y: 0 },
            visual_box: VisualBox { rect: None, subtree: None },
        }
    }

    /// The size is within the clamp's maximum, and within the whole clamp
    /// wherever the clamp is well formed.
    pub open spec fn respects_clamp(self) -> bool {
        self.size is Some ==> {
            &&& self.size->0.le(self.clamp.max)
            &&& self.clamp.wf() ==> self.clamp.contains(self.size->0)
        }
    }
}

impl Default for LayoutInfo {
    fn default() -> (r: LayoutInfo)
        ensures
            r == LayoutInfo::default_spec(),
    {
        LayoutInfo {
            clamp: BoxClamp::unlimited(),
            size: None,
            pos: Point::zero(),
            visual_box: VisualBox::empty(),
        }
    }
}

/// The layout cache: for each node of a tree, by its index, its layout info,
/// if it has one, and how many times its layout has been computed.
pub struct LayoutStore {
    pub infos: Vec<Option<LayoutInfo>>,
    pub performed: Vec<u64>,
}

impl LayoutStore {
    /// The size held for `id`, if any.
    pub open spec fn size_at(&self, id: int) -> Option<Size> {
        match self.infos@[id] {
            Some(info) => info.size,
            None => None,
        }
    }

    /// Growth is transitive.
    pub proof fn lemma_grows_trans(s0: LayoutStore, s1: LayoutStore, s2: LayoutStore)
        requires
            s0.performed@.len() == s1.performed@.len(),
            s0.grows_to(s1),
            s1.grows_to(s2),
        ensures
            s0.grows_to(s2),
    {
        assert forall|j: int| 0 <= j < s0.performed@.len() implies {
            &&& #[trigger] s2.performed@[j] >= s0.performed@[j]
            &&& s0.infos@[j] is Some ==> s2.infos@[j] is Some
            &&& s2.performed@[j] == s0.performed@[j] && s0.performed@[j] < u64::MAX ==> s2.size_at(j)
                == s0.size_at(j)
        } by {
            assert(s1.performed@[j] >= s0.performed@[j]);
            assert(s2.performed@[j] >= s1.performed@[j]);
        }
    }

    /// From `self` to `s1` the counts of layouts only grow, no layout info
    /// is dropped, and a node whose count stayed (below its maximum) kept its
    /// size: sizes change only by a counted layout.
    pub open spec fn grows_to(&self, s1: LayoutStore) -> bool {
        forall|j: int|
            0 <= j < self.performed@.len() ==> {
                &&& #[trigger] s1.performed@[j] >= self.performed@[j]
                &&& self.infos@[j] is Some ==> s1.infos@[j] is Some
                &&& s1.performed@[j] == self.performed@[j] && self.performed@[j] < u64::MAX
                    ==> s1.size_at(j) == self.size_at(j)
            }
    }

    /// One slot per node of a tree of `n` nodes, and every stored size
    /// respects its clamp.
    pub open spec fn wf(&self, n: nat) -> bool {
        &&& self.infos@.len() == n
        &&& self.performed@.len() == n
        &&& forall|i: int|
            0 <= i < n && #[trigger] self.infos@[i] is Some ==> self.infos@[i]->0.respects_clamp()
    }

    pub open spec fn info(&self, id: int) -> Option<LayoutInfo> {
        self.infos@[id]
    }

    /// A store for `n` nodes, none of them laid out.
    pub fn new(n: usize) -> (r: LayoutStore)
        ensures
            r.wf(n as nat),
            forall|i: int| 0 <= i < n ==> (#[trigger] r.infos@[i]) is None,
            forall|i: int| 0 <= i < n ==> #[trigger] r.performed@[i] == 0,
    {
        let mut infos: Vec<Option<LayoutInfo>> = Vec::new();
        let mut performed: Vec<u64> = Vec::new();
        let mut i: usize = 0;
        while i < n
            invariant
                i <= n,
                infos@.len() == i,
                performed@.len() == i,
                forall|j: int| 0 <= j < i ==> (#[trigger] infos@[j]) is None,
                forall|j: int| 0 <= j < i ==> #[trigger] performed@[j] == 0,
            decreases n - i,
        {
            infos.push(None);
            performed.push(0);
            i += 1;
        }
        LayoutStore { infos, performed }
    }

    /// Adds the slot of a new node, not laid out.
    pub fn push_slot(&mut self)
        requires
            old(self).wf(old(self).infos@.len()),
        ensures
            final(self).infos@ == old(self).infos@.push(None),
            final(self).performed@ == old(self).performed@.push(0),
            final(self).wf(final(self).infos@.len()),
    {
        self.infos.push(None);
        self.performed.push(0);
    }

    /// The layout info of `id`, if it has been laid out since it was created
    /// or last invalidated.
    pub fn layout_info(&self, id: usize) -> (r: Option<LayoutInfo>)
        requires
            id < self.infos@.len(),
        ensures
            r == self.infos@[id as int],
    {
        self.infos[id]
    }

    /// The size of `id`, where it has one.
    pub fn layout_box_size(&self, id: usize) -> (r: Option<Size>)
        requires
            id < self.infos@.len(),
        ensures
            r == (match self.infos@[id as int] {
                Some(info) => info.size,
                None => None,
            }),
    {
        match self.infos[id] {
            Some(info) => info.size,
            None => None,
        }
    }

    /// The position of `id` in its parent, where it has a layout info.
    pub fn layout_box_pos(&self, id: usize) -> (r: Option<Point>)
        requires
            id < self.infos@.len(),
        ensures
            r == (match self.infos@[id as int] {
                Some(info) => Some(info.pos),
                None => None,
            }),
    {
        match self.infos[id] {
            Some(info) => Some(info.pos),
            None => None,
        }
    }

    /// The layout info of `id`, a default one where it had none yet.
    fn info_or_default(&self, id: usize) -> (r: LayoutInfo)
        requires
            id < self.infos@.len(),
        ensures
            r == self.layout_info_or_default_spec(id as int),
    {
        match self.infos[id] {
            Some(info) => info,
            None => LayoutInfo::default(),
        }
    }

    /// The layout info of `id`; where it had none yet, a default one is
    /// inserted first. Used when a node is visited for the first time.
    pub fn layout_info_or_default(&mut self, id: usize) -> (r: LayoutInfo)
        requires
            id < old(self).infos@.len(),
            old(self).wf(old(self).infos@.len()),
        ensures
            r == old(self).layout_info_or_default_spec(id as int),
            final(self).infos@ == old(self).infos@.update(id as int, Some(r)),
            final(self).performed@ == old(self).performed@,
            final(self).wf(old(self).infos@.len()),
    {
        let info = self.info_or_default(id);
        self.infos.set(id, Some(info));
        info
    }

    /// Removes the layout info of `id` and hands it back: the next layout
    /// treats the node as never laid out.
    pub fn remove(&mut self, id: usize) -> (r: Option<LayoutInfo>)
        requires
            id < old(self).infos@.len(),
            old(self).wf(old(self).infos@.len()),
        ensures
            r == old(self).infos@[id as int],
            final(self).infos@ == old(self).infos@.update(id as int, None),
            final(self).performed@ == old(self).performed@,
            final(self).wf(old(self).infos@.len()),
    {
        let r = self.infos[id];
        self.infos.set(id, None);
        r
    }

    /// Forces a new layout of `id`, as `remove`.
    pub fn force_layout(&mut self, id: usize) -> (r: Option<LayoutInfo>)
        requires
            id < old(self).infos@.len(),
            old(self).wf(old(self).infos@.len()),
        ensures
            r == old(self).infos@[id as int],
            final(self).infos@ == old(self).infos@.update(id as int, None),
            final(self).performed@ == old(self).performed@,
            final(self).wf(old(self).infos@.len()),
    {
        self.remove(id)
    }

    /// Sets the position of `id` in its parent, giving it a default layout
    /// info first where it had none. The size is left alone.
    pub fn update_position(&mut self, id: usize, pos: Point)
        requires
            id < old(self).infos@.len(),
            old(self).wf(old(self).infos@.len()),
        ensures
            final(self).infos@ == old(self).infos@.update(
                id as int,
                Some(LayoutInfo { pos, ..old(self).layout_info_or_default_spec(id as int) }),
            ),
            final(self).performed@ == old(self).performed@,
            final(self).wf(old(self).infos@.len()),
            old(self).grows_to(*final(self)),
    {
        let mut info = self.info_or_default(id);
        info.pos = pos;
        self.infos.set(id, Some(info));
    }

    /// Discards the size of `id`, keeping the rest of its layout info: it
    /// must be laid out again before its size is served.
    pub fn clear_size(&mut self, id: usize)
        requires
            id < old(self).infos@.len(),
            old(self).wf(old(self).infos@.len()),
        ensures
            final(self).infos@ == old(self).infos@.update(
                id as int,
                match old(self).infos@[id as int] {
                    Some(info) => Some(LayoutInfo { size: None, ..info }),
                    None => None,
                },
            ),
            final(self).performed@ == old(self).performed@,
            final(self).wf(old(self).infos@.len()),
    {
        match self.infos[id] {
            Some(info) => {
                self.infos.set(id, Some(LayoutInfo { size: None, ..info }));
            },
            None => {},
        }
    }

    pub open spec fn layout_info_or_default_spec(&self, id: int) -> LayoutInfo {
        match self.infos@[id] {
            Some(info) => info,
            None => LayoutInfo::default_spec(),
        }
    }

    /// Records a computed layout of `id`: the clamp it was given and the size
    /// it took, which lies within the clamp; the count of its layouts goes up
    /// by one (it stays at its maximum once there).
    pub fn record_layout(&mut self, id: usize, clamp: BoxClamp, size: Size)
        requires
            id < old(self).infos@.len(),
            old(self).wf(old(self).infos@.len()),
            size.le(clamp.max),
            clamp.wf() ==> clamp.contains(size),
        ensures
            final(self).infos@ == old(self).infos@.update(
                id as int,
                Some(LayoutInfo { clamp, size: Some(size), ..old(self).layout_info_or_default_spec(id as int) }),
            ),
            final(self).performed@ == old(self).performed@.update(
                id as int,
                if old(self).performed@[id as int] == u64::MAX {
                    u64::MAX
                } else {
                    (old(self).performed@[id as int] + 1) as u64
                },
            ),
            final(self).wf(old(self).infos@.len()),
            old(self).grows_to(*final(self)),
    {
        let mut info = self.info_or_default(id);
        info.clamp = clamp;
        info.size = Some(size);
        self.infos.set(id, Some(info));
        let count = self.performed[id];
        let count = if count == u64::MAX { u64::MAX } else { count + 1 };
        self.performed.set(id, count);
    }

    /// How many times the layout of `id` has been computed.
    pub fn performed_count(&self, id: usize) -> (r: u64)
        requires
            id < self.performed@.len(),
        ensures
            r == self.performed@[id as int],
    {
        self.performed[id]
    }
}

} // verus!
