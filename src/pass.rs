use vstd::prelude::*;

use crate::box_clamp::BoxClamp;
use crate::geom::{Point, Rect, Size};
use crate::layout::{cached, laid_out_as, laid_out_deep, perform_child_layout};
use crate::layout_info::LayoutInfo;
use crate::layout_info::LayoutStore;
use crate::tree::{
    Render, is_desc, lemma_ancestors_chain, lemma_desc_not_before, lemma_desc_of_child, Node, WidgetTree,
};

verus! {

/// Every size in the layout cache lies within the clamp it was computed
/// under, wherever that clamp is well formed (its minimum not above its
/// maximum), and within the clamp's maximum in any case.
pub proof fn lemma_sizes_within_clamps(tree: &WidgetTree, id: int)
    requires
        tree.wf(),
        0 <= id < tree.nodes@.len(),
        tree.info(id) is Some,
        tree.info(id)->0.size is Some,
    ensures
        tree.info(id)->0.size->0.le(tree.info(id)->0.clamp.max),
        tree.info(id)->0.clamp.wf() ==> tree.info(id)->0.clamp.contains(tree.info(id)->0.size->0),
{
    assert(tree.store.infos@[id] is Some);
}

/// A node that was laid out once and then lost its size (and whose count of
/// layouts is below its maximum) has been laid out again from `s0` to `s1`.
pub open spec fn relaid_if_stale(s0: LayoutStore, s1: LayoutStore, id: int) -> bool {
    (s0.infos@[id] is Some && s0.size_at(id) is None && s0.performed@[id] < u64::MAX)
        ==> s1.performed@[id] > s0.performed@[id]
}

/// The size held in a layout info, if any.
pub open spec fn size_of(info: Option<LayoutInfo>) -> Option<Size> {
    match info {
        Some(i) => i.size,
        None => None,
    }
}

/// The info with its size discarded.
pub open spec fn without_size(info: Option<LayoutInfo>) -> Option<LayoutInfo> {
    match info {
        Some(i) => Some(LayoutInfo { size: None, ..i }),
        None => None,
    }
}

/// The node from which a change of `id` is laid out again: going up from
/// `id`, every ancestor that has a size must be laid out again, up to and
/// including the first that is sized by its parent alone, whose own size the
/// change cannot alter. An ancestor with no size stops the walk below it.
pub open spec fn relayout_root(nodes: Seq<Node>, infos: Seq<Option<LayoutInfo>>, id: int) -> int
    decreases id,
{
    if 0 <= id < nodes.len() && nodes[id].parent is Some && nodes[id].parent->0 < id {
        let p = nodes[id].parent->0 as int;
        if size_of(infos[p]) is None {
            id
        } else if nodes[p].render.only_sized_by_parent_spec() {
            p
        } else {
            relayout_root(nodes, infos, p)
        }
    } else {
        id
    }
}

/// The walk of `relayout_root` goes up from `id` and ends no earlier than
/// at the root.
proof fn lemma_relayout_root_above(nodes: Seq<Node>, infos: Seq<Option<LayoutInfo>>, id: int)
    requires
        0 <= id < nodes.len(),
    ensures
        0 <= relayout_root(nodes, infos, id) <= id,
        is_desc(nodes, id, relayout_root(nodes, infos, id)),
    decreases id,
{
    if nodes[id].parent is Some && nodes[id].parent->0 < id {
        let p = nodes[id].parent->0 as int;
        assert(is_desc(nodes, p, p));
        if size_of(infos[p]) is Some && !nodes[p].render.only_sized_by_parent_spec() {
            lemma_relayout_root_above(nodes, infos, p);
        }
    }
}

impl WidgetTree {
    /// Nothing waits for a pass, and the root holds a layout under `clamp`.
    pub open spec fn settled(&self, clamp: BoxClamp) -> bool {
        self.dirty@.len() == 0 && cached(self.store, 0, clamp)
    }

    /// The layout info of `id`, if it has been laid out since it was created
    /// or last invalidated.
    pub fn layout_info(&self, id: usize) -> (r: Option<LayoutInfo>)
        requires
            self.wf(),
            id < self.nodes@.len(),
        ensures
            r == self.info(id as int),
    {
        self.store.layout_info(id)
    }

    /// The size of `id`, where it has one.
    pub fn layout_box_size(&self, id: usize) -> (r: Option<Size>)
        requires
            self.wf(),
            id < self.nodes@.len(),
        ensures
            r == size_of(self.info(id as int)),
    {
        self.store.layout_box_size(id)
    }

    /// The position of `id` in its parent, where it has a layout info.
    pub fn layout_box_pos(&self, id: usize) -> (r: Option<Point>)
        requires
            self.wf(),
            id < self.nodes@.len(),
        ensures
            r == (match self.info(id as int) {
                Some(info) => Some(info.pos),
                None => None,
            }),
    {
        self.store.layout_box_pos(id)
    }

    /// The box of `id` in its parent's space, where it has a size.
    pub fn widget_box_rect(&self, id: usize) -> (r: Option<Rect>)
        requires
            self.wf(),
            id < self.nodes@.len(),
        ensures
            r == (match self.info(id as int) {
                Some(info) => match info.size {
                    Some(size) => Some(Rect { origin: info.pos, size }),
                    None => None,
                },
                None => None,
            }),
    {
        match self.store.layout_info(id) {
            Some(info) => match info.size {
                Some(size) => Some(Rect { origin: info.pos, size }),
                None => None,
            },
            None => None,
        }
    }

    /// How many times the layout of `id` has been computed.
    pub fn performed_count(&self, id: usize) -> (r: u64)
        requires
            self.wf(),
            id < self.nodes@.len(),
        ensures
            r == self.store.performed@[id as int],
    {
        self.store.performed_count(id)
    }

    /// Records that the layout of `id` may have changed: its size and those
    /// of the ancestors whose size may depend on it are discarded, and the
    /// highest of them is laid out again in the next pass.
    pub fn mark_dirty(&mut self, id: usize)
        requires
            old(self).wf(),
            id < old(self).nodes@.len(),
        ensures
            final(self).wf(),
            final(self).nodes@ == old(self).nodes@,
            final(self).dirty@ == old(self).dirty@.push(
                relayout_root(old(self).nodes@, old(self).store.infos@, id as int) as usize,
            ),
            final(self).store.performed@ == old(self).store.performed@,
            final(self).store.infos@.len() == old(self).store.infos@.len(),
            forall|j: int|
                0 <= j < old(self).nodes@.len() ==> #[trigger] final(self).store.infos@[j] == if is_desc(
                    old(self).nodes@,
                    id as int,
                    j,
                ) && j >= relayout_root(old(self).nodes@, old(self).store.infos@, id as int) {
                    without_size(old(self).store.infos@[j])
                } else {
                    old(self).store.infos@[j]
                },
    {
        let ghost nodes = self.nodes@;
        let ghost infos0 = self.store.infos@;
        let ghost target = relayout_root(nodes, infos0, id as int);
        proof {
            lemma_relayout_root_above(nodes, infos0, id as int);
        }
        self.store.clear_size(id);
        proof {
            assert forall|j: int| 0 <= j < nodes.len() && is_desc(nodes, id as int, j) && j >= id implies j
                == id by {
                lemma_desc_not_before(nodes, id as int, j);
            }
        }
        let mut cur: usize = id;
        loop
            invariant_except_break
                relayout_root(nodes, infos0, cur as int) == target,
            invariant
                self.wf(),
                self.nodes@ == nodes,
                self.dirty@ == old(self).dirty@,
                self.store.performed@ == old(self).store.performed@,
                infos0.len() == nodes.len(),
                cur < nodes.len(),
                is_desc(nodes, id as int, cur as int),
                cur >= target,
                forall|j: int|
                    0 <= j < nodes.len() ==> #[trigger] self.store.infos@[j] == if is_desc(nodes, id as int, j) && j >= cur {
                        without_size(infos0[j])
                    } else {
                        infos0[j]
                    },
            ensures
                cur == target,
            decreases cur,
        {
            match self.nodes[cur].parent {
                None => {
                    proof {
                        assert(relayout_root(nodes, infos0, cur as int) == cur);
                        assert(cur == target);
                    }
                    break;
                },
                Some(p) => {
                    proof {
                        assert(cur >= 1);
                        assert(p < cur);
                        assert(self.store.infos@[p as int] == infos0[p as int]);
                    }
                    if self.store.layout_box_size(p).is_none() {
                        proof {
                            assert(size_of(infos0[p as int]) is None);
                            assert(relayout_root(nodes, infos0, cur as int) == cur);
                            assert(cur == target);
                        }
                        break;
                    }
                    let ghost before = self.store.infos@;
                    self.store.clear_size(p);
                    proof {
                        lemma_desc_of_child(nodes, id as int, cur as int, p as int);
                        assert forall|j: int|
                            0 <= j < nodes.len() && is_desc(nodes, id as int, j) && p < j < cur implies false by {
                            lemma_ancestors_chain(nodes, id as int, j, cur as int);
                            assert(nodes[cur as int].parent == Some(p));
                            assert(is_desc(nodes, cur as int, j));
                            assert(is_desc(nodes, p as int, j));
                            lemma_desc_not_before(nodes, p as int, j);
                        }
                        assert forall|j: int| 0 <= j < nodes.len() implies #[trigger] self.store.infos@[j]
                            == if is_desc(nodes, id as int, j) && j >= p {
                            without_size(infos0[j])
                        } else {
                            infos0[j]
                        } by {
                            if j != p {
                                assert(self.store.infos@[j] == before[j]);
                            }
                        }
                    }
                    proof {
                        assert(size_of(infos0[p as int]) is Some);
                    }
                    if self.nodes[p].render.only_sized_by_parent() {
                        proof {
                            assert(relayout_root(nodes, infos0, cur as int) == p);
                            assert(p == target);
                        }
                        cur = p;
                        break;
                    }
                    proof {
                        assert(relayout_root(nodes, infos0, cur as int) == relayout_root(
                            nodes,
                            infos0,
                            p as int,
                        ));
                        lemma_relayout_root_above(nodes, infos0, p as int);
                    }
                    cur = p;
                },
            }
        }
        proof {
            assert(cur == target);
        }
        self.dirty.push(cur);
    }

    /// Records that the subtree at `id` was replaced: its layout info is
    /// removed, as if it had never been laid out, and it is marked dirty.
    pub fn mark_structural_change(&mut self, id: usize)
        requires
            old(self).wf(),
            id < old(self).nodes@.len(),
        ensures
            ({
                let nodes = old(self).nodes@;
                let removed = old(self).store.infos@.update(id as int, None);
                let root = relayout_root(nodes, removed, id as int);
                &&& final(self).wf()
                &&& final(self).nodes@ == nodes
                &&& final(self).info(id as int) is None
                &&& final(self).dirty@ == old(self).dirty@.push(root as usize)
                &&& final(self).store.performed@ == old(self).store.performed@
                &&& forall|j: int|
                    0 <= j < nodes.len() ==> #[trigger] final(self).store.infos@[j] == if is_desc(
                        nodes,
                        id as int,
                        j,
                    ) && j >= root {
                        without_size(removed[j])
                    } else {
                        removed[j]
                    }
            }),
    {
        self.store.force_layout(id);
        self.mark_dirty(id);
        proof {
            assert(is_desc(self.nodes@, id as int, id as int));
            lemma_relayout_root_above(
                self.nodes@,
                old(self).store.infos@.update(id as int, None),
                id as int,
            );
        }
    }

    /// Runs a layout pass: the nodes marked dirty are laid out again from the
    /// clamps they had, then the root under `clamp`. Clean subtrees under an
    /// unchanged clamp are served from the cache. Running it again on a tree
    /// that nothing changed changes nothing.
    pub fn layout(&mut self, clamp: BoxClamp) -> (r: Size)
        requires
            old(self).wf(),
        ensures
            final(self).wf(),
            final(self).nodes@ == old(self).nodes@,
            final(self).settled(clamp),
            final(self).info(0) matches Some(info) && info.size == Some(r),
            r.le(clamp.max),
            clamp.wf() ==> clamp.contains(r),
            old(self).settled(clamp) ==> {
                &&& final(self).store.infos@ == old(self).store.infos@
                &&& final(self).store.performed@ == old(self).store.performed@
            },
            old(self).store.grows_to(final(self).store),
            forall|m: int|
                0 <= m < old(self).dirty@.len() ==> relaid_if_stale(
                    old(self).store,
                    final(self).store,
                    #[trigger] old(self).dirty@[m] as int,
                ),
            (forall|m: int| 0 <= m < old(self).dirty@.len() ==> #[trigger] old(self).dirty@[m] == 0)
                ==> laid_out_deep(old(self).nodes@, old(self).store, final(self).store, 0, clamp),
            ((forall|m: int| 0 <= m < old(self).dirty@.len() ==> #[trigger] old(self).dirty@[m] == 0)
                && !cached(old(self).store, 0, clamp)) ==> {
                &&& old(self).nodes@[0].render matches Render::Plain(_) ==> forall|k: int|
                    0 <= k < old(self).nodes@[0].children@.len() ==> laid_out_as(
                        old(self).nodes@,
                        old(self).store,
                        final(self).store,
                        #[trigger] old(self).nodes@[0].children@[k] as int,
                        clamp,
                    )
                &&& old(self).nodes@[0].render matches Render::Plain(_) ==> forall|k: int, j: int|
                    0 <= k < old(self).nodes@[0].children@.len() && 0 <= j < old(self).nodes@.len()
                        && cached(
                        old(self).store,
                        #[trigger] old(self).nodes@[0].children@[k] as int,
                        clamp,
                    ) && #[trigger] is_desc(old(self).nodes@, j, old(self).nodes@[0].children@[k] as int)
                        ==> final(self).store.infos@[j] == old(self).store.infos@[j]
                        && final(self).store.performed@[j] == old(self).store.performed@[j]
                &&& relaid_if_stale(old(self).store, final(self).store, 0)
                &&& old(self).nodes@[0].render matches Render::Plain(b) ==> r == b.size.clamp_spec(
                    clamp.min,
                    clamp.max,
                )
                &&& old(self).nodes@[0].render matches Render::Sized(b) ==> r == b.size.clamp_spec(
                    clamp.min,
                    clamp.max,
                )
                &&& old(self).performed_below_max(0) ==> final(self).store.performed@[0]
                    == old(self).store.performed@[0] + 1
            },
    {
        let ghost start = self.store;
        let mut k: usize = 0;
        while k < self.dirty.len()
            invariant
                self.wf(),
                self.nodes@ == old(self).nodes@,
                self.dirty@ == old(self).dirty@,
                k <= self.dirty@.len(),
                start == old(self).store,
                start.performed@.len() == self.nodes@.len(),
                (forall|m: int| 0 <= m < old(self).dirty@.len() ==> #[trigger] old(self).dirty@[m] == 0)
                    ==> self.store == old(self).store,
                start.grows_to(self.store),
                forall|m: int|
                    0 <= m < k && self.dirty@[m] != 0 ==> relaid_if_stale(
                        start,
                        self.store,
                        #[trigger] self.dirty@[m] as int,
                    ),
            decreases self.dirty@.len() - k,
        {
            let id = self.dirty[k];
            let ghost before = self.store;
            match self.store.layout_info(id) {
                Some(info) => {
                    if id != 0 {
                        perform_child_layout(&self.nodes, &mut self.store, id, info.clamp);
                    }
                },
                None => {},
            }
            proof {
                LayoutStore::lemma_grows_trans(start, before, self.store);
                assert forall|m: int| 0 <= m < k + 1 && self.dirty@[m] != 0 implies relaid_if_stale(
                    start,
                    self.store,
                    #[trigger] self.dirty@[m] as int,
                ) by {
                    let r = self.dirty@[m] as int;
                    assert(before.performed@[r] >= start.performed@[r]);
                    assert(self.store.performed@[r] >= before.performed@[r]);
                    if m == k && before.performed@[r] == start.performed@[r] {
                        if start.infos@[r] is Some && start.size_at(r) is None && start.performed@[r]
                            < u64::MAX {
                            assert(before.size_at(r) == start.size_at(r));
                            assert(before.infos@[r] is Some);
                            assert(!cached(before, r, before.infos@[r]->0.clamp));
                        }
                    }
                }
            }
            k += 1;
        }
        let ghost before = self.store;
        self.dirty = Vec::new();
        let r = perform_child_layout(&self.nodes, &mut self.store, 0, clamp);
        proof {
            LayoutStore::lemma_grows_trans(start, before, self.store);
            assert forall|m: int| 0 <= m < old(self).dirty@.len() implies relaid_if_stale(
                start,
                self.store,
                #[trigger] old(self).dirty@[m] as int,
            ) by {
                let x = old(self).dirty@[m] as int;
                assert(self.store.performed@[x] >= before.performed@[x]);
                assert(before.performed@[x] >= start.performed@[x]);
                if x != 0 {
                    assert(relaid_if_stale(start, before, x));
                }
            }
            assert(before.performed@[0] >= start.performed@[0]);
            assert(self.store.performed@[0] >= before.performed@[0]);
        }
        r
    }

    /// The root's count of layouts is below its maximum.
    pub open spec fn performed_below_max(&self, id: int) -> bool {
        self.store.performed@[id] < u64::MAX
    }
}

} // verus!
