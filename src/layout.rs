use vstd::prelude::*;

use crate::box_clamp::BoxClamp;
use crate::flex::{
    breaks_line, breaks_line_spec, coord, coord_add, flex_share, flex_share_spec, Align, Direction, Flex, FlexPoint, FlexSize,
    JustifyContent, MainLineInfo,
};
use crate::geom::{len_max, len_of, max_len, sat_add, Point, Size, UNBOUNDED};
use crate::layout_info::{LayoutInfo, LayoutStore};
use crate::tree::{
    lemma_sibling_subtrees_apart, is_desc, lemma_child_frame, lemma_sibling_not_desc, links_wf, same_outside, Node, Render,
};
use crate::widgets::{Stack, StackFit};

verus! {

/// The store holds a finished layout of `id` under `clamp`, which it can
/// serve again without computing it.
pub open spec fn cached(store: LayoutStore, id: int, clamp: BoxClamp) -> bool {
    &&& store.infos@[id] is Some
    &&& store.infos@[id]->0.clamp == clamp
    &&& store.infos@[id]->0.size is Some
}

/// What the layout of `c` under `clamp` answers, `c` having had the entry
/// `info`: the stored size where the entry holds one under the same clamp;
/// otherwise the size that a plain or sized box, or a hidden visibility,
/// takes within the clamp. In any case a size within the clamp.
pub open spec fn child_answer_ok(nodes: Seq<Node>, info: Option<LayoutInfo>, c: int, clamp: BoxClamp, a: Size) -> bool {
    let hit = info is Some && info->0.clamp == clamp && info->0.size is Some;
    &&& a.le(clamp.max)
    &&& clamp.wf() ==> clamp.contains(a)
    &&& hit ==> a == info->0.size->0
    &&& !hit ==> (nodes[c].render matches Render::Plain(b) ==> a == b.size.clamp_spec(
        clamp.min,
        clamp.max,
    ))
    &&& !hit ==> (nodes[c].render matches Render::Sized(b) ==> a == b.size.clamp_spec(
        clamp.min,
        clamp.max,
    ))
    &&& !hit ==> ((nodes[c].render matches Render::Visibility(v) && !v.visible) ==> a
        == Size::zero_spec().clamp_spec(clamp.min, clamp.max))
}

/// The entry of `c` after a layout under `clamp` that answered `a`, from the
/// entry `info` it had.
pub open spec fn entry_after(info: Option<LayoutInfo>, clamp: BoxClamp, a: Size) -> Option<LayoutInfo> {
    Some(
        LayoutInfo {
            clamp,
            size: Some(a),
            ..match info {
                Some(i) => i,
                None => LayoutInfo::default_spec(),
            }
        },
    )
}

/// From `s0` to `s1`, `c` was laid out once under `clamp`: its count went
/// up by one (staying at its maximum), or it stayed where the layout was
/// served from the cache.
pub open spec fn laid_out_once(s0: LayoutStore, s1: LayoutStore, c: int, clamp: BoxClamp) -> bool {
    s1.performed@[c] == if cached(s0, c, clamp) {
        s0.performed@[c]
    } else if s0.performed@[c] == u64::MAX {
        u64::MAX
    } else {
        (s0.performed@[c] + 1) as u64
    }
}

/// The entry of `c` in `s1` is that of `s0` but for its position.
pub open spec fn same_but_pos(s0: LayoutStore, s1: LayoutStore, c: int) -> bool {
    s0.infos@[c] is Some ==> {
        &&& s1.infos@[c] is Some
        &&& s1.infos@[c]->0 == (LayoutInfo { pos: s1.infos@[c]->0.pos, ..s0.infos@[c]->0 })
    }
}

/// From `s0` to `s1`, `c` was laid out once under `clamp`: it answered as
/// `child_answer_ok` says, the answer and the clamp are recorded, and its
/// count went up by one unless the layout was served from the cache.
pub open spec fn laid_out_as(nodes: Seq<Node>, s0: LayoutStore, s1: LayoutStore, c: int, clamp: BoxClamp) -> bool {
    &&& s1.infos@[c] is Some
    &&& s1.infos@[c]->0.size is Some
    &&& child_answer_ok(nodes, s0.infos@[c], c, clamp, s1.infos@[c]->0.size->0)
    &&& s1.infos@[c] == entry_after(s0.infos@[c], clamp, s1.infos@[c]->0.size->0)
    &&& laid_out_once(s0, s1, c, clamp)
}

/// Every node strictly above `j`, up to and including `c`, is a plain box
/// that `s0` could not serve from its cache under `clamp`.
pub open spec fn fresh_plain_above(nodes: Seq<Node>, s0: LayoutStore, clamp: BoxClamp, j: int, c: int) -> bool {
    forall|a: int|
        0 <= a < nodes.len() && a != j && #[trigger] is_desc(nodes, j, a) && is_desc(nodes, a, c)
            ==> nodes[a].render is Plain && !cached(s0, a, clamp)
}

/// From `s0` to `s1`, `c` was laid out once under `clamp`, and so was each
/// node below it that a chain of plain boxes computed afresh passed the same
/// clamp down to.
pub open spec fn laid_out_deep(nodes: Seq<Node>, s0: LayoutStore, s1: LayoutStore, c: int, clamp: BoxClamp) -> bool {
    forall|j: int|
        0 <= j < nodes.len() && #[trigger] is_desc(nodes, j, c) && fresh_plain_above(nodes, s0, clamp, j, c)
            ==> laid_out_as(nodes, s0, s1, j, clamp)
}

/// `laid_out_deep` reads only the entries of the subtree of `c`.
proof fn lemma_deep_transfer(
    nodes: Seq<Node>,
    a0: LayoutStore,
    a1: LayoutStore,
    b0: LayoutStore,
    b1: LayoutStore,
    c: int,
    clamp: BoxClamp,
)
    requires
        laid_out_deep(nodes, a0, a1, c, clamp),
        forall|j: int|
            0 <= j < nodes.len() && #[trigger] is_desc(nodes, j, c) ==> unchanged_entry(a0, b0, j)
                && unchanged_entry(a1, b1, j),
    ensures
        laid_out_deep(nodes, b0, b1, c, clamp),
{
    assert forall|j: int|
        0 <= j < nodes.len() && #[trigger] is_desc(nodes, j, c) && fresh_plain_above(nodes, b0, clamp, j, c)
            implies laid_out_as(nodes, b0, b1, j, clamp) by {
        assert forall|a: int|
            0 <= a < nodes.len() && a != j && #[trigger] is_desc(nodes, j, a) && is_desc(nodes, a, c)
                implies nodes[a].render is Plain && !cached(a0, a, clamp) by {
            assert(unchanged_entry(a0, b0, a));
        }
        assert(laid_out_as(nodes, a0, a1, j, clamp));
    }
}

/// What a participant's own layout of `id` changes: only the entries of the
/// nodes below `id`; the entry of `id` is left to the dispatcher.
pub open spec fn participant_frame(nodes: Seq<Node>, s0: LayoutStore, s1: LayoutStore, id: int) -> bool {
    &&& s1.wf(nodes.len())
    &&& same_outside(nodes, s0, s1, id)
    &&& s1.infos@[id] == s0.infos@[id]
    &&& s1.performed@[id] == s0.performed@[id]
    &&& s0.performed@.len() == nodes.len()
    &&& s0.grows_to(s1)
}

/// Two frames in a row make one.
proof fn lemma_frame_trans(nodes: Seq<Node>, s0: LayoutStore, s1: LayoutStore, s2: LayoutStore, id: int)
    requires
        participant_frame(nodes, s0, s1, id),
        participant_frame(nodes, s1, s2, id),
    ensures
        participant_frame(nodes, s0, s2, id),
{
    LayoutStore::lemma_grows_trans(s0, s1, s2);
}

/// Lays out `id` under `clamp`, or serves its cached size where the store
/// holds a layout under the same clamp. The size taken is recorded, with the
/// clamp, in the node's layout info; it lies within the clamp. Nothing
/// outside the subtree of `id` changes.
pub fn perform_child_layout(
    nodes: &Vec<Node>,
    store: &mut LayoutStore,
    id: usize,
    clamp: BoxClamp,
) -> (r: Size)
    requires
        links_wf(nodes@),
        old(store).wf(nodes@.len()),
        id < nodes@.len(),
    ensures
        final(store).wf(nodes@.len()),
        same_outside(nodes@, *old(store), *final(store), id as int),
        old(store).grows_to(*final(store)),
        child_answer_ok(nodes@, old(store).infos@[id as int], id as int, clamp, r),
        laid_out_deep(nodes@, *old(store), *final(store), id as int, clamp),
        final(store).infos@[id as int] == entry_after(old(store).infos@[id as int], clamp, r),
        final(store).infos@[id as int] == Some(
            LayoutInfo {
                clamp,
                size: Some(r),
                ..old(store).layout_info_or_default_spec(id as int)
            },
        ),
        r.le(clamp.max),
        clamp.wf() ==> clamp.contains(r),
        cached(*old(store), id as int, clamp) ==> {
            &&& r == old(store).infos@[id as int]->0.size->0
            &&& final(store).infos@ == old(store).infos@
            &&& final(store).performed@ == old(store).performed@
        },
        !cached(*old(store), id as int, clamp) ==> (nodes@[id as int].render matches Render::Plain(
            b,
        ) ==> r == b.size.clamp_spec(clamp.min, clamp.max)),
        !cached(*old(store), id as int, clamp) ==> (nodes@[id as int].render matches Render::Sized(
            b,
        ) ==> r == b.size.clamp_spec(clamp.min, clamp.max)),
        !cached(*old(store), id as int, clamp) ==> ((nodes@[id as int].render matches Render::Visibility(
            v,
        ) && !v.visible) ==> r == Size::zero_spec().clamp_spec(clamp.min, clamp.max)),
        !cached(*old(store), id as int, clamp) ==> (nodes@[id as int].render is Plain ==> forall|
            k: int,
        |
            0 <= k < nodes@[id as int].children@.len() ==> laid_out_as(
                nodes@,
                *old(store),
                *final(store),
                #[trigger] nodes@[id as int].children@[k] as int,
                clamp,
            )),
        !cached(*old(store), id as int, clamp) ==> (nodes@[id as int].render is Plain ==> forall|
            k: int,
            j: int,
        |
            0 <= k < nodes@[id as int].children@.len() && 0 <= j < nodes@.len() && cached(
                *old(store),
                #[trigger] nodes@[id as int].children@[k] as int,
                clamp,
            ) && #[trigger] is_desc(nodes@, j, nodes@[id as int].children@[k] as int)
                ==> unchanged_entry(*old(store), *final(store), j)),
        !cached(*old(store), id as int, clamp) ==> final(store).performed@[id as int]
            == if old(store).performed@[id as int] == u64::MAX {
            u64::MAX
        } else {
            (old(store).performed@[id as int] + 1) as u64
        },
    decreases nodes@.len() - id, 4int,
{
    match store.infos[id] {
        Some(info) => {
            if info.clamp == clamp {
                match info.size {
                    Some(size) => {
                        proof {
                            assert(info.respects_clamp());
                            assert(entry_after(store.infos@[id as int], clamp, size) == store.infos@[id as int]);
                            assert(laid_out_as(nodes@, *store, *store, id as int, clamp));
                            assert forall|j: int|
                                0 <= j < nodes@.len() && #[trigger] is_desc(nodes@, j, id as int)
                                    && fresh_plain_above(nodes@, *store, clamp, j, id as int) implies laid_out_as(
                                nodes@,
                                *store,
                                *store,
                                j,
                                clamp,
                            ) by {
                                if j != id {
                                    assert(is_desc(nodes@, id as int, id as int));
                                }
                            }
                        }
                        return size;
                    },
                    None => {},
                }
            }
        },
        None => {},
    }
    let ghost entry = *store;
    let size = perform_layout(nodes, store, id, clamp);
    let size = clamp.clamp(size);
    let ghost mid = *store;
    let n_nodes = nodes.len();
    store.record_layout(id, clamp, size);
    proof {
        LayoutStore::lemma_grows_trans(entry, mid, *store);
        assert forall|j: int|
            0 <= j < nodes@.len() && #[trigger] is_desc(nodes@, j, id as int) && fresh_plain_above(
                nodes@,
                entry,
                clamp,
                j,
                id as int,
            ) implies laid_out_as(nodes@, entry, *store, j, clamp) by {
            if j != id {
                assert(is_desc(nodes@, id as int, id as int));
                assert(nodes@[id as int].render is Plain && !cached(entry, id as int, clamp));
                let k = crate::tree::lemma_child_on_path(nodes@, j, id as int);
                let ck = nodes@[id as int].children@[k] as int;
                assert forall|a: int|
                    0 <= a < nodes@.len() && a != j && #[trigger] is_desc(nodes@, j, a) && is_desc(nodes@, a, ck)
                        implies nodes@[a].render is Plain && !cached(entry, a, clamp) by {
                    crate::tree::lemma_desc_of_child(nodes@, a, ck, id as int);
                }
                assert(laid_out_deep(nodes@, entry, mid, ck, clamp));
                assert(laid_out_as(nodes@, entry, mid, j, clamp));
            }
        }
        assert forall|k: int, j: int|
            0 <= k < nodes@[id as int].children@.len() && 0 <= j < nodes@.len() && #[trigger] is_desc(
                nodes@,
                j,
                nodes@[id as int].children@[k] as int,
            ) implies j != id by {
            crate::tree::lemma_desc_not_before(nodes@, j, nodes@[id as int].children@[k] as int);
        }
        assert forall|k: int| 0 <= k < nodes@[id as int].children@.len() implies #[trigger] nodes@[id as int].children@[k]
            != id by {}
        assert forall|j: int|
            0 <= j < nodes@.len() && !crate::tree::is_desc(nodes@, j, id as int) implies store.infos@[j]
            == entry.infos@[j] && store.performed@[j] == entry.performed@[j] by {}
    }
    size
}

/// A participant's own layout of `id` under `clamp`: it lays out the
/// children it needs and returns the size it asks for.
pub fn perform_layout(nodes: &Vec<Node>, store: &mut LayoutStore, id: usize, clamp: BoxClamp) -> (r: Size)
    requires
        links_wf(nodes@),
        old(store).wf(nodes@.len()),
        id < nodes@.len(),
    ensures
        participant_frame(nodes@, *old(store), *final(store), id as int),
        nodes@[id as int].render matches Render::Sized(b) ==> r == b.size,
        nodes@[id as int].render matches Render::Plain(b) ==> r == b.size,
        nodes@[id as int].render matches Render::Plain(_) ==> forall|k: int|
            0 <= k < nodes@[id as int].children@.len() ==> cached(
                *final(store),
                #[trigger] nodes@[id as int].children@[k] as int,
                clamp,
            ),
        nodes@[id as int].render matches Render::Plain(_) ==> forall|k: int|
            0 <= k < nodes@[id as int].children@.len() && cached(
                *old(store),
                #[trigger] nodes@[id as int].children@[k] as int,
                clamp,
            ) ==> unchanged_entry(*old(store), *final(store), nodes@[id as int].children@[k] as int),
        nodes@[id as int].render matches Render::Plain(_) ==> forall|k: int|
            0 <= k < nodes@[id as int].children@.len() ==> laid_out_deep(
                nodes@,
                *old(store),
                *final(store),
                #[trigger] nodes@[id as int].children@[k] as int,
                clamp,
            ),
        nodes@[id as int].render matches Render::Plain(_) ==> forall|k: int|
            0 <= k < nodes@[id as int].children@.len() ==> laid_out_as(
                nodes@,
                *old(store),
                *final(store),
                #[trigger] nodes@[id as int].children@[k] as int,
                clamp,
            ),
        nodes@[id as int].render matches Render::Sized(b) ==> forall|k: int|
            0 <= k < nodes@[id as int].children@.len() ==> laid_out_as(
                nodes@,
                *old(store),
                *final(store),
                #[trigger] nodes@[id as int].children@[k] as int,
                BoxClamp::fixed_size_spec(b.size),
            ),
        nodes@[id as int].render matches Render::Plain(_) ==> forall|k: int, j: int|
            0 <= k < nodes@[id as int].children@.len() && 0 <= j < nodes@.len() && cached(
                *old(store),
                #[trigger] nodes@[id as int].children@[k] as int,
                clamp,
            ) && #[trigger] is_desc(nodes@, j, nodes@[id as int].children@[k] as int)
                ==> unchanged_entry(*old(store), *final(store), j),
        nodes@[id as int].render matches Render::Sized(b) ==> forall|k: int, j: int|
            0 <= k < nodes@[id as int].children@.len() && 0 <= j < nodes@.len() && cached(
                *old(store),
                #[trigger] nodes@[id as int].children@[k] as int,
                BoxClamp::fixed_size_spec(b.size),
            ) && #[trigger] is_desc(nodes@, j, nodes@[id as int].children@[k] as int)
                ==> unchanged_entry(*old(store), *final(store), j),
        nodes@[id as int].render matches Render::Sized(b) ==> forall|k: int|
            0 <= k < nodes@[id as int].children@.len() && cached(
                *old(store),
                #[trigger] nodes@[id as int].children@[k] as int,
                BoxClamp::fixed_size_spec(b.size),
            ) ==> unchanged_entry(*old(store), *final(store), nodes@[id as int].children@[k] as int),
        (nodes@[id as int].render matches Render::Visibility(v) && !v.visible) ==> {
            &&& final(store).infos@ == old(store).infos@
            &&& final(store).performed@ == old(store).performed@
        },
        nodes@[id as int].render matches Render::Flex(_) ==> forall|k: int|
            0 <= k < nodes@[id as int].children@.len() ==> has_size(
                *final(store),
                #[trigger] nodes@[id as int].children@[k] as int,
            ),
        nodes@[id as int].render matches Render::Sized(_) ==> forall|k: int|
            0 <= k < nodes@[id as int].children@.len() ==> cached(
                *final(store),
                #[trigger] nodes@[id as int].children@[k] as int,
                BoxClamp::fixed_size_spec(r),
            ),
        (nodes@[id as int].render matches Render::Visibility(v) && !v.visible) ==> r == Size::zero_spec(),
        nodes@[id as int].children@.len() == 0 ==> (nodes@[id as int].render matches Render::IgnorePointer(_) ==> r == Size::zero_spec()),
        nodes@[id as int].children@.len() == 0 ==> (nodes@[id as int].render matches Render::Visibility(_) ==> r == Size::zero_spec()),
        nodes@[id as int].children@.len() > 0 ==> ((nodes@[id as int].render is IgnorePointer || (
        nodes@[id as int].render matches Render::Visibility(v) && v.visible)) ==> final(store).infos@[nodes@[id as int].children@[0] as int]
            == Some(
            LayoutInfo {
                clamp,
                size: Some(r),
                ..old(store).layout_info_or_default_spec(nodes@[id as int].children@[0] as int)
            },
        )),
        (nodes@[id as int].render is Flex && clamp.wf()) ==> clamp.contains(r),
        nodes@[id as int].render matches Render::Flex(f) ==> flex_outcome(
            nodes@,
            *old(store),
            *final(store),
            id as int,
            f,
            clamp,
            r,
        ),
        nodes@[id as int].render matches Render::Stack(st) ==> forall|k: int|
            0 <= k < nodes@[id as int].children@.len() ==> {
                let c = #[trigger] nodes@[id as int].children@[k] as int;
                if nodes@[c].in_parent_layout {
                    cached(*final(store), c, BoxClamp::max_size_spec(r))
                } else {
                    cached(*final(store), c, stack_clamp_spec(st.fit, clamp))
                }
            },
        nodes@[id as int].render matches Render::Stack(_) ==> r == normal_children_max(
            nodes@,
            *final(store),
            id as int,
            nodes@[id as int].children@.len() as int,
        ).clamp_spec(clamp.min, clamp.max),
    decreases nodes@.len() - id, 3int,
{
    match nodes[id].render {
        Render::Sized(b) => {
            layout_children_with(nodes, store, id, BoxClamp::fixed_size(b.size));
            b.size
        },
        Render::Plain(b) => {
            layout_children_with(nodes, store, id, clamp);
            b.size
        },
        Render::IgnorePointer(_) => layout_single_child(nodes, store, id, clamp),
        Render::Visibility(v) => {
            if v.visible {
                layout_single_child(nodes, store, id, clamp)
            } else {
                Size::zero()
            }
        },
        Render::Stack(s) => layout_stack(nodes, store, id, s, clamp),
        Render::Flex(f) => layout_flex(nodes, store, id, f, clamp),
    }
}

/// Lays out the first child of `id` under `clamp` and returns its size; with
/// no child, the size is zero.
fn layout_single_child(nodes: &Vec<Node>, store: &mut LayoutStore, id: usize, clamp: BoxClamp) -> (r: Size)
    requires
        links_wf(nodes@),
        old(store).wf(nodes@.len()),
        id < nodes@.len(),
    ensures
        participant_frame(nodes@, *old(store), *final(store), id as int),
        nodes@[id as int].children@.len() == 0 ==> r == Size::zero_spec(),
        nodes@[id as int].children@.len() > 0 ==> final(store).infos@[nodes@[id as int].children@[0] as int]
            == Some(
            LayoutInfo {
                clamp,
                size: Some(r),
                ..old(store).layout_info_or_default_spec(nodes@[id as int].children@[0] as int)
            },
        ),
    decreases nodes@.len() - id, 0int,
{
    if nodes[id].children.len() == 0 {
        return Size::zero();
    }
    let c = nodes[id].children[0];
    proof {
        assert(nodes@[id as int].children@[0] == c);
    }
    let ghost entry = *store;
    let r = perform_child_layout(nodes, store, c, clamp);
    proof {
        lemma_child_frame(nodes@, id as int, c as int, entry, entry, *store);
    }
    r
}

/// The entry of `c`, and its count of layouts, are the same in `s1` as in
/// `s0`.
pub open spec fn unchanged_entry(s0: LayoutStore, s1: LayoutStore, c: int) -> bool {
    s1.infos@[c] == s0.infos@[c] && s1.performed@[c] == s0.performed@[c]
}

/// The store holds a size of `c`.
pub open spec fn has_size(store: LayoutStore, c: int) -> bool {
    store.infos@[c] is Some && store.infos@[c]->0.size is Some
}


/// Lays out every child of `id` under the same clamp.
fn layout_children_with(nodes: &Vec<Node>, store: &mut LayoutStore, id: usize, clamp: BoxClamp)
    requires
        links_wf(nodes@),
        old(store).wf(nodes@.len()),
        id < nodes@.len(),
    ensures
        participant_frame(nodes@, *old(store), *final(store), id as int),
        forall|k: int|
            0 <= k < nodes@[id as int].children@.len() ==> cached(
                *final(store),
                #[trigger] nodes@[id as int].children@[k] as int,
                clamp,
            ),
        forall|k: int|
            0 <= k < nodes@[id as int].children@.len() && cached(
                *old(store),
                #[trigger] nodes@[id as int].children@[k] as int,
                clamp,
            ) ==> unchanged_entry(*old(store), *final(store), nodes@[id as int].children@[k] as int),
        forall|k: int, j: int|
            0 <= k < nodes@[id as int].children@.len() && 0 <= j < nodes@.len() && cached(
                *old(store),
                #[trigger] nodes@[id as int].children@[k] as int,
                clamp,
            ) && #[trigger] is_desc(nodes@, j, nodes@[id as int].children@[k] as int)
                ==> unchanged_entry(*old(store), *final(store), j),
        forall|k: int|
            0 <= k < nodes@[id as int].children@.len() ==> laid_out_as(
                nodes@,
                *old(store),
                *final(store),
                #[trigger] nodes@[id as int].children@[k] as int,
                clamp,
            ),
        forall|k: int|
            0 <= k < nodes@[id as int].children@.len() ==> laid_out_deep(
                nodes@,
                *old(store),
                *final(store),
                #[trigger] nodes@[id as int].children@[k] as int,
                clamp,
            ),
    decreases nodes@.len() - id, 0int,
{
    let ghost entry = *store;
    let n = nodes[id].children.len();
    let mut k: usize = 0;
    while k < n
        invariant
            links_wf(nodes@),
            id < nodes@.len(),
            n == nodes@[id as int].children@.len(),
            k <= n,
            participant_frame(nodes@, entry, *store, id as int),
            forall|m: int|
                0 <= m < k ==> cached(
                    *store,
                    #[trigger] nodes@[id as int].children@[m] as int,
                    clamp,
                ),
            forall|m: int|
                0 <= m < n && (k <= m || cached(entry, nodes@[id as int].children@[m] as int, clamp))
                    ==> unchanged_entry(entry, *store, #[trigger] nodes@[id as int].children@[m] as int),
            forall|m: int, j: int|
                0 <= m < n && 0 <= j < nodes@.len() && (k <= m || cached(
                    entry,
                    nodes@[id as int].children@[m] as int,
                    clamp,
                )) && #[trigger] is_desc(nodes@, j, nodes@[id as int].children@[m] as int)
                    ==> unchanged_entry(entry, *store, j),
            forall|m: int|
                0 <= m < k ==> laid_out_as(
                    nodes@,
                    entry,
                    *store,
                    #[trigger] nodes@[id as int].children@[m] as int,
                    clamp,
                ),
            forall|m: int|
                0 <= m < k ==> laid_out_deep(
                    nodes@,
                    entry,
                    *store,
                    #[trigger] nodes@[id as int].children@[m] as int,
                    clamp,
                ),
        decreases n - k,
    {
        let c = nodes[id].children[k];
        proof {
            assert(nodes@[id as int].children@[k as int] == c);
        }
        let ghost before = *store;
        perform_child_layout(nodes, store, c, clamp);
        proof {
            lemma_child_frame(nodes@, id as int, c as int, entry, before, *store);
            assert forall|m: int|
                0 <= m < n && (k + 1 <= m || cached(entry, nodes@[id as int].children@[m] as int, clamp))
                    implies unchanged_entry(entry, *store, #[trigger] nodes@[id as int].children@[m] as int) by {
                let d = nodes@[id as int].children@[m] as int;
                if d != c {
                    lemma_sibling_not_desc(nodes@, d, c as int);
                    assert(unchanged_entry(entry, before, d));
                } else {
                    assert(m == k) by {
                        if m != k {
                            assert(nodes@[id as int].children@[m] != nodes@[id as int].children@[k as int]);
                        }
                    }
                    assert(unchanged_entry(entry, before, d));
                }
            }
            assert forall|m: int| 0 <= m < k + 1 implies laid_out_deep(
                nodes@,
                entry,
                *store,
                #[trigger] nodes@[id as int].children@[m] as int,
                clamp,
            ) by {
                let d = nodes@[id as int].children@[m] as int;
                if m < k {
                    assert(d != c) by {
                        assert(nodes@[id as int].children@[m] != nodes@[id as int].children@[k as int]);
                    }
                    assert forall|j: int| 0 <= j < nodes@.len() && #[trigger] is_desc(nodes@, j, d) implies unchanged_entry(
                        entry,
                        entry,
                        j,
                    ) && unchanged_entry(before, *store, j) by {
                        lemma_sibling_subtrees_apart(nodes@, j, d, c as int);
                    }
                    lemma_deep_transfer(nodes@, entry, before, entry, *store, d, clamp);
                } else {
                    assert(d == c);
                    assert forall|j: int| 0 <= j < nodes@.len() && #[trigger] is_desc(nodes@, j, d) implies unchanged_entry(
                        before,
                        entry,
                        j,
                    ) && unchanged_entry(*store, *store, j) by {
                        assert(unchanged_entry(entry, before, j));
                    }
                    lemma_deep_transfer(nodes@, before, *store, entry, *store, d, clamp);
                }
            }
            assert forall|m: int| 0 <= m < k + 1 implies laid_out_as(
                nodes@,
                entry,
                *store,
                #[trigger] nodes@[id as int].children@[m] as int,
                clamp,
            ) by {
                let d = nodes@[id as int].children@[m] as int;
                if m < k {
                    assert(d != c) by {
                        assert(nodes@[id as int].children@[m] != nodes@[id as int].children@[k as int]);
                    }
                    lemma_sibling_not_desc(nodes@, d, c as int);
                    assert(unchanged_entry(before, *store, d));
                } else {
                    assert(unchanged_entry(entry, before, d));
                }
            }
            assert forall|m: int, j: int|
                0 <= m < n && 0 <= j < nodes@.len() && (k + 1 <= m || cached(
                    entry,
                    nodes@[id as int].children@[m] as int,
                    clamp,
                )) && #[trigger] is_desc(nodes@, j, nodes@[id as int].children@[m] as int)
                    implies unchanged_entry(entry, *store, j) by {
                let d = nodes@[id as int].children@[m] as int;
                assert(unchanged_entry(entry, before, j));
                if d != c {
                    lemma_sibling_subtrees_apart(nodes@, j, d, c as int);
                } else {
                    assert(m == k) by {
                        if m != k {
                            assert(nodes@[id as int].children@[m] != nodes@[id as int].children@[k as int]);
                        }
                    }
                    assert(cached(before, c as int, clamp));
                }
            }
            assert forall|m: int| 0 <= m < k + 1 implies cached(
                *store,
                #[trigger] nodes@[id as int].children@[m] as int,
                clamp,
            ) by {
                let d = nodes@[id as int].children@[m] as int;
                if d != c {
                    lemma_sibling_not_desc(nodes@, d, c as int);
                    assert(store.infos@[d] == before.infos@[d]);
                }
            }
        }
        k += 1;
    }
}

/// The clamp that a stack passes on to its children.
pub open spec fn stack_clamp_spec(fit: StackFit, clamp: BoxClamp) -> BoxClamp {
    match fit {
        StackFit::Loose => BoxClamp { min: Size::zero_spec(), ..clamp },
        StackFit::Expand => {
            let w = if clamp.max.width != UNBOUNDED {
                BoxClamp {
                    min: Size { width: clamp.max.width, ..clamp.min },
                    max: clamp.max,
                }
            } else {
                clamp
            };
            if w.max.height != UNBOUNDED {
                BoxClamp { min: Size { height: w.max.height, ..w.min }, max: w.max }
            } else {
                w
            }
        },
        StackFit::Passthrough => clamp,
    }
}

impl Stack {
    pub fn child_clamp(&self, clamp: BoxClamp) -> (r: BoxClamp)
        ensures
            r == stack_clamp_spec(self.fit, clamp),
    {
        match self.fit {
            StackFit::Loose => clamp.loose(),
            StackFit::Expand => {
                let max = clamp.max;
                let mut c = clamp;
                if max.width != UNBOUNDED {
                    c = c.with_fixed_width(max.width);
                }
                if max.height != UNBOUNDED {
                    c = c.with_fixed_height(max.height);
                }
                c
            },
            StackFit::Passthrough => clamp,
        }
    }
}

/// The size held for `c`, zero where it has none.
pub open spec fn size_or_zero(store: LayoutStore, c: int) -> Size {
    match store.infos@[c] {
        Some(info) => match info.size {
            Some(s) => s,
            None => Size::zero_spec(),
        },
        None => Size::zero_spec(),
    }
}

/// The componentwise largest size of the first `k` children of `id` that are
/// not marked to lay out in their parent; zero where there is none.
pub open spec fn normal_children_max(nodes: Seq<Node>, store: LayoutStore, id: int, k: int) -> Size
    decreases k,
{
    if k <= 0 {
        Size::zero_spec()
    } else {
        let prev = normal_children_max(nodes, store, id, k - 1);
        let c = nodes[id].children@[k - 1] as int;
        if nodes[c].in_parent_layout {
            prev
        } else {
            let s = size_or_zero(store, c);
            Size { width: max_len(prev.width, s.width), height: max_len(prev.height, s.height) }
        }
    }
}

/// Where the entries of the normal children agree, so does their largest size.
proof fn lemma_normal_max_same(nodes: Seq<Node>, s0: LayoutStore, s1: LayoutStore, id: int, k: int)
    requires
        0 <= k <= nodes[id].children@.len(),
        forall|m: int|
            0 <= m < k && !nodes[nodes[id].children@[m] as int].in_parent_layout ==> s1.infos@[#[trigger] nodes[id].children@[m] as int]
                == s0.infos@[nodes[id].children@[m] as int],
    ensures
        normal_children_max(nodes, s1, id, k) == normal_children_max(nodes, s0, id, k),
    decreases k,
{
    if k > 0 {
        lemma_normal_max_same(nodes, s0, s1, id, k - 1);
    }
}

/// A stack: the children not marked to lay out in their parent are laid out
/// under the stack's clamp, and the stack takes the largest of their sizes,
/// within its clamp; the marked ones are then laid out within that size.
fn layout_stack(nodes: &Vec<Node>, store: &mut LayoutStore, id: usize, stack: Stack, clamp: BoxClamp) -> (r: Size)
    requires
        links_wf(nodes@),
        old(store).wf(nodes@.len()),
        id < nodes@.len(),
    ensures
        participant_frame(nodes@, *old(store), *final(store), id as int),
        r == normal_children_max(
            nodes@,
            *final(store),
            id as int,
            nodes@[id as int].children@.len() as int,
        ).clamp_spec(clamp.min, clamp.max),
        forall|k: int|
            0 <= k < nodes@[id as int].children@.len() ==> {
                let c = #[trigger] nodes@[id as int].children@[k] as int;
                if nodes@[c].in_parent_layout {
                    cached(*final(store), c, BoxClamp::max_size_spec(r))
                } else {
                    cached(*final(store), c, stack_clamp_spec(stack.fit, clamp))
                }
            },
    decreases nodes@.len() - id, 0int,
{
    let ghost entry = *store;
    let child_clamp = stack.child_clamp(clamp);
    let n = nodes[id].children.len();
    let mut size = Size::zero();
    let mut k: usize = 0;
    while k < n
        invariant
            links_wf(nodes@),
            id < nodes@.len(),
            n == nodes@[id as int].children@.len(),
            k <= n,
            participant_frame(nodes@, entry, *store, id as int),
            child_clamp == stack_clamp_spec(stack.fit, clamp),
            size == normal_children_max(nodes@, *store, id as int, k as int),
            forall|m: int|
                0 <= m < k && !nodes@[nodes@[id as int].children@[m] as int].in_parent_layout ==> cached(
                    *store,
                    #[trigger] nodes@[id as int].children@[m] as int,
                    child_clamp,
                ),
        decreases n - k,
    {
        let c = nodes[id].children[k];
        proof {
            assert(nodes@[id as int].children@[k as int] == c);
        }
        if !nodes[c].in_parent_layout {
            let ghost before = *store;
            let s = perform_child_layout(nodes, store, c, child_clamp);
            proof {
                lemma_child_frame(nodes@, id as int, c as int, entry, before, *store);
                assert forall|m: int|
                    0 <= m < k && !nodes@[nodes@[id as int].children@[m] as int].in_parent_layout implies store.infos@[#[trigger] nodes@[id as int].children@[m] as int]
                        == before.infos@[nodes@[id as int].children@[m] as int] by {
                    let d = nodes@[id as int].children@[m] as int;
                    if d != c {
                        lemma_sibling_not_desc(nodes@, d, c as int);
                    }
                }
                lemma_normal_max_same(nodes@, before, *store, id as int, k as int);
            }
            size = size.max(s);
        } else {
            proof {
                assert(normal_children_max(nodes@, *store, id as int, k + 1) == normal_children_max(
                    nodes@,
                    *store,
                    id as int,
                    k as int,
                ));
            }
        }
        k += 1;
    }
    let size = clamp.clamp(size);
    let in_parent = BoxClamp::max_size(size);
    let ghost after_normal = *store;
    let mut k: usize = 0;
    while k < n
        invariant
            links_wf(nodes@),
            id < nodes@.len(),
            n == nodes@[id as int].children@.len(),
            k <= n,
            participant_frame(nodes@, entry, *store, id as int),
            in_parent == BoxClamp::max_size_spec(size),
            forall|m: int|
                0 <= m < n && !nodes@[nodes@[id as int].children@[m] as int].in_parent_layout ==> store.infos@[#[trigger] nodes@[id as int].children@[m] as int]
                    == after_normal.infos@[nodes@[id as int].children@[m] as int],
            forall|m: int|
                0 <= m < k && nodes@[nodes@[id as int].children@[m] as int].in_parent_layout ==> cached(
                    *store,
                    #[trigger] nodes@[id as int].children@[m] as int,
                    in_parent,
                ),
        decreases n - k,
    {
        let c = nodes[id].children[k];
        proof {
            assert(nodes@[id as int].children@[k as int] == c);
        }
        if nodes[c].in_parent_layout {
            let ghost before = *store;
            perform_child_layout(nodes, store, c, in_parent);
            proof {
                lemma_child_frame(nodes@, id as int, c as int, entry, before, *store);
                assert forall|m: int|
                    0 <= m < n && nodes@[id as int].children@[m] as int != c implies store.infos@[#[trigger] nodes@[id as int].children@[m] as int]
                        == before.infos@[nodes@[id as int].children@[m] as int] by {
                    lemma_sibling_not_desc(nodes@, nodes@[id as int].children@[m] as int, c as int);
                }
            }
        }
        k += 1;
    }
    proof {
        lemma_normal_max_same(nodes@, after_normal, *store, id as int, n as int);
    }
    size
}

/// The children of `id` in the order of the main axis.
fn main_axis_order(nodes: &Vec<Node>, id: usize, reverse: bool) -> (r: Vec<usize>)
    requires
        links_wf(nodes@),
        id < nodes@.len(),
    ensures
        r@.len() == nodes@[id as int].children@.len(),
        forall|m: int|
            0 <= m < r@.len() ==> #[trigger] r@[m] == if reverse {
                nodes@[id as int].children@[r@.len() - 1 - m]
            } else {
                nodes@[id as int].children@[m]
            },
        forall|m: int| 0 <= m < r@.len() ==> is_child(nodes@, id as int, #[trigger] r@[m] as int),
        forall|m1: int, m2: int| 0 <= m1 < m2 < r@.len() ==> #[trigger] r@[m1] != #[trigger] r@[m2],
{
    let n = nodes[id].children.len();
    let mut order: Vec<usize> = Vec::new();
    let mut k: usize = 0;
    while k < n
        invariant
            links_wf(nodes@),
            id < nodes@.len(),
            n == nodes@[id as int].children@.len(),
            k <= n,
            order@.len() == k,
            forall|m: int|
                0 <= m < k ==> #[trigger] order@[m] == if reverse {
                    nodes@[id as int].children@[n - 1 - m]
                } else {
                    nodes@[id as int].children@[m]
                },
            forall|m: int| 0 <= m < k ==> is_child(nodes@, id as int, #[trigger] order@[m] as int),
        decreases n - k,
    {
        let idx = if reverse { n - 1 - k } else { k };
        let c = nodes[id].children[idx];
        proof {
            assert(nodes@[id as int].children@[idx as int] == c);
        }
        order.push(c);
        k += 1;
    }
    proof {
        assert forall|m1: int, m2: int| 0 <= m1 < m2 < order@.len() implies #[trigger] order@[m1]
            != #[trigger] order@[m2] by {
            let ch = nodes@[id as int].children@;
            if reverse {
                assert(ch[n - 1 - m2] != ch[n - 1 - m1]);
            } else {
                assert(ch[m1] != ch[m2]);
            }
        }
    }
    order
}

/// `c` is a child of `id`.
pub open spec fn is_child(nodes: Seq<Node>, id: int, c: int) -> bool {
    &&& 0 <= id < c < nodes.len()
    &&& nodes[c].parent is Some
    &&& nodes[c].parent->0 == id
}

/// A length from a signed extent, held within `0 ..= UNBOUNDED`.
fn len_from(v: i64) -> (r: u32)
    ensures
        r == if v <= 0 {
            0
        } else if v >= UNBOUNDED {
            UNBOUNDED
        } else {
            v as u32
        },
{
    if v <= 0 {
        0
    } else if v >= UNBOUNDED as i64 {
        UNBOUNDED
    } else {
        v as u32
    }
}

/// The index, in main-axis order, of the first child of line `li`.
pub open spec fn line_start(lines: Seq<MainLineInfo>, li: int) -> int
    decreases li,
{
    if li <= 0 {
        0
    } else {
        line_start(lines, li - 1) + lines[li - 1].child_count
    }
}

/// The widest of the first `n` lines.
pub open spec fn widest(lines: Seq<MainLineInfo>, n: int) -> u32
    decreases n,
{
    if n <= 0 {
        0
    } else {
        max_len(widest(lines, n - 1), lines[n - 1].main_width)
    }
}

/// The cross extents of the first `n` lines together: where line `n` starts.
pub open spec fn lines_cross(lines: Seq<MainLineInfo>, n: int) -> u32
    decreases n,
{
    if n <= 0 {
        0
    } else {
        sat_add(lines_cross(lines, n - 1), lines[n - 1].cross_line_height)
    }
}

/// Every line holds a child and starts where the lines before it end.
pub open spec fn lines_wf(lines: Seq<MainLineInfo>) -> bool {
    forall|i: int|
        0 <= i < lines.len() ==> (#[trigger] lines[i]).child_count > 0 && lines[i].cross_pos
            == lines_cross(lines, i)
}

/// The state of pass one after the first `k` children, of main-axis sizes
/// `sizes` and flex factors `flexes`: the closed lines, the current line, the
/// widest closed line, and each child's place in its line (main offset, and
/// the cross offset of the line).
pub open spec fn pass_one(
    sizes: Seq<FlexSize>,
    flexes: Seq<Option<u32>>,
    wrap: bool,
    max_main: u32,
    k: int,
) -> (Seq<MainLineInfo>, MainLineInfo, u32, Seq<i64>, Seq<u32>)
    decreases k,
{
    if k <= 0 {
        (Seq::empty(), MainLineInfo::starting_at_spec(0), 0, Seq::empty(), Seq::empty())
    } else {
        let (lines, cur, mm, mp, cp) = pass_one(sizes, flexes, wrap, max_main, k - 1);
        let fs = sizes[k - 1];
        let (lines2, cur2, mm2) = if breaks_line_spec(wrap, cur, fs.main, max_main) {
            close_line(lines, cur, mm)
        } else {
            (lines, cur, mm)
        };
        (
            lines2,
            cur2.place_spec(fs, flexes[k - 1]),
            mm2,
            mp.push(cur2.main_width as i64),
            cp.push(cur2.cross_pos),
        )
    }
}

/// Closes the current line where it holds a child.
pub open spec fn close_line(lines: Seq<MainLineInfo>, cur: MainLineInfo, mm: u32) -> (
    Seq<MainLineInfo>,
    MainLineInfo,
    u32,
) {
    if cur.is_empty_spec() {
        (lines, cur, mm)
    } else {
        (
            lines.push(cur),
            MainLineInfo::starting_at_spec(cur.cross_bottom_spec()),
            max_len(mm, cur.main_width),
        )
    }
}

/// Pass one reads only the sizes of the children it has placed.
proof fn lemma_pass_one_prefix(
    a: Seq<FlexSize>,
    b: Seq<FlexSize>,
    flexes: Seq<Option<u32>>,
    wrap: bool,
    max_main: u32,
    k: int,
)
    requires
        0 <= k <= a.len(),
        k <= b.len(),
        forall|i: int| 0 <= i < k ==> a[i] == b[i],
    ensures
        pass_one(a, flexes, wrap, max_main, k) == pass_one(b, flexes, wrap, max_main, k),
    decreases k,
{
    if k > 0 {
        lemma_pass_one_prefix(a, b, flexes, wrap, max_main, k - 1);
    }
}

/// Two states of a line with the same children and cross placement.
pub open spec fn same_line_shape(a: MainLineInfo, b: MainLineInfo) -> bool {
    a.child_count == b.child_count && a.cross_pos == b.cross_pos && a.cross_line_height
        == b.cross_line_height
}

/// Replacing line `li` leaves the widest of the lines before it alone.
proof fn lemma_widest_update(lines: Seq<MainLineInfo>, li: int, line: MainLineInfo)
    requires
        0 <= li < lines.len(),
    ensures
        widest(lines.update(li, line), li + 1) == max_len(widest(lines, li), line.main_width),
{
    lemma_widest_prefix_same(lines, lines.update(li, line), li);
}

proof fn lemma_widest_prefix_same(a: Seq<MainLineInfo>, b: Seq<MainLineInfo>, n: int)
    requires
        0 <= n <= a.len(),
        n <= b.len(),
        forall|i: int| 0 <= i < n ==> a[i] == b[i],
    ensures
        widest(a, n) == widest(b, n),
    decreases n,
{
    if n > 0 {
        lemma_widest_prefix_same(a, b, n - 1);
    }
}


/// Adding a line leaves the totals of the lines before it alone.
proof fn lemma_lines_prefix(lines: Seq<MainLineInfo>, line: MainLineInfo, n: int)
    requires
        0 <= n <= lines.len(),
    ensures
        lines_cross(lines.push(line), n) == lines_cross(lines, n),
        widest(lines.push(line), n) == widest(lines, n),
        line_start(lines.push(line), n) == line_start(lines, n),
    decreases n,
{
    if n > 0 {
        lemma_lines_prefix(lines, line, n - 1);
        assert(lines.push(line)[n - 1] == lines[n - 1]);
    }
}

/// A later line starts no earlier.
proof fn lemma_line_start_mono(lines: Seq<MainLineInfo>, a: int, b: int)
    requires
        0 <= a <= b,
    ensures
        line_start(lines, a) <= line_start(lines, b),
    decreases b - a,
{
    if a < b {
        lemma_line_start_mono(lines, a, b - 1);
    }
}

pub open spec fn min_int(a: int, b: int) -> int {
    if a <= b { a } else { b }
}

/// The state of one layout of a flex container, rebuilt on every layout:
/// the lines placed so far, and for each child, in main-axis order, its size
/// and its place in its line.
pub struct FlexLayouter {
    pub max_size: FlexSize,
    pub min_size: FlexSize,
    pub direction: Direction,
    pub wrap: bool,
    pub align_items: Align,
    pub justify_content: JustifyContent,
    /// The widest line.
    pub main_max: u32,
    pub current_line: MainLineInfo,
    pub lines_info: Vec<MainLineInfo>,
    /// The children in main-axis order.
    pub order: Vec<usize>,
    pub sizes: Vec<FlexSize>,
    pub main_pos: Vec<i64>,
    pub cross_pos: Vec<u32>,
}

impl FlexLayouter {
    /// The children are those of `id`, and each has a size and a place.
    pub open spec fn placed(&self, nodes: Seq<Node>, id: int) -> bool {
        &&& 0 <= id < nodes.len()
        &&& self.sizes@.len() == self.order@.len()
        &&& self.main_pos@.len() == self.order@.len()
        &&& self.cross_pos@.len() == self.order@.len()
        &&& forall|m: int|
            0 <= m < self.order@.len() ==> is_child(nodes, id, #[trigger] self.order@[m] as int)
        &&& forall|m1: int, m2: int|
            0 <= m1 < m2 < self.order@.len() ==> #[trigger] self.order@[m1] != #[trigger] self.order@[m2]
    }

    /// The flex factors of the children, in main-axis order.
    pub open spec fn flexes(&self, nodes: Seq<Node>) -> Seq<Option<u32>> {
        Seq::new(self.order@.len(), |m: int| nodes[self.order@[m] as int].flex)
    }

    /// The first `upto` children in main-axis order have a size.
    pub open spec fn sized_upto(&self, store: LayoutStore, upto: int) -> bool {
        forall|m: int| 0 <= m < upto ==> has_size(store, #[trigger] self.order@[m] as int)
    }

    /// The main extent that the `k`-th child asks for in pass two: its share
    /// of the free space of `line` where it is flexible, else its extent.
    pub open spec fn prefer_main(&self, nodes: Seq<Node>, line: MainLineInfo, k: int) -> u32 {
        let pre = self.sizes@[k];
        match nodes[self.order@[k] as int].flex {
            Some(f) => flex_share_spec(
                self.max_size.main - line.main_width + line.flex_main_width,
                f,
                line.flex_sum,
                pre.main,
            ),
            None => pre.main,
        }
    }

    /// The cross minimum of pass two: the line's cross extent where the
    /// children stretch, else zero.
    pub open spec fn cross_min(&self, line: MainLineInfo) -> u32 {
        if self.align_items == Align::Stretch {
            line.cross_line_height
        } else {
            0
        }
    }

    /// The clamp under which pass two lays out the `k`-th child again.
    pub open spec fn relayout_clamp(&self, nodes: Seq<Node>, line: MainLineInfo, k: int) -> BoxClamp {
        let m = self.prefer_main(nodes, line, k);
        BoxClamp {
            min: FlexSize { main: m, cross: self.cross_min(line) }.to_size_spec(self.direction),
            max: FlexSize { main: m, cross: line.cross_line_height }.to_size_spec(self.direction),
        }
    }

    /// Pass two lays out the `k`-th child again only where the new clamp
    /// could change its size.
    pub open spec fn needs_relayout(&self, nodes: Seq<Node>, line: MainLineInfo, k: int) -> bool {
        self.prefer_main(nodes, line, k) > self.sizes@[k].main || self.cross_min(line)
            > self.sizes@[k].cross
    }

    /// The line after its `k`-th child took `new_size`: a flexible child
    /// leaves its factor and its old extent out of the line's flexible
    /// totals, and the line's extent changes as the child's did.
    pub open spec fn line_after(&self, nodes: Seq<Node>, line: MainLineInfo, k: int, new_size: FlexSize) -> MainLineInfo {
        let pre = self.sizes@[k];
        let l = match nodes[self.order@[k] as int].flex {
            Some(f) => MainLineInfo {
                flex_sum: if line.flex_sum >= f {
                    (line.flex_sum - f) as u64
                } else {
                    0
                },
                flex_main_width: if line.flex_main_width >= pre.main {
                    (line.flex_main_width - pre.main) as u32
                } else {
                    0
                },
                ..line
            },
            None => line,
        };
        MainLineInfo { main_width: len_of(line.main_width + new_size.main - pre.main), ..l }
    }

    /// The `line` state and the main offset of pass two after the first `j`
    /// children of a line that starts at `start`, the children taking the
    /// sizes `new_sizes`.
    pub open spec fn line_fold(
        &self,
        nodes: Seq<Node>,
        line: MainLineInfo,
        start: int,
        j: int,
        new_sizes: Seq<FlexSize>,
    ) -> (MainLineInfo, i64)
        decreases j,
    {
        if j <= 0 {
            (line, 0)
        } else {
            let (l, off) = self.line_fold(nodes, line, start, j - 1, new_sizes);
            let k = start + j - 1;
            (
                self.line_after(nodes, l, k, new_sizes[k]),
                coord(off + new_sizes[k].main - self.sizes@[k].main),
            )
        }
    }

    /// What pass two, starting from this state, did to the `j`-th child of
    /// line `li`, as `fin` and `store` show it: it moved by the offset of the
    /// children before it, and it was laid out again under the relayout
    /// clamp exactly where that could change its size.
    pub open spec fn pass_two_ok(
        &self,
        fin: FlexLayouter,
        begin: LayoutStore,
        store: LayoutStore,
        nodes: Seq<Node>,
        li: int,
        j: int,
    ) -> bool {
        let start = line_start(self.lines_info@, li);
        let k = start + j;
        let c = self.order@[k] as int;
        let (l, off) = self.line_fold(nodes, self.lines_info@[li], start, j, fin.sizes@);
        let clamp = self.relayout_clamp(nodes, l, k);
        let a = fin.sizes@[k].to_size_spec(self.direction);
        &&& fin.main_pos@[k] == coord(self.main_pos@[k] + off)
        &&& if self.needs_relayout(nodes, l, k) {
            &&& child_answer_ok(nodes, begin.infos@[c], c, clamp, a)
            &&& store.infos@[c] == entry_after(begin.infos@[c], clamp, a)
            &&& laid_out_once(begin, store, c, clamp)
        } else {
            &&& fin.sizes@[k] == self.sizes@[k]
            &&& unchanged_entry(begin, store, c)
        }
    }

    /// The container's size: the size the lines take, within the clamp.
    pub open spec fn box_size_spec(&self) -> FlexSize {
        self.best_size_spec().clamp_spec(self.min_size, self.max_size)
    }

    pub open spec fn best_size_spec(&self) -> FlexSize {
        FlexSize {
            main: self.main_max,
            cross: if self.lines_info@.len() == 0 {
                0
            } else {
                self.lines_info@.last().cross_bottom_spec()
            },
        }
    }

    /// The size the lines take: the widest line, and the cross extents of
    /// the lines together.
    fn best_size(&self) -> (r: FlexSize)
        ensures
            r == self.best_size_spec(),
    {
        let cross = if self.lines_info.len() == 0 {
            0
        } else {
            self.lines_info[self.lines_info.len() - 1].cross_bottom()
        };
        FlexSize { main: self.main_max, cross }
    }

    /// The container's size: the size the lines take, within the clamp.
    fn box_size(&self) -> (r: FlexSize)
        ensures
            r == self.best_size_spec().clamp_spec(self.min_size, self.max_size),
    {
        self.best_size().clamp(self.min_size, self.max_size)
    }

    /// Closes the current line, where it holds a child: it joins the lines,
    /// and a new line starts after it on the cross axis.
    fn place_line(&mut self)
        ensures
            old(self).current_line.is_empty_spec() ==> *final(self) == *old(self),
            !old(self).current_line.is_empty_spec() ==> {
                &&& final(self).lines_info@ == old(self).lines_info@.push(old(self).current_line)
                &&& final(self).current_line == MainLineInfo::starting_at_spec(
                    old(self).current_line.cross_bottom_spec(),
                )
                &&& final(self).main_max == max_len(
                    old(self).main_max,
                    old(self).current_line.main_width,
                )
            },
            final(self).order == old(self).order,
            final(self).sizes == old(self).sizes,
            final(self).main_pos == old(self).main_pos,
            final(self).cross_pos == old(self).cross_pos,
            final(self).max_size == old(self).max_size,
            final(self).min_size == old(self).min_size,
            final(self).direction == old(self).direction,
            final(self).align_items == old(self).align_items,
            final(self).justify_content == old(self).justify_content,
            final(self).wrap == old(self).wrap,
    {
        if !self.current_line.is_empty() {
            self.main_max = len_max(self.main_max, self.current_line.main_width);
            let next = MainLineInfo::starting_at(self.current_line.cross_bottom());
            self.lines_info.push(self.current_line);
            self.current_line = next;
        }
    }

    /// Pass one: each child, in main-axis order, is laid out under the
    /// container's maximum and placed at the end of the current line; where
    /// wrapping is on and the child would carry a non-empty line past the
    /// maximum, the line is closed first.
    fn children_perform(&mut self, nodes: &Vec<Node>, store: &mut LayoutStore, id: usize)
        requires
            links_wf(nodes@),
            old(store).wf(nodes@.len()),
            id < nodes@.len(),
            old(self).sizes@.len() == 0,
            old(self).main_pos@.len() == 0,
            old(self).cross_pos@.len() == 0,
            old(self).current_line == MainLineInfo::starting_at_spec(0),
            old(self).lines_info@.len() == 0,
            old(self).main_max == 0,
            forall|m: int|
                0 <= m < old(self).order@.len() ==> is_child(nodes@, id as int, #[trigger] old(self).order@[m] as int),
            forall|m1: int, m2: int|
                0 <= m1 < m2 < old(self).order@.len() ==> #[trigger] old(self).order@[m1] != #[trigger] old(self).order@[m2],
        ensures
            participant_frame(nodes@, *old(store), *final(store), id as int),
            final(self).placed(nodes@, id as int),
            final(self).sized_upto(*final(store), final(self).order@.len() as int),
            final(self).order == old(self).order,
            final(self).max_size == old(self).max_size,
            final(self).min_size == old(self).min_size,
            final(self).direction == old(self).direction,
            final(self).align_items == old(self).align_items,
            final(self).justify_content == old(self).justify_content,
            final(self).wrap == old(self).wrap,
            lines_wf(final(self).lines_info@),
            line_start(final(self).lines_info@, final(self).lines_info@.len() as int)
                == final(self).order@.len(),
            final(self).main_max == widest(final(self).lines_info@, final(self).lines_info@.len() as int),
            forall|k: int|
                0 <= k < final(self).order@.len() ==> {
                    let c = #[trigger] final(self).order@[k] as int;
                    let clamp = BoxClamp {
                        min: Size::zero_spec(),
                        max: old(self).max_size.to_size_spec(old(self).direction),
                    };
                    let a = final(self).sizes@[k].to_size_spec(old(self).direction);
                    &&& child_answer_ok(nodes@, old(store).infos@[c], c, clamp, a)
                    &&& final(store).infos@[c] == entry_after(old(store).infos@[c], clamp, a)
                    &&& laid_out_once(*old(store), *final(store), c, clamp)
                },
            ({
                let (lines, cur, mm, mp, cp) = pass_one(
                    final(self).sizes@,
                    final(self).flexes(nodes@),
                    old(self).wrap,
                    old(self).max_size.main,
                    old(self).order@.len() as int,
                );
                let (lines2, _cur2, mm2) = close_line(lines, cur, mm);
                &&& final(self).lines_info@ == lines2
                &&& final(self).main_max == mm2
                &&& final(self).main_pos@ == mp
                &&& final(self).cross_pos@ == cp
            }),
            forall|k: int|
                0 <= k < final(self).order@.len() ==> {
                    let c = #[trigger] final(self).order@[k] as int;
                    &&& cached(
                        *final(store),
                        c,
                        BoxClamp {
                            min: Size::zero_spec(),
                            max: old(self).max_size.to_size_spec(old(self).direction),
                        },
                    )
                    &&& final(self).sizes@[k] == FlexSize::from_size_spec(
                        final(store).infos@[c]->0.size->0,
                        old(self).direction,
                    )
                },
        decreases nodes@.len() - id, 1int,
    {
        let ghost entry = *store;
        let clamp = BoxClamp { max: self.max_size.to_size(self.direction), min: Size::zero() };
        let cnt = self.order.len();
        let mut k: usize = 0;
        while k < cnt
            invariant
                links_wf(nodes@),
                id < nodes@.len(),
                cnt == self.order@.len(),
                forall|m: int| 0 <= m < cnt ==> is_child(nodes@, id as int, #[trigger] self.order@[m] as int),
                self.order == old(self).order,
                self.max_size == old(self).max_size,
                self.min_size == old(self).min_size,
                k <= cnt,
                self.sizes@.len() == k,
                self.main_pos@.len() == k,
                self.cross_pos@.len() == k,
                self.current_line.child_count <= k,
                participant_frame(nodes@, entry, *store, id as int),
                self.sized_upto(*store, k as int),
                self.direction == old(self).direction,
                self.align_items == old(self).align_items,
                self.justify_content == old(self).justify_content,
                lines_wf(self.lines_info@),
                self.current_line.cross_pos == lines_cross(self.lines_info@, self.lines_info@.len() as int),
                self.main_max == widest(self.lines_info@, self.lines_info@.len() as int),
                line_start(self.lines_info@, self.lines_info@.len() as int) + self.current_line.child_count == k,
                self.wrap == old(self).wrap,
                forall|m1: int, m2: int|
                    0 <= m1 < m2 < cnt ==> #[trigger] self.order@[m1] != #[trigger] self.order@[m2],
                clamp == (BoxClamp {
                    min: Size::zero_spec(),
                    max: old(self).max_size.to_size_spec(old(self).direction),
                }),
                (self.lines_info@, self.current_line, self.main_max, self.main_pos@, self.cross_pos@)
                    == pass_one(self.sizes@, self.flexes(nodes@), self.wrap, self.max_size.main, k as int),
                forall|m: int|
                    0 <= m < k ==> {
                        let c = #[trigger] self.order@[m] as int;
                        &&& cached(*store, c, clamp)
                        &&& self.sizes@[m] == FlexSize::from_size_spec(
                            store.infos@[c]->0.size->0,
                            self.direction,
                        )
                    },
                forall|m: int|
                    0 <= m < k ==> {
                        let c = #[trigger] self.order@[m] as int;
                        let a = self.sizes@[m].to_size_spec(self.direction);
                        &&& child_answer_ok(nodes@, entry.infos@[c], c, clamp, a)
                        &&& store.infos@[c] == entry_after(entry.infos@[c], clamp, a)
                        &&& laid_out_once(entry, *store, c, clamp)
                    },
                forall|m: int|
                    k <= m < cnt ==> unchanged_entry(entry, *store, #[trigger] self.order@[m] as int),
            decreases cnt - k,
        {
            let child = self.order[k];
            proof {
                assert(is_child(nodes@, id as int, self.order@[k as int] as int));
            }
            let ghost before = *store;
            let size = perform_child_layout(nodes, store, child, clamp);
            proof {
                assert(unchanged_entry(entry, before, child as int));
                assert forall|m: int| 0 <= m < cnt && m != k implies #[trigger] unchanged_entry(
                    before,
                    *store,
                    self.order@[m] as int,
                ) by {
                    assert(self.order@[m] != self.order@[k as int]);
                    assert(is_child(nodes@, id as int, self.order@[m] as int));
                    lemma_sibling_not_desc(nodes@, self.order@[m] as int, child as int);
                }
            }
            proof {
                lemma_child_frame(nodes@, id as int, child as int, entry, before, *store);
                self.lemma_sizes_kept(nodes@, id as int, before, *store, child as int, k as int + 1);
            }
            let flex_size = FlexSize::from_size(size, self.direction);
            let ghost sizes_before = self.sizes@;
            proof {
                assert forall|m: int| 0 <= m < k implies {
                    let c2 = #[trigger] self.order@[m] as int;
                    &&& cached(*store, c2, clamp)
                    &&& self.sizes@[m] == FlexSize::from_size_spec(store.infos@[c2]->0.size->0, self.direction)
                } by {
                    assert(self.order@[m] != self.order@[k as int]);
                    lemma_sibling_not_desc(nodes@, self.order@[m] as int, child as int);
                }
            }
            if breaks_line(self.wrap, &self.current_line, flex_size.main, self.max_size.main) {
                proof {
                    self.lemma_place_line_keeps(self.lines_info@, self.current_line);
                }
                self.place_line();
            }
            self.main_pos.push(self.current_line.main_width as i64);
            self.cross_pos.push(self.current_line.cross_pos);
            self.sizes.push(flex_size);
            self.current_line.place(flex_size, nodes[child].flex);
            proof {
                assert forall|m: int| 0 <= m < k + 1 implies {
                    let c = #[trigger] self.order@[m] as int;
                    let a = self.sizes@[m].to_size_spec(self.direction);
                    &&& child_answer_ok(nodes@, entry.infos@[c], c, clamp, a)
                    &&& store.infos@[c] == entry_after(entry.infos@[c], clamp, a)
                    &&& laid_out_once(entry, *store, c, clamp)
                } by {
                    if m < k {
                        assert(unchanged_entry(before, *store, self.order@[m] as int));
                        assert(sizes_before[m] == self.sizes@[m]);
                    } else {
                        assert(self.sizes@[m] == flex_size);
                    }
                }
                assert forall|m: int| k + 1 <= m < cnt implies unchanged_entry(
                    entry,
                    *store,
                    #[trigger] self.order@[m] as int,
                ) by {
                    assert(unchanged_entry(before, *store, self.order@[m] as int));
                }
                lemma_pass_one_prefix(
                    sizes_before,
                    self.sizes@,
                    self.flexes(nodes@),
                    self.wrap,
                    self.max_size.main,
                    k as int,
                );
            }
            k += 1;
        }
        proof {
            self.lemma_place_line_keeps(self.lines_info@, self.current_line);
        }
        self.place_line();
    }

    /// Closing a non-empty line keeps the lines well formed, with the widest
    /// line and the start of the next line following them.
    proof fn lemma_place_line_keeps(&self, lines: Seq<MainLineInfo>, line: MainLineInfo)
        requires
            lines_wf(lines),
            line.cross_pos == lines_cross(lines, lines.len() as int),
        ensures
            line.child_count > 0 ==> {
                let l2 = lines.push(line);
                &&& lines_wf(l2)
                &&& lines_cross(l2, l2.len() as int) == line.cross_bottom_spec()
                &&& widest(l2, l2.len() as int) == max_len(widest(lines, lines.len() as int), line.main_width)
                &&& line_start(l2, l2.len() as int) == line_start(lines, lines.len() as int) + line.child_count
            },
    {
        if line.child_count > 0 {
            let l2 = lines.push(line);
            assert forall|i: int| 0 <= i < l2.len() implies (#[trigger] l2[i]).child_count > 0 && l2[i].cross_pos
                == lines_cross(l2, i) by {
                lemma_lines_prefix(lines, line, i);
            }
            lemma_lines_prefix(lines, line, lines.len() as int);
        }
    }

    /// Pass two: the children of each line are replayed; flexible and
    /// stretched ones are laid out again, and the change of their main
    /// extent moves the children after them.
    fn relayout_if_need(&mut self, nodes: &Vec<Node>, store: &mut LayoutStore, id: usize)
        requires
            links_wf(nodes@),
            old(store).wf(nodes@.len()),
            old(self).placed(nodes@, id as int),
            old(self).sized_upto(*old(store), old(self).order@.len() as int),
            line_start(old(self).lines_info@, old(self).lines_info@.len() as int)
                == old(self).order@.len(),
        ensures
            participant_frame(nodes@, *old(store), *final(store), id as int),
            final(self).placed(nodes@, id as int),
            final(self).sized_upto(*final(store), final(self).order@.len() as int),
            final(self).order == old(self).order,
            final(self).lines_info@.len() == old(self).lines_info@.len(),
            final(self).max_size == old(self).max_size,
            final(self).min_size == old(self).min_size,
            final(self).direction == old(self).direction,
            final(self).align_items == old(self).align_items,
            final(self).justify_content == old(self).justify_content,
            final(self).cross_pos == old(self).cross_pos,
            forall|i: int|
                0 <= i < old(self).lines_info@.len() ==> same_line_shape(
                    #[trigger] final(self).lines_info@[i],
                    old(self).lines_info@[i],
                ),
            final(self).main_max == max_len(
                old(self).main_max,
                widest(final(self).lines_info@, final(self).lines_info@.len() as int),
            ),
            forall|li: int|
                0 <= li < old(self).lines_info@.len() ==> #[trigger] final(self).lines_info@[li]
                    == old(self).line_fold(
                    nodes@,
                    old(self).lines_info@[li],
                    line_start(old(self).lines_info@, li),
                    old(self).lines_info@[li].child_count as int,
                    final(self).sizes@,
                ).0,
            forall|li: int, j: int|
                0 <= li < old(self).lines_info@.len() && 0 <= j
                    < old(self).lines_info@[li].child_count ==> #[trigger] old(self).pass_two_ok(
                    *final(self),
                    *old(store),
                    *final(store),
                    nodes@,
                    li,
                    j,
                ),
        decreases nodes@.len() - id, 1int,
    {
        let ghost entry = *store;
        let ghost orig: FlexLayouter = *self;
        let ghost lines = orig.lines_info@;
        let ghost cnt = orig.order@.len() as int;
        let n = self.order.len();
        let mut k: usize = 0;
        let mut li: usize = 0;
        while li < self.lines_info.len()
            invariant
                n == cnt,
                links_wf(nodes@),
                self.placed(nodes@, id as int),
                self.sized_upto(*store, self.order@.len() as int),
                self.order == orig.order,
                self.lines_info@.len() == lines.len(),
                self.max_size == orig.max_size,
                self.min_size == orig.min_size,
                self.direction == orig.direction,
                self.align_items == orig.align_items,
                self.justify_content == orig.justify_content,
                self.cross_pos == orig.cross_pos,
                orig.order@.len() == cnt,
                lines == orig.lines_info@,
                line_start(lines, lines.len() as int) == cnt,
                li <= lines.len(),
                k == line_start(lines, li as int),
                participant_frame(nodes@, entry, *store, id as int),
                forall|i: int| 0 <= i < lines.len() ==> same_line_shape(#[trigger] self.lines_info@[i], lines[i]),
                forall|i: int| li <= i < lines.len() ==> #[trigger] self.lines_info@[i] == lines[i],
                forall|i: int|
                    0 <= i < li ==> #[trigger] self.lines_info@[i] == orig.line_fold(
                        nodes@,
                        lines[i],
                        line_start(lines, i),
                        lines[i].child_count as int,
                        self.sizes@,
                    ).0,
                self.main_max == max_len(orig.main_max, widest(self.lines_info@, li as int)),
                forall|k2: int| k <= k2 < cnt ==> #[trigger] self.sizes@[k2] == orig.sizes@[k2],
                forall|k2: int| k <= k2 < cnt ==> #[trigger] self.main_pos@[k2] == orig.main_pos@[k2],
                forall|k2: int| k <= k2 < cnt ==> unchanged_entry(entry, *store, #[trigger] self.order@[k2] as int),
                forall|li2: int, j2: int|
                    0 <= li2 < li && 0 <= j2 < lines[li2].child_count ==> #[trigger] orig.pass_two_ok(*self, entry, *store,
                        nodes@,
                        li2,
                        j2,
                    ),
            decreases lines.len() - li,
        {
            proof {
                lemma_line_start_mono(lines, li + 1, lines.len() as int);
            }
            let mut line = self.lines_info[li];
            let count = line.child_count;
            let mut main_offset: i64 = 0;
            let mut j: usize = 0;
            let ghost start = k as int;
            proof {
                assert(line_start(lines, li + 1) == line_start(lines, li as int)
                    + lines[li as int].child_count);
            }
            while j < count
                invariant
                    n == cnt,
                    count == lines[li as int].child_count,
                    links_wf(nodes@),
                    self.placed(nodes@, id as int),
                    self.sized_upto(*store, self.order@.len() as int),
                    self.order == orig.order,
                    self.lines_info@.len() == lines.len(),
                    self.max_size == orig.max_size,
                    self.min_size == orig.min_size,
                    self.direction == orig.direction,
                    self.align_items == orig.align_items,
                    self.justify_content == orig.justify_content,
                    self.cross_pos == orig.cross_pos,
                    orig.order@.len() == cnt,
                    lines == orig.lines_info@,
                    line_start(lines, lines.len() as int) == cnt,
                    li < lines.len(),
                    start == line_start(lines, li as int),
                    start + lines[li as int].child_count <= cnt,
                    j <= lines[li as int].child_count,
                    k == start + j,
                    participant_frame(nodes@, entry, *store, id as int),
                    (line, main_offset) == orig.line_fold(
                        nodes@,
                        lines[li as int],
                        start,
                        j as int,
                        self.sizes@,
                    ),
                    forall|i: int| 0 <= i < lines.len() ==> same_line_shape(#[trigger] self.lines_info@[i], lines[i]),
                    forall|i: int| li <= i < lines.len() ==> #[trigger] self.lines_info@[i] == lines[i],
                    forall|i: int|
                        0 <= i < li ==> #[trigger] self.lines_info@[i] == orig.line_fold(
                            nodes@,
                            lines[i],
                            line_start(lines, i),
                            lines[i].child_count as int,
                            self.sizes@,
                        ).0,
                    self.main_max == max_len(orig.main_max, widest(self.lines_info@, li as int)),
                    forall|k2: int| k <= k2 < cnt ==> #[trigger] self.sizes@[k2] == orig.sizes@[k2],
                    forall|k2: int| k <= k2 < cnt ==> #[trigger] self.main_pos@[k2] == orig.main_pos@[k2],
                    forall|k2: int| k <= k2 < cnt ==> unchanged_entry(entry, *store, #[trigger] self.order@[k2] as int),
                forall|k2: int| k <= k2 < cnt ==> unchanged_entry(entry, *store, #[trigger] self.order@[k2] as int),
                    forall|li2: int, j2: int|
                        (0 <= li2 < li && 0 <= j2 < lines[li2].child_count) || (li2 == li && 0 <= j2
                            < j) ==> #[trigger] orig.pass_two_ok(*self, entry, *store, nodes@, li2, j2),
                decreases lines[li as int].child_count - j,
            {
                let ghost before = *self;
                let ghost store_before = *store;
                let ghost line_before = line;
                let ghost off_before = main_offset;
                main_offset = self.obj_real_rect_with_main_start(
                    nodes,
                    store,
                    id,
                    &mut line,
                    k,
                    main_offset,
                );
                proof {
                    lemma_frame_trans(nodes@, entry, store_before, *store, id as int);
                    let new_sizes = self.sizes@;
                    assert forall|i: int| 0 <= i < k implies before.sizes@[i] == new_sizes[i] by {}
                    lemma_line_start_mono(lines, 0, li as int);
                    assert(before.sizes@[k as int] == orig.sizes@[k as int]);
                    assert(before.prefer_main(nodes@, line_before, k as int) == orig.prefer_main(
                        nodes@,
                        line_before,
                        k as int,
                    ));
                    assert(before.needs_relayout(nodes@, line_before, k as int)
                        == orig.needs_relayout(nodes@, line_before, k as int));
                    assert(before.relayout_clamp(nodes@, line_before, k as int)
                        == orig.relayout_clamp(nodes@, line_before, k as int));
                    assert(before.line_after(nodes@, line_before, k as int, new_sizes[k as int])
                        == orig.line_after(nodes@, line_before, k as int, new_sizes[k as int]));
                    orig.lemma_line_fold_prefix(
                        nodes@,
                        lines[li as int],
                        start,
                        j as int,
                        before.sizes@,
                        new_sizes,
                    );
                    assert((line, main_offset) == orig.line_fold(
                        nodes@,
                        lines[li as int],
                        start,
                        j + 1,
                        new_sizes,
                    ));
                    assert forall|i: int|
                        0 <= i < li implies #[trigger] self.lines_info@[i] == orig.line_fold(
                        nodes@,
                        lines[i],
                        line_start(lines, i),
                        lines[i].child_count as int,
                        self.sizes@,
                    ).0 by {
                        lemma_line_start_mono(lines, i + 1, li as int);
                        lemma_line_start_mono(lines, 0, i);
                        assert(line_start(lines, i + 1) == line_start(lines, i) + lines[i].child_count);
                        orig.lemma_line_fold_prefix(
                            nodes@,
                            lines[i],
                            line_start(lines, i),
                            lines[i].child_count as int,
                            before.sizes@,
                            new_sizes,
                        );
                    }
                    assert forall|li2: int, j2: int|
                        (0 <= li2 < li && 0 <= j2 < lines[li2].child_count) || (li2 == li && 0 <= j2
                            < j + 1) implies #[trigger] orig.pass_two_ok(*self, entry, *store, nodes@, li2, j2) by {
                        let k2 = line_start(lines, li2) + j2;
                        lemma_line_start_mono(lines, 0, li2);
                        if li2 < li {
                            lemma_line_start_mono(lines, li2 + 1, li as int);
                            assert(line_start(lines, li2 + 1) == line_start(lines, li2)
                                + lines[li2].child_count);
                        }
                        orig.lemma_line_fold_prefix(
                            nodes@,
                            lines[li2],
                            line_start(lines, li2),
                            j2,
                            before.sizes@,
                            new_sizes,
                        );
                        if k2 != k {
                            assert(orig.pass_two_ok(before, entry, store_before, nodes@, li2, j2));
                            assert(k2 < k);
                            assert(unchanged_entry(store_before, *store, self.order@[k2] as int));
                        } else {
                            assert(li2 == li && j2 == j);
                            assert(unchanged_entry(entry, store_before, self.order@[k as int] as int));
                        }
                    }
                }
                proof {
                    assert forall|k2: int| k + 1 <= k2 < cnt implies unchanged_entry(
                        entry,
                        *store,
                        #[trigger] self.order@[k2] as int,
                    ) by {
                        assert(unchanged_entry(entry, store_before, self.order@[k2] as int));
                        assert(unchanged_entry(store_before, *store, self.order@[k2] as int));
                    }
                }
                assert(k < self.order@.len());
                k += 1;
                j += 1;
            }
            let ghost prev = self.lines_info@;
            let ghost before_set = *self;
            self.main_max = len_max(self.main_max, line.main_width);
            self.lines_info.set(li, line);
            proof {
                assert forall|li2: int, j2: int|
                    0 <= li2 <= li && 0 <= j2 < lines[li2].child_count implies #[trigger] orig.pass_two_ok(*self, entry, *store,
                    nodes@,
                    li2,
                    j2,
                ) by {
                    assert(orig.pass_two_ok(before_set, entry, *store, nodes@, li2, j2));
                }
                orig.lemma_line_fold_shape(nodes@, lines[li as int], start, j as int, self.sizes@);
                lemma_widest_update(prev, li as int, line);
                assert(line_start(lines, li + 1) == line_start(lines, li as int) + lines[li as int].child_count);
            }
            li += 1;
        }
    }

    /// Lays out again the `k`-th child, in `line`, where the new clamp may
    /// change its size: a flexible child asks for its share of the space the
    /// line leaves free, a stretched child for the line's cross extent. The
    /// child moves by `main_offset`; the change of its main extent is added
    /// to the offset returned for the children after it.
    fn obj_real_rect_with_main_start(
        &mut self,
        nodes: &Vec<Node>,
        store: &mut LayoutStore,
        id: usize,
        line: &mut MainLineInfo,
        k: usize,
        main_offset: i64,
    ) -> (r: i64)
        requires
            links_wf(nodes@),
            old(store).wf(nodes@.len()),
            old(self).placed(nodes@, id as int),
            old(self).sized_upto(*old(store), old(self).order@.len() as int),
            k < old(self).order@.len(),
        ensures
            participant_frame(nodes@, *old(store), *final(store), id as int),
            final(self).placed(nodes@, id as int),
            final(self).sized_upto(*final(store), final(self).order@.len() as int),
            final(self).order == old(self).order,
            final(self).lines_info == old(self).lines_info,
            final(self).main_max == old(self).main_max,
            final(self).max_size == old(self).max_size,
            final(self).min_size == old(self).min_size,
            final(self).direction == old(self).direction,
            final(self).align_items == old(self).align_items,
            final(self).justify_content == old(self).justify_content,
            final(self).wrap == old(self).wrap,
            final(self).cross_pos == old(self).cross_pos,
            forall|m: int|
                0 <= m < old(self).order@.len() && m != k ==> unchanged_entry(
                    *old(store),
                    *final(store),
                    #[trigger] old(self).order@[m] as int,
                ),
            ({
                let child = old(self).order@[k as int] as int;
                let pre = old(self).sizes@[k as int];
                let clamp = old(self).relayout_clamp(nodes@, *old(line), k as int);
                let new_size = final(self).sizes@[k as int];
                &&& final(self).sizes@ == old(self).sizes@.update(k as int, new_size)
                &&& final(self).main_pos@ == old(self).main_pos@.update(
                    k as int,
                    coord(old(self).main_pos@[k as int] + main_offset),
                )
                &&& r == coord(main_offset + new_size.main - pre.main)
                &&& *final(line) == old(self).line_after(nodes@, *old(line), k as int, new_size)
                &&& if old(self).needs_relayout(nodes@, *old(line), k as int) {
                    let a = new_size.to_size_spec(old(self).direction);
                    &&& child_answer_ok(nodes@, old(store).infos@[child], child, clamp, a)
                    &&& final(store).infos@[child] == entry_after(old(store).infos@[child], clamp, a)
                    &&& laid_out_once(*old(store), *final(store), child, clamp)
                } else {
                    &&& new_size == pre
                    &&& final(store).infos@ == old(store).infos@
                    &&& final(store).performed@ == old(store).performed@
                }
            }),
        decreases nodes@.len() - id, 0int,
    {
        let ghost entry = *store;
        let child = self.order[k];
        proof {
            assert(is_child(nodes@, id as int, self.order@[k as int] as int));
        }
        let pre = self.sizes[k];
        let mut prefer_main = pre.main;
        match nodes[child].flex {
            Some(flex) => {
                let remain: i64 = self.max_size.main as i64 - line.main_width as i64
                    + line.flex_main_width as i64;
                prefer_main = flex_share(remain, flex, line.flex_sum, pre.main);
                line.flex_sum = if line.flex_sum >= flex as u64 {
                    line.flex_sum - flex as u64
                } else {
                    0
                };
                line.flex_main_width = line.flex_main_width.saturating_sub(pre.main);
            },
            None => {},
        }
        let stretch = match self.align_items {
            Align::Stretch => true,
            _ => false,
        };
        let cross_min: u32 = if stretch { line.cross_line_height } else { 0 };
        let new_size = if prefer_main > pre.main || cross_min > pre.cross {
            let lo = FlexSize { main: prefer_main, cross: cross_min };
            let hi = FlexSize { main: prefer_main, cross: line.cross_line_height };
            let s = perform_child_layout(
                nodes,
                store,
                child,
                BoxClamp { min: lo.to_size(self.direction), max: hi.to_size(self.direction) },
            );
            proof {
                lemma_child_frame(nodes@, id as int, child as int, entry, entry, *store);
                assert forall|m: int|
                    0 <= m < self.order@.len() && m != k implies unchanged_entry(
                        entry,
                        *store,
                        #[trigger] self.order@[m] as int,
                    ) by {
                    assert(self.order@[m] != self.order@[k as int]);
                    assert(is_child(nodes@, id as int, self.order@[m] as int));
                    lemma_sibling_not_desc(nodes@, self.order@[m] as int, child as int);
                }
                self.lemma_sizes_kept(
                    nodes@,
                    id as int,
                    entry,
                    *store,
                    child as int,
                    self.order@.len() as int,
                );
            }
            FlexSize::from_size(s, self.direction)
        } else {
            pre
        };
        let main_diff: i64 = new_size.main as i64 - pre.main as i64;
        line.main_width = len_from(line.main_width as i64 + main_diff);
        let moved = coord_add(self.main_pos[k], main_offset);
        self.main_pos.set(k, moved);
        self.sizes.set(k, new_size);
        coord_add(main_offset, main_diff)
    }

    /// Where pass three puts the `j`-th child of line `li`, the container
    /// being of size `size`.
    pub open spec fn aligned_pos(&self, size: FlexSize, li: int, j: int) -> Point {
        let line = self.lines_info@[li];
        let k = line_start(self.lines_info@, li) + j;
        let main_off = coord(
            self.justify_content.offset_spec(
                size.main,
                line.main_width,
                line.child_count as nat,
                j as nat,
            ),
        );
        let cross_off = coord(
            self.align_items.align_value_spec(self.best_size_spec().cross, size.cross)
                + self.align_items.align_value_spec(self.sizes@[k].cross, line.cross_line_height),
        );
        FlexPoint {
            main: coord(self.main_pos@[k] + main_off),
            cross: coord(self.cross_pos@[k] + cross_off),
        }.to_point_spec(self.direction)
    }

    /// The `j`-th child of line `li`, where it exists, stands where pass
    /// three puts it.
    pub open spec fn aligned_ok(&self, store: LayoutStore, size: FlexSize, li: int, j: int) -> bool {
        let k = line_start(self.lines_info@, li) + j;
        k < self.order@.len() ==> {
            &&& store.infos@[self.order@[k] as int] is Some
            &&& store.infos@[self.order@[k] as int]->0.pos == self.aligned_pos(size, li, j)
        }
    }

    /// A child after every line keeps the place of pass one.
    pub open spec fn kept_ok(&self, store: LayoutStore, k: int) -> bool {
        &&& store.infos@[self.order@[k] as int] is Some
        &&& store.infos@[self.order@[k] as int]->0.pos == FlexPoint {
            main: self.main_pos@[k],
            cross: self.cross_pos@[k] as i64,
        }.to_point_spec(self.direction)
    }

    /// Pass three: each line is placed along the main axis as
    /// `justify_content` says, against the container's final size, and each
    /// child along the cross axis as `align_items` says, within the lines
    /// and within its line. A child that no line holds keeps its place.
    fn line_inner_align(&self, nodes: &Vec<Node>, store: &mut LayoutStore, id: usize, size: FlexSize)
        requires
            links_wf(nodes@),
            old(store).wf(nodes@.len()),
            self.placed(nodes@, id as int),
            self.sized_upto(*old(store), self.order@.len() as int),
        ensures
            participant_frame(nodes@, *old(store), *final(store), id as int),
            self.sized_upto(*final(store), self.order@.len() as int),
            forall|li: int, j: int|
                0 <= li < self.lines_info@.len() && 0 <= j < self.lines_info@[li].child_count
                    ==> #[trigger] self.aligned_ok(*final(store), size, li, j),
            forall|k: int|
                line_start(self.lines_info@, self.lines_info@.len() as int) <= k < self.order@.len()
                    ==> #[trigger] self.kept_ok(*final(store), k),
            final(store).performed@ == old(store).performed@,
            forall|k: int|
                0 <= k < self.order@.len() ==> same_but_pos(
                    *old(store),
                    *final(store),
                    #[trigger] self.order@[k] as int,
                ),
    {
        let ghost entry = *store;
        let ghost lines = self.lines_info@;
        let real_size = self.best_size();
        let container_cross_offset = self.align_items.align_value(real_size.cross, size.cross);
        let cnt = self.order.len();
        let mut k: usize = 0;
        let mut li: usize = 0;
        while li < self.lines_info.len()
            invariant
                links_wf(nodes@),
                self.placed(nodes@, id as int),
                self.sized_upto(*store, self.order@.len() as int),
                lines == self.lines_info@,
                cnt == self.order@.len(),
                k as int == min_int(line_start(lines, li as int), cnt as int),
                li <= self.lines_info@.len(),
                participant_frame(nodes@, entry, *store, id as int),
                store.performed@ == entry.performed@,
                forall|m: int|
                    0 <= m < self.order@.len() ==> same_but_pos(
                        entry,
                        *store,
                        #[trigger] self.order@[m] as int,
                    ),
                container_cross_offset == self.align_items.align_value_spec(
                    self.best_size_spec().cross,
                    size.cross,
                ),
                forall|li2: int, j2: int|
                    0 <= li2 < li && 0 <= j2 < lines[li2].child_count ==> #[trigger] self.aligned_ok(
                        *store,
                        size,
                        li2,
                        j2,
                    ),
            decreases self.lines_info@.len() - li,
        {
            let line = self.lines_info[li];
            let mut j: usize = 0;
            while j < line.child_count && k < cnt
                invariant
                    links_wf(nodes@),
                    self.placed(nodes@, id as int),
                    self.sized_upto(*store, self.order@.len() as int),
                    lines == self.lines_info@,
                    li < lines.len(),
                    line == lines[li as int],
                    cnt == self.order@.len(),
                    j <= line.child_count,
                    k as int == min_int(line_start(lines, li as int) + j, cnt as int),
                    participant_frame(nodes@, entry, *store, id as int),
                store.performed@ == entry.performed@,
                forall|m: int|
                    0 <= m < self.order@.len() ==> same_but_pos(
                        entry,
                        *store,
                        #[trigger] self.order@[m] as int,
                    ),
                    container_cross_offset == self.align_items.align_value_spec(
                        self.best_size_spec().cross,
                        size.cross,
                    ),
                    forall|li2: int, j2: int|
                        (0 <= li2 < li && 0 <= j2 < lines[li2].child_count) || (li2 == li && 0 <= j2
                            < j) ==> #[trigger] self.aligned_ok(*store, size, li2, j2),
                decreases cnt - k,
            {
                let main_offset = self.justify_content.offset(
                    size.main,
                    line.main_width,
                    line.child_count,
                    j,
                );
                let line_cross_offset = self.align_items.align_value(
                    self.sizes[k].cross,
                    line.cross_line_height,
                );
                let origin = FlexPoint {
                    main: coord_add(self.main_pos[k], main_offset),
                    cross: coord_add(
                        self.cross_pos[k] as i64,
                        coord_add(container_cross_offset, line_cross_offset),
                    ),
                };
                let ghost before = *store;
                self.update_child_position(nodes, store, id, k, origin);
                proof {
                    lemma_frame_trans(nodes@, entry, before, *store, id as int);
                    assert forall|m: int| 0 <= m < self.order@.len() implies same_but_pos(
                        entry,
                        *store,
                        #[trigger] self.order@[m] as int,
                    ) by {
                        assert(same_but_pos(entry, before, self.order@[m] as int));
                        if m != k {
                            assert(self.order@[m] != self.order@[k as int]);
                        }
                    }
                    assert(origin.to_point_spec(self.direction) == self.aligned_pos(
                        size,
                        li as int,
                        j as int,
                    ));
                    assert forall|li2: int, j2: int|
                        (0 <= li2 < li && 0 <= j2 < lines[li2].child_count) || (li2 == li && 0
                            <= j2 < j + 1) implies #[trigger] self.aligned_ok(
                        *store,
                        size,
                        li2,
                        j2,
                    ) by {
                        let k2 = line_start(lines, li2) + j2;
                        lemma_line_start_mono(lines, 0, li2);
                        if li2 == li && j2 == j {
                        } else {
                            assert(self.aligned_ok(before, size, li2, j2));
                            if li2 < li {
                                lemma_line_start_mono(lines, li2 + 1, li as int);
                            }
                            if k2 < cnt {
                                assert(k2 < k);
                                assert(self.order@[k2] != self.order@[k as int]);
                            }
                        }
                    }
                }
                k += 1;
                j += 1;
            }
            proof {
                assert(line_start(lines, li + 1) == line_start(lines, li as int) + line.child_count);
            }
            li += 1;
        }
        let ghost start = k as int;
        proof {
            assert(start == min_int(line_start(lines, lines.len() as int), cnt as int));
        }
        while k < cnt
            invariant
                links_wf(nodes@),
                self.placed(nodes@, id as int),
                self.sized_upto(*store, self.order@.len() as int),
                lines == self.lines_info@,
                cnt == self.order@.len(),
                start <= k <= cnt,
                start == min_int(line_start(lines, lines.len() as int), cnt as int),
                participant_frame(nodes@, entry, *store, id as int),
                store.performed@ == entry.performed@,
                forall|m: int|
                    0 <= m < self.order@.len() ==> same_but_pos(
                        entry,
                        *store,
                        #[trigger] self.order@[m] as int,
                    ),
                forall|li2: int, j2: int|
                    0 <= li2 < lines.len() && 0 <= j2 < lines[li2].child_count ==> #[trigger] self.aligned_ok(
                        *store,
                        size,
                        li2,
                        j2,
                    ),
                forall|k2: int| start <= k2 < k ==> #[trigger] self.kept_ok(*store, k2),
            decreases cnt - k,
        {
            let origin = FlexPoint { main: self.main_pos[k], cross: self.cross_pos[k] as i64 };
            let ghost before = *store;
            self.update_child_position(nodes, store, id, k, origin);
            proof {
                lemma_frame_trans(nodes@, entry, before, *store, id as int);
                    assert forall|m: int| 0 <= m < self.order@.len() implies same_but_pos(
                        entry,
                        *store,
                        #[trigger] self.order@[m] as int,
                    ) by {
                        assert(same_but_pos(entry, before, self.order@[m] as int));
                        if m != k {
                            assert(self.order@[m] != self.order@[k as int]);
                        }
                    }
                assert forall|li2: int, j2: int|
                    0 <= li2 < lines.len() && 0 <= j2 < lines[li2].child_count implies #[trigger] self.aligned_ok(
                        *store,
                        size,
                        li2,
                        j2,
                    ) by {
                    let k2 = line_start(lines, li2) + j2;
                    lemma_line_start_mono(lines, 0, li2);
                    assert(self.aligned_ok(before, size, li2, j2));
                    lemma_line_start_mono(lines, li2 + 1, lines.len() as int);
                    if k2 < cnt {
                        assert(self.order@[k2] != self.order@[k as int]);
                    }
                }
                assert forall|k2: int| start <= k2 < k + 1 implies #[trigger] self.kept_ok(*store, k2) by {
                    if k2 < k {
                        assert(self.kept_ok(before, k2));
                        lemma_line_start_mono(lines, 0, lines.len() as int);
                        assert(self.order@[k2] != self.order@[k as int]);
                    }
                }
            }
            k += 1;
        }
    }

    /// Places the `k`-th child at `origin`.
    fn update_child_position(
        &self,
        nodes: &Vec<Node>,
        store: &mut LayoutStore,
        id: usize,
        k: usize,
        origin: FlexPoint,
    )
        requires
            links_wf(nodes@),
            old(store).wf(nodes@.len()),
            self.placed(nodes@, id as int),
            self.sized_upto(*old(store), self.order@.len() as int),
            k < self.order@.len(),
        ensures
            participant_frame(nodes@, *old(store), *final(store), id as int),
            self.sized_upto(*final(store), self.order@.len() as int),
            final(store).infos@[self.order@[k as int] as int] matches Some(info) && info.pos
                == origin.to_point_spec(self.direction),
            final(store).performed@ == old(store).performed@,
            same_but_pos(*old(store), *final(store), self.order@[k as int] as int),
            forall|q: int|
                0 <= q < nodes@.len() && q != self.order@[k as int] ==> #[trigger] final(store).infos@[q]
                    == old(store).infos@[q],
    {
        let child = self.order[k];
        proof {
            assert(is_child(nodes@, id as int, self.order@[k as int] as int));
        }
        let ghost before = *store;
        store.update_position(child, origin.to_point(self.direction));
        proof {
            assert(same_outside(nodes@, before, *store, child as int)) by {
                assert forall|q: int|
                    0 <= q < nodes@.len() && !is_desc(nodes@, q, child as int) implies store.infos@[q]
                    == before.infos@[q] && store.performed@[q] == before.performed@[q] by {}
            }
            lemma_child_frame(nodes@, id as int, child as int, before, before, *store);
            assert(has_size(*store, child as int));
            self.lemma_sizes_kept(
                nodes@,
                id as int,
                before,
                *store,
                child as int,
                self.order@.len() as int,
            );
        }
    }

    /// Pass two's fold over a line reads only the sizes of the children it
    /// has passed.
    proof fn lemma_line_fold_prefix(
        &self,
        nodes: Seq<Node>,
        line: MainLineInfo,
        start: int,
        j: int,
        a: Seq<FlexSize>,
        b: Seq<FlexSize>,
    )
        requires
            forall|i: int| start <= i < start + j ==> a[i] == b[i],
        ensures
            self.line_fold(nodes, line, start, j, a) == self.line_fold(nodes, line, start, j, b),
        decreases j,
    {
        if j > 0 {
            self.lemma_line_fold_prefix(nodes, line, start, j - 1, a, b);
        }
    }

    /// Pass two changes only the main extent and flexible totals of a line.
    proof fn lemma_line_fold_shape(
        &self,
        nodes: Seq<Node>,
        line: MainLineInfo,
        start: int,
        j: int,
        sizes: Seq<FlexSize>,
    )
        ensures
            same_line_shape(self.line_fold(nodes, line, start, j, sizes).0, line),
        decreases j,
    {
        if j > 0 {
            self.lemma_line_fold_shape(nodes, line, start, j - 1, sizes);
        }
    }

    /// Where only the subtree of the child `c` changed and `c` has a size,
    /// the children before `upto` that had a size keep one.
    proof fn lemma_sizes_kept(
        &self,
        nodes: Seq<Node>,
        id: int,
        s0: LayoutStore,
        s1: LayoutStore,
        c: int,
        upto: int,
    )
        requires
            0 <= upto <= self.order@.len(),
            forall|m: int| 0 <= m < upto ==> is_child(nodes, id, #[trigger] self.order@[m] as int),
            is_child(nodes, id, c),
            same_outside(nodes, s0, s1, c),
            has_size(s1, c),
            forall|m: int|
                0 <= m < upto && self.order@[m] != c ==> has_size(s0, #[trigger] self.order@[m] as int),
        ensures
            self.sized_upto(s1, upto),
    {
        assert forall|m: int| 0 <= m < upto implies has_size(s1, #[trigger] self.order@[m] as int) by {
            let d = self.order@[m] as int;
            if d != c {
                assert(is_child(nodes, id, d));
                lemma_sibling_not_desc(nodes, d, c);
            }
        }
    }
}

/// The children of a node, in the order of a flex container's main axis.
pub open spec fn main_axis_order_spec(children: Seq<usize>, reverse: bool) -> Seq<usize> {
    Seq::new(
        children.len(),
        |m: int|
            if reverse {
                children[children.len() - 1 - m]
            } else {
                children[m]
            },
    )
}

/// The whole flex layout of `id` under `clamp`, from store `s0` to store
/// `s3` with result `r`, through the states `l1` of its layouter after pass
/// one and `l2` after pass two, and the stores `s1` and `s2` after those
/// passes:
/// - the layouter takes the container's settings and its children in
///   main-axis order;
/// - pass one lays each child out once under `{0, container max}` and
///   builds the lines as `pass_one` says from the sizes the children answer;
/// - pass two changes the lines, sizes and main positions as `line_fold` and
///   `pass_two_ok` say: a child is laid out again, once, under the relayout
///   clamp exactly where that could change its size;
/// - pass three gives each child the position that `aligned_pos` says and
///   changes nothing else;
/// - the result is the lines' size within the clamp.
pub open spec fn flex_outcome_with(
    nodes: Seq<Node>,
    s0: LayoutStore,
    s1: LayoutStore,
    s2: LayoutStore,
    s3: LayoutStore,
    id: int,
    flex: Flex,
    clamp: BoxClamp,
    r: Size,
    l1: FlexLayouter,
    l2: FlexLayouter,
) -> bool {
    let ch = nodes[id].children@;
    let n = ch.len() as int;
    let dir = flex.direction;
    let c1 = BoxClamp { min: Size::zero_spec(), max: clamp.max };
    let (lines, cur, mm, mp, cp) = pass_one(l1.sizes@, l1.flexes(nodes), flex.wrap, l1.max_size.main, n);
    let (lines1, _cur1, mm1) = close_line(lines, cur, mm);
    let size = l2.box_size_spec();
    &&& l1.order@ == main_axis_order_spec(ch, flex.reverse)
    &&& l1.direction == dir
    &&& l1.wrap == flex.wrap
    &&& l1.align_items == flex.align_items
    &&& l1.justify_content == flex.justify_content
    &&& l1.max_size == FlexSize::from_size_spec(clamp.max, dir)
    &&& l1.min_size == FlexSize::from_size_spec(clamp.min, dir)
    &&& l1.sizes@.len() == n
    &&& l1.lines_info@ == lines1
    &&& l1.main_max == mm1
    &&& l1.main_pos@ == mp
    &&& l1.cross_pos@ == cp
    &&& line_start(lines1, lines1.len() as int) == n
    &&& forall|k: int|
        0 <= k < n ==> {
            let c = #[trigger] l1.order@[k] as int;
            let a = l1.sizes@[k].to_size_spec(dir);
            &&& child_answer_ok(nodes, s0.infos@[c], c, c1, a)
            &&& s1.infos@[c] == entry_after(s0.infos@[c], c1, a)
            &&& laid_out_once(s0, s1, c, c1)
        }
    &&& l2.order == l1.order
    &&& l2.direction == dir
    &&& l2.align_items == flex.align_items
    &&& l2.justify_content == flex.justify_content
    &&& l2.max_size == l1.max_size
    &&& l2.min_size == l1.min_size
    &&& l2.cross_pos == l1.cross_pos
    &&& l2.sizes@.len() == n
    &&& l2.main_pos@.len() == n
    &&& l2.lines_info@.len() == lines1.len()
    &&& forall|li: int|
        0 <= li < lines1.len() ==> #[trigger] l2.lines_info@[li] == l1.line_fold(
            nodes,
            lines1[li],
            line_start(lines1, li),
            lines1[li].child_count as int,
            l2.sizes@,
        ).0
    &&& l2.main_max == max_len(l1.main_max, widest(l2.lines_info@, lines1.len() as int))
    &&& forall|li: int, j: int|
        0 <= li < lines1.len() && 0 <= j < lines1[li].child_count ==> #[trigger] l1.pass_two_ok(
            l2,
            s1,
            s2,
            nodes,
            li,
            j,
        )
    &&& forall|li: int, j: int|
        0 <= li < lines1.len() && 0 <= j < lines1[li].child_count ==> #[trigger] l2.aligned_ok(
            s3,
            size,
            li,
            j,
        )
    &&& forall|k: int| 0 <= k < n ==> same_but_pos(s2, s3, #[trigger] l2.order@[k] as int)
    &&& s3.performed@ == s2.performed@
    &&& r == size.to_size_spec(dir)
}

/// The flex layout of `id` under `clamp` went from `s0` to `s3` with
/// result `r` as `flex_outcome_with` says, for some intermediate states.
pub open spec fn flex_outcome(
    nodes: Seq<Node>,
    s0: LayoutStore,
    s3: LayoutStore,
    id: int,
    flex: Flex,
    clamp: BoxClamp,
    r: Size,
) -> bool {
    exists|s1: LayoutStore, s2: LayoutStore, l1: FlexLayouter, l2: FlexLayouter|
        flex_outcome_with(nodes, s0, s1, s2, s3, id, flex, clamp, r, l1, l2)
}

/// A flex container: see `FlexLayouter` for the three passes. It takes the
/// widest line and the lines' cross extents together, within its clamp.
fn layout_flex(nodes: &Vec<Node>, store: &mut LayoutStore, id: usize, flex: Flex, clamp: BoxClamp) -> (r: Size)
    requires
        links_wf(nodes@),
        old(store).wf(nodes@.len()),
        id < nodes@.len(),
    ensures
        participant_frame(nodes@, *old(store), *final(store), id as int),
        forall|k: int|
            0 <= k < nodes@[id as int].children@.len() ==> has_size(
                *final(store),
                #[trigger] nodes@[id as int].children@[k] as int,
            ),
        clamp.wf() ==> clamp.contains(r),
        flex_outcome(nodes@, *old(store), *final(store), id as int, flex, clamp, r),
    decreases nodes@.len() - id, 2int,
{
    let direction = flex.direction;
    let mut layouter = FlexLayouter {
        max_size: FlexSize::from_size(clamp.max, direction),
        min_size: FlexSize::from_size(clamp.min, direction),
        direction,
        wrap: flex.wrap,
        align_items: flex.align_items,
        justify_content: flex.justify_content,
        main_max: 0,
        current_line: MainLineInfo::starting_at(0),
        lines_info: Vec::new(),
        order: main_axis_order(nodes, id, flex.reverse),
        sizes: Vec::new(),
        main_pos: Vec::new(),
        cross_pos: Vec::new(),
    };
    let ghost s0 = *store;
    layouter.children_perform(nodes, store, id);
    let ghost s1 = *store;
    let ghost l1 = layouter;
    layouter.relayout_if_need(nodes, store, id);
    let ghost s2 = *store;
    let ghost l2 = layouter;
    let size = layouter.box_size();
    layouter.line_inner_align(nodes, store, id, size);
    proof {
        lemma_frame_trans(nodes@, s0, s1, s2, id as int);
        lemma_frame_trans(nodes@, s0, s2, *store, id as int);
    }
    proof {
        let n = nodes@[id as int].children@.len();
        assert forall|k: int| 0 <= k < n implies has_size(
            *store,
            #[trigger] nodes@[id as int].children@[k] as int,
        ) by {
            let m = if flex.reverse { n - 1 - k } else { k };
            assert(layouter.order@[m] == nodes@[id as int].children@[k]);
        }
        assert(l1.order@ =~= main_axis_order_spec(nodes@[id as int].children@, flex.reverse));
        assert(flex_outcome_with(
            nodes@,
            s0,
            s1,
            s2,
            *store,
            id as int,
            flex,
            clamp,
            size.to_size_spec(direction),
            l1,
            l2,
        ));
    }
    size.to_size(direction)
}

} // verus!
