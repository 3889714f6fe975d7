use vstd::prelude::*;

use crate::box_clamp::BoxClamp;
use crate::flex::Flex;
use crate::geom::{Point, Size, Transform};
use crate::layout_info::{LayoutInfo, LayoutStore};
use crate::focus::FocusNode;
use crate::provider::Provided;
use crate::widgets::{IgnorePointer, PlainBox, SizedBox, Stack, Visibility};

verus! {

/// What lays out a node: one of the layout participants of the toolkit.
#[derive(Debug, Clone, Copy, PartialEq, Eq, Structural)]
pub enum Render {
    Sized(SizedBox),
    Plain(PlainBox),
    Flex(Flex),
    Stack(Stack),
    IgnorePointer(IgnorePointer),
    Visibility(Visibility),
}

impl Render {
    pub open spec fn only_sized_by_parent_spec(self) -> bool {
        self is Sized
    }

    /// The size depends on the clamp alone, never on the children.
    pub fn only_sized_by_parent(&self) -> (r: bool)
        ensures
            r == self.only_sized_by_parent_spec(),
    {
        match self {
            Render::Sized(_) => true,
            _ => false,
        }
    }
}

/// A node of the arena: its participant, its links, and the side properties
/// that its parent may read.
#[derive(Debug)]
pub struct Node {
    pub render: Render,
    pub parent: Option<usize>,
    pub children: Vec<usize>,
    /// A local transform, consulted only by the coordinate mapping.
    pub transform: Option<Transform>,
    /// The flex factor of a flexible child of a flex container.
    pub flex: Option<u32>,
    /// In a stack, laid out within the stack's size after the others.
    pub in_parent_layout: bool,
    /// Data that the node provides to its subtree.
    pub provider: Option<Provided>,
    /// How the node takes part in keyboard focus, where it does.
    pub focus: Option<FocusNode>,
}

/// The links of an arena of nodes are those of a tree rooted at index zero,
/// in which every node comes after its parent.
pub open spec fn links_wf(nodes: Seq<Node>) -> bool {
    &&& nodes.len() >= 1
    &&& nodes[0].parent is None
    &&& forall|i: int|
        #![trigger nodes[i].parent]
        1 <= i < nodes.len() ==> nodes[i].parent is Some && nodes[i].parent->0 < i
    &&& forall|i: int, k: int|
        #![trigger nodes[i].children@[k]]
        0 <= i < nodes.len() && 0 <= k < nodes[i].children@.len() ==> {
            let c = nodes[i].children@[k] as int;
            &&& i < c < nodes.len()
            &&& nodes[c].parent == Some(i as usize)
        }
    &&& forall|i: int, k1: int, k2: int|
        0 <= i < nodes.len() && 0 <= k1 < k2 < nodes[i].children@.len() ==> #[trigger] nodes[i].children@[k1]
            != #[trigger] nodes[i].children@[k2]
    &&& forall|i: int|
        #![trigger nodes[i].parent]
        1 <= i < nodes.len() ==> nodes[nodes[i].parent->0 as int].children@.contains(i as usize)
}

/// `j` lies in the subtree of `a` (`a` itself included).
pub open spec fn is_desc(nodes: Seq<Node>, j: int, a: int) -> bool
    decreases j,
{
    if j == a {
        true
    } else if 0 <= j < nodes.len() {
        match nodes[j].parent {
            Some(p) => if p < j {
                is_desc(nodes, p as int, a)
            } else {
                false
            },
            None => false,
        }
    } else {
        false
    }
}

/// A node of the subtree of `a` comes no earlier than `a`.
pub proof fn lemma_desc_not_before(nodes: Seq<Node>, j: int, a: int)
    requires
        is_desc(nodes, j, a),
    ensures
        j >= a,
    decreases j,
{
    if j != a {
        let p = nodes[j].parent->0;
        lemma_desc_not_before(nodes, p as int, a);
    }
}

/// The ancestors of a node lie on one chain: of two of them, the later lies
/// in the subtree of the earlier.
pub proof fn lemma_ancestors_chain(nodes: Seq<Node>, x: int, a: int, b: int)
    requires
        is_desc(nodes, x, a),
        is_desc(nodes, x, b),
        a <= b,
    ensures
        is_desc(nodes, b, a),
    decreases x,
{
    if x == b {
    } else if x == a {
        lemma_desc_not_before(nodes, x, b);
    } else {
        let q = nodes[x].parent->0;
        lemma_ancestors_chain(nodes, q as int, a, b);
    }
}

/// The subtree of a child lies in the subtree of its parent.
pub proof fn lemma_desc_of_child(nodes: Seq<Node>, j: int, c: int, a: int)
    requires
        0 <= a < c < nodes.len(),
        nodes[c].parent is Some && nodes[c].parent->0 == a,
        is_desc(nodes, j, c),
    ensures
        is_desc(nodes, j, a),
    decreases j,
{
    if j == c {
        assert(is_desc(nodes, a, a));
        assert(is_desc(nodes, c, a));
    } else {
        assert(0 <= j < nodes.len());
        let p = nodes[j].parent->0;
        assert(p < j && is_desc(nodes, p as int, c));
        lemma_desc_of_child(nodes, p as int, c, a);
        assert(is_desc(nodes, j, a));
    }
}

/// A child does not lie in the subtree of a sibling.
pub proof fn lemma_sibling_not_desc(nodes: Seq<Node>, a: int, b: int)
    requires
        0 <= a < nodes.len(),
        0 <= b < nodes.len(),
        a != b,
        nodes[a].parent is Some,
        nodes[b].parent is Some,
        nodes[a].parent->0 == nodes[b].parent->0,
        nodes[a].parent->0 < a,
        nodes[b].parent->0 < b,
    ensures
        !is_desc(nodes, a, b),
{
    if is_desc(nodes, a, b) {
        let p = nodes[a].parent->0 as int;
        assert(is_desc(nodes, p, b));
        lemma_desc_not_before(nodes, p, b);
    }
}

/// A node strictly below `c` lies below one of the children of `c`.
pub proof fn lemma_child_on_path(nodes: Seq<Node>, j: int, c: int) -> (k: int)
    requires
        links_wf(nodes),
        nodes.len() <= usize::MAX,
        0 <= c < nodes.len(),
        0 <= j < nodes.len(),
        is_desc(nodes, j, c),
        j != c,
    ensures
        0 <= k < nodes[c].children@.len(),
        is_desc(nodes, j, nodes[c].children@[k] as int),
    decreases j,
{
    let p = nodes[j].parent->0 as int;
    assert(1 <= j);
    assert(nodes[j].parent is Some && p < j);
    if p == c {
        assert(nodes[p].children@.contains(j as usize));
        let k = choose|k: int| 0 <= k < nodes[c].children@.len() && nodes[c].children@[k] == j as usize;
        assert(is_desc(nodes, j, j));
        k
    } else {
        assert(is_desc(nodes, p, c));
        let k = lemma_child_on_path(nodes, p, c);
        let ck = nodes[c].children@[k] as int;
        if j != ck {
            assert(is_desc(nodes, j, ck));
        }
        k
    }
}

/// The subtrees of two siblings do not meet.
pub proof fn lemma_sibling_subtrees_apart(nodes: Seq<Node>, j: int, a: int, b: int)
    requires
        0 <= a < nodes.len(),
        0 <= b < nodes.len(),
        a != b,
        nodes[a].parent is Some,
        nodes[b].parent is Some,
        nodes[a].parent->0 == nodes[b].parent->0,
        nodes[a].parent->0 < a,
        nodes[b].parent->0 < b,
        is_desc(nodes, j, a),
    ensures
        !is_desc(nodes, j, b),
{
    if is_desc(nodes, j, b) {
        if a <= b {
            lemma_ancestors_chain(nodes, j, a, b);
            lemma_sibling_not_desc(nodes, b, a);
        } else {
            lemma_ancestors_chain(nodes, j, b, a);
            lemma_sibling_not_desc(nodes, a, b);
        }
    }
}

/// The layout info of every node outside the subtree of `a`, and its count of
/// layouts, is the same in `s1` as in `s0`.
pub open spec fn same_outside(nodes: Seq<Node>, s0: LayoutStore, s1: LayoutStore, a: int) -> bool {
    forall|j: int|
        #![trigger s1.infos@[j]]
        #![trigger s1.performed@[j]]
        0 <= j < nodes.len() && !is_desc(nodes, j, a) ==> s1.infos@[j] == s0.infos@[j]
            && s1.performed@[j] == s0.performed@[j]
}

/// What the layout of a child leaves unchanged, its parent's layout leaves
/// unchanged too, and the parent's own entry stays as it was.
pub proof fn lemma_child_frame(
    nodes: Seq<Node>,
    a: int,
    c: int,
    s0: LayoutStore,
    s1: LayoutStore,
    s2: LayoutStore,
)
    requires
        0 <= a < c < nodes.len(),
        nodes[c].parent is Some && nodes[c].parent->0 == a,
        s1.infos@.len() == nodes.len(),
        s1.performed@.len() == nodes.len(),
        same_outside(nodes, s0, s1, a),
        same_outside(nodes, s1, s2, c),
        s0.performed@.len() == nodes.len(),
        s0.grows_to(s1),
        s1.grows_to(s2),
    ensures
        same_outside(nodes, s0, s2, a),
        s0.grows_to(s2),
        s2.infos@[a] == s1.infos@[a],
        s2.performed@[a] == s1.performed@[a],
{
    assert forall|j: int| 0 <= j < nodes.len() && !is_desc(nodes, j, a) implies s2.infos@[j]
        == s0.infos@[j] && s2.performed@[j] == s0.performed@[j] by {
        if is_desc(nodes, j, c) {
            lemma_desc_of_child(nodes, j, c, a);
        }
    }
    if is_desc(nodes, a, c) {
        lemma_desc_not_before(nodes, a, c);
    }
    LayoutStore::lemma_grows_trans(s0, s1, s2);
}

/// Where a node maps a point of its own space into its parent's: through its
/// transform, then by its position. A node with no layout info maps nothing.
pub open spec fn to_parent_spec(node: Node, info: Option<LayoutInfo>, x: int, y: int) -> (int, int) {
    match info {
        None => (x, y),
        Some(i) => match node.transform {
            None => (x + i.pos.x, y + i.pos.y),
            Some(t) => (t.apply_x(x, y) + i.pos.x, t.apply_y(x, y) + i.pos.y),
        },
    }
}

/// Every value on the way of `to_parent_spec` is a coordinate.
pub open spec fn to_parent_fits(node: Node, info: Option<LayoutInfo>, x: int, y: int) -> bool {
    &&& fits_i64(to_parent_spec(node, info, x, y).0)
    &&& fits_i64(to_parent_spec(node, info, x, y).1)
    &&& (node.transform matches Some(t) ==> fits_i64(t.apply_x(x, y)) && fits_i64(t.apply_y(x, y)))
}

/// Where a node maps a point of its parent's space into its own: back by
/// its position, then through the inverse transform where there is one; a
/// transform with no inverse is skipped.
pub open spec fn from_parent_spec(node: Node, info: Option<LayoutInfo>, x: int, y: int) -> (
    int,
    int,
) {
    match info {
        None => (x, y),
        Some(i) => {
            let (qx, qy) = (x - i.pos.x, y - i.pos.y);
            match node.transform {
                Some(t) => if t.invertible() {
                    (t.unapply_x(qx, qy), t.unapply_y(qx, qy))
                } else {
                    (qx, qy)
                },
                None => (qx, qy),
            }
        },
    }
}

/// Every value on the way of `from_parent_spec` is a coordinate.
pub open spec fn from_parent_fits(node: Node, info: Option<LayoutInfo>, x: int, y: int) -> bool {
    &&& fits_i64(from_parent_spec(node, info, x, y).0)
    &&& fits_i64(from_parent_spec(node, info, x, y).1)
    &&& (info matches Some(i) ==> fits_i64(x - i.pos.x) && fits_i64(y - i.pos.y))
}

pub open spec fn fits_i64(v: int) -> bool {
    i64::MIN <= v <= i64::MAX
}

/// Where a point of the space of `id` lies in global space: mapped into the
/// parent's space, node by node, up to the root, which maps nothing.
pub open spec fn to_global_spec(nodes: Seq<Node>, infos: Seq<Option<LayoutInfo>>, id: int, x: int, y: int) -> (
    int,
    int,
)
    decreases id,
{
    if 0 <= id < nodes.len() && nodes[id].parent is Some && nodes[id].parent->0 < id {
        let (px, py) = to_parent_spec(nodes[id], infos[id], x, y);
        to_global_spec(nodes, infos, nodes[id].parent->0 as int, px, py)
    } else {
        (x, y)
    }
}

/// Every value on the way of `to_global_spec` is a coordinate.
pub open spec fn to_global_fits(nodes: Seq<Node>, infos: Seq<Option<LayoutInfo>>, id: int, x: int, y: int) -> bool
    decreases id,
{
    if 0 <= id < nodes.len() && nodes[id].parent is Some && nodes[id].parent->0 < id {
        let (px, py) = to_parent_spec(nodes[id], infos[id], x, y);
        to_parent_fits(nodes[id], infos[id], x, y) && to_global_fits(
            nodes,
            infos,
            nodes[id].parent->0 as int,
            px,
            py,
        )
    } else {
        true
    }
}

/// Where a global point lies in the space of `id`: mapped from the root's
/// space down, node by node, into the space of `id`.
pub open spec fn from_global_spec(nodes: Seq<Node>, infos: Seq<Option<LayoutInfo>>, id: int, x: int, y: int) -> (
    int,
    int,
)
    decreases id,
{
    if 0 <= id < nodes.len() && nodes[id].parent is Some && nodes[id].parent->0 < id {
        let (qx, qy) = from_global_spec(nodes, infos, nodes[id].parent->0 as int, x, y);
        from_parent_spec(nodes[id], infos[id], qx, qy)
    } else {
        (x, y)
    }
}

/// Every value on the way of `from_global_spec` is a coordinate.
pub open spec fn from_global_fits(nodes: Seq<Node>, infos: Seq<Option<LayoutInfo>>, id: int, x: int, y: int) -> bool
    decreases id,
{
    if 0 <= id < nodes.len() && nodes[id].parent is Some && nodes[id].parent->0 < id {
        let (qx, qy) = from_global_spec(nodes, infos, nodes[id].parent->0 as int, x, y);
        from_global_fits(nodes, infos, nodes[id].parent->0 as int, x, y) && from_parent_fits(
            nodes[id],
            infos[id],
            qx,
            qy,
        )
    } else {
        true
    }
}

/// Mapping a point of a node's space into its parent's space and back gives
/// the point again, exactly, for a node with no transform or with an
/// invertible one; and where the way there stays within the coordinates, so
/// does the way back.
pub proof fn lemma_map_round_trip(tree: &WidgetTree, id: int, x: int, y: int)
    requires
        tree.wf(),
        0 <= id < tree.nodes@.len(),
        tree.nodes@[id].transform matches Some(t) ==> t.invertible(),
    ensures
        ({
            let (node, info) = (tree.nodes@[id], tree.info(id));
            let (px, py) = to_parent_spec(node, info, x, y);
            &&& from_parent_spec(node, info, px, py) == (x, y)
            &&& fits_i64(x) && fits_i64(y) && to_parent_fits(node, info, x, y) ==> from_parent_fits(
                node,
                info,
                px,
                py,
            )
        }),
{
    let node = tree.nodes@[id];
    match node.transform {
        Some(t) => {
            crate::geom::lemma_unapply_apply(t, x, y);
        },
        None => {},
    }
}

/// The arena of nodes of a widget tree, with its layout cache and the nodes
/// that wait for the next layout pass.
pub struct WidgetTree {
    pub nodes: Vec<Node>,
    pub store: LayoutStore,
    /// The nodes from which the next pass lays out again.
    pub dirty: Vec<usize>,
}

impl WidgetTree {
    pub open spec fn wf(&self) -> bool {
        &&& links_wf(self.nodes@)
        &&& self.store.wf(self.nodes@.len())
        &&& forall|k: int| 0 <= k < self.dirty@.len() ==> #[trigger] self.dirty@[k] < self.nodes@.len()
    }

    pub open spec fn info(&self, id: int) -> Option<LayoutInfo> {
        self.store.infos@[id]
    }

    /// A tree of one node, not laid out yet.
    pub fn new(root: Render) -> (r: WidgetTree)
        ensures
            r.wf(),
            r.nodes@.len() == 1,
            r.nodes@[0].render == root,
            r.nodes@[0].children@.len() == 0,
            r.nodes@[0].parent is None,
            r.nodes@[0].transform is None,
            r.nodes@[0].flex is None,
            !r.nodes@[0].in_parent_layout,
            r.nodes@[0].provider is None,
            r.nodes@[0].focus is None,
            r.info(0) is None,
            r.dirty@.len() == 0,
    {
        let node = Node {
            render: root,
            parent: None,
            children: Vec::new(),
            transform: None,
            flex: None,
            in_parent_layout: false,
            provider: None,
            focus: None,
        };
        let mut nodes: Vec<Node> = Vec::new();
        nodes.push(node);
        WidgetTree { nodes, store: LayoutStore::new(1), dirty: Vec::new() }
    }

    /// The root's index.
    pub fn root(&self) -> (r: usize)
        ensures
            r == 0,
    {
        0
    }

    /// How many nodes the tree holds.
    pub fn len(&self) -> (r: usize)
        ensures
            r == self.nodes@.len(),
    {
        self.nodes.len()
    }

    /// Adds a node with `render` as the last child of `parent`, and returns
    /// its index. It has no layout info yet.
    pub fn append_child(&mut self, parent: usize, render: Render) -> (r: usize)
        requires
            old(self).wf(),
            parent < old(self).nodes@.len(),
            old(self).nodes@.len() < usize::MAX,
        ensures
            final(self).wf(),
            r == old(self).nodes@.len(),
            final(self).nodes@.len() == old(self).nodes@.len() + 1,
            final(self).nodes@[r as int].render == render,
            final(self).nodes@[r as int].parent == Some(parent),
            final(self).nodes@[r as int].children@.len() == 0,
            final(self).nodes@[r as int].transform is None,
            final(self).nodes@[r as int].flex is None,
            !final(self).nodes@[r as int].in_parent_layout,
            final(self).nodes@[r as int].provider is None,
            final(self).nodes@[r as int].focus is None,
            final(self).nodes@[parent as int].children@ == old(self).nodes@[parent as int].children@.push(r),
            final(self).nodes@[parent as int].render == old(self).nodes@[parent as int].render,
            final(self).nodes@[parent as int].parent == old(self).nodes@[parent as int].parent,
            final(self).nodes@[parent as int].transform == old(self).nodes@[parent as int].transform,
            final(self).nodes@[parent as int].flex == old(self).nodes@[parent as int].flex,
            final(self).nodes@[parent as int].in_parent_layout == old(self).nodes@[parent as int].in_parent_layout,
            final(self).nodes@[parent as int].provider == old(self).nodes@[parent as int].provider,
            final(self).nodes@[parent as int].focus == old(self).nodes@[parent as int].focus,
            forall|i: int| 0 <= i < old(self).nodes@.len() && i != parent ==> #[trigger] final(self).nodes@[i] == old(self).nodes@[i],
            final(self).info(r as int) is None,
            forall|i: int| 0 <= i < old(self).nodes@.len() ==> #[trigger] final(self).store.infos@[i] == old(self).store.infos@[i],
            final(self).dirty@ == old(self).dirty@,
    {
        let r = self.nodes.len();
        let node = Node {
            render,
            parent: Some(parent),
            children: Vec::new(),
            transform: None,
            flex: None,
            in_parent_layout: false,
            provider: None,
            focus: None,
        };
        self.nodes.push(node);
        let ghost pushed = self.nodes@;
        self.nodes[parent].children.push(r);
        self.store.push_slot();
        proof {
            let nodes = self.nodes@;
            assert forall|i: int, k: int|
                0 <= i < nodes.len() && 0 <= k < nodes[i].children@.len() implies {
                let c = #[trigger] nodes[i].children@[k] as int;
                &&& i < c < nodes.len()
                &&& nodes[c].parent == Some(i as usize)
            } by {
                assert(nodes[i].children@ == pushed[i].children@ || i == parent);
                if i != parent && i < r {
                    assert(pushed[i] == old(self).nodes@[i]);
                    assert(old(self).nodes@[i].children@[k] == nodes[i].children@[k]);
                    let c = nodes[i].children@[k] as int;
                    assert(nodes[c].parent == pushed[c].parent);
                    assert(pushed[c] == old(self).nodes@[c]);
                } else if i == parent {
                    if k < old(self).nodes@[i].children@.len() {
                        assert(old(self).nodes@[i].children@[k] == nodes[i].children@[k]);
                        let c = nodes[i].children@[k] as int;
                        assert(nodes[c].parent == pushed[c].parent);
                        assert(pushed[c] == old(self).nodes@[c]);
                    }
                }
            }
            assert forall|i: int| 1 <= i < nodes.len() implies #[trigger] nodes[i].parent is Some && nodes[i].parent->0 < i by {
                assert(nodes[i].parent == pushed[i].parent);
                if i < r {
                    assert(pushed[i] == old(self).nodes@[i]);
                }
            }
            assert forall|i: int| 1 <= i < nodes.len() implies #[trigger] nodes[nodes[i].parent->0 as int].children@.contains(
                i as usize,
            ) by {
                let p = nodes[i].parent->0 as int;
                if i == r {
                    assert(nodes[parent as int].children@[nodes[parent as int].children@.len() - 1] == r);
                } else {
                    assert(pushed[i] == old(self).nodes@[i]);
                    assert(old(self).nodes@[p].children@.contains(i as usize));
                    let k = choose|k: int| 0 <= k < old(self).nodes@[p].children@.len() && old(self).nodes@[p].children@[k] == i as usize;
                    if p == parent {
                        assert(nodes[p].children@[k] == i as usize);
                    } else {
                        assert(nodes[p] == pushed[p]);
                        assert(pushed[p] == old(self).nodes@[p]);
                        assert(nodes[p].children@[k] == i as usize);
                    }
                }
            }
        }
        r
    }

    /// Replaces the participant of `id`. The layout is not touched: the
    /// host marks the node dirty where its layout may change.
    pub fn set_render(&mut self, id: usize, render: Render)
        requires
            old(self).wf(),
            id < old(self).nodes@.len(),
        ensures
            final(self).wf(),
            final(self).nodes@ == old(self).nodes@.update(
                id as int,
                Node { render: render, ..old(self).nodes@[id as int] },
            ),
            final(self).store == old(self).store,
            final(self).dirty@ == old(self).dirty@,
    {
        let ghost before = self.nodes@;
        self.nodes[id].render = render;
        proof {
            self.lemma_same_links(before);
            assert(self.nodes@ =~= before.update(id as int, Node { render: render, ..before[id as int] }));
        }
    }

    /// Sets the flex factor of `id`.
    pub fn set_flex(&mut self, id: usize, flex: Option<u32>)
        requires
            old(self).wf(),
            id < old(self).nodes@.len(),
        ensures
            final(self).wf(),
            final(self).nodes@ == old(self).nodes@.update(
                id as int,
                Node { flex: flex, ..old(self).nodes@[id as int] },
            ),
            final(self).store == old(self).store,
            final(self).dirty@ == old(self).dirty@,
    {
        let ghost before = self.nodes@;
        self.nodes[id].flex = flex;
        proof {
            self.lemma_same_links(before);
            assert(self.nodes@ =~= before.update(id as int, Node { flex: flex, ..before[id as int] }));
        }
    }

    /// Sets the local transform of `id`.
    pub fn set_transform(&mut self, id: usize, transform: Option<Transform>)
        requires
            old(self).wf(),
            id < old(self).nodes@.len(),
        ensures
            final(self).wf(),
            final(self).nodes@ == old(self).nodes@.update(
                id as int,
                Node { transform: transform, ..old(self).nodes@[id as int] },
            ),
            final(self).store == old(self).store,
            final(self).dirty@ == old(self).dirty@,
    {
        let ghost before = self.nodes@;
        self.nodes[id].transform = transform;
        proof {
            self.lemma_same_links(before);
            assert(self.nodes@ =~= before.update(id as int, Node { transform: transform, ..before[id as int] }));
        }
    }

    /// Sets the data that `id` provides to its subtree.
    pub fn set_provider(&mut self, id: usize, provider: Option<Provided>)
        requires
            old(self).wf(),
            id < old(self).nodes@.len(),
        ensures
            final(self).wf(),
            final(self).nodes@ == old(self).nodes@.update(
                id as int,
                Node { provider, ..old(self).nodes@[id as int] },
            ),
            final(self).store == old(self).store,
            final(self).dirty@ == old(self).dirty@,
    {
        let ghost before = self.nodes@;
        self.nodes[id].provider = provider;
        proof {
            self.lemma_same_links(before);
            assert(self.nodes@ =~= before.update(id as int, Node { provider, ..before[id as int] }));
        }
    }

    /// Sets how `id` takes part in keyboard focus.
    pub fn set_focus(&mut self, id: usize, focus: Option<FocusNode>)
        requires
            old(self).wf(),
            id < old(self).nodes@.len(),
        ensures
            final(self).wf(),
            final(self).nodes@ == old(self).nodes@.update(
                id as int,
                Node { focus, ..old(self).nodes@[id as int] },
            ),
            final(self).store == old(self).store,
            final(self).dirty@ == old(self).dirty@,
    {
        let ghost before = self.nodes@;
        self.nodes[id].focus = focus;
        proof {
            self.lemma_same_links(before);
            assert(self.nodes@ =~= before.update(id as int, Node { focus, ..before[id as int] }));
        }
    }

    /// Marks `id`, in a stack, to be laid out within the stack's size.
    pub fn set_in_parent_layout(&mut self, id: usize, in_parent: bool)
        requires
            old(self).wf(),
            id < old(self).nodes@.len(),
        ensures
            final(self).wf(),
            final(self).nodes@ == old(self).nodes@.update(
                id as int,
                Node { in_parent_layout: in_parent, ..old(self).nodes@[id as int] },
            ),
            final(self).store == old(self).store,
            final(self).dirty@ == old(self).dirty@,
    {
        let ghost before = self.nodes@;
        self.nodes[id].in_parent_layout = in_parent;
        proof {
            self.lemma_same_links(before);
            assert(self.nodes@ =~= before.update(id as int, Node { in_parent_layout: in_parent, ..before[id as int] }));
        }
    }

    /// Maps a point of the space of `id` into its parent's space.
    pub fn map_to_parent(&self, id: usize, pos: Point) -> (r: Point)
        requires
            self.wf(),
            id < self.nodes@.len(),
            to_parent_fits(self.nodes@[id as int], self.info(id as int), pos.x as int, pos.y as int),
        ensures
            (r.x as int, r.y as int) == to_parent_spec(
                self.nodes@[id as int],
                self.info(id as int),
                pos.x as int,
                pos.y as int,
            ),
    {
        match self.store.layout_box_pos(id) {
            None => pos,
            Some(offset) => {
                let p = match self.nodes[id].transform {
                    None => pos,
                    Some(t) => t.transform_point(pos),
                };
                Point { x: p.x + offset.x, y: p.y + offset.y }
            },
        }
    }

    /// Maps a point of the parent's space into the space of `id`; a
    /// transform with no inverse is skipped.
    pub fn map_from_parent(&self, id: usize, pos: Point) -> (r: Point)
        requires
            self.wf(),
            id < self.nodes@.len(),
            from_parent_fits(self.nodes@[id as int], self.info(id as int), pos.x as int, pos.y as int),
        ensures
            (r.x as int, r.y as int) == from_parent_spec(
                self.nodes@[id as int],
                self.info(id as int),
                pos.x as int,
                pos.y as int,
            ),
    {
        match self.store.layout_box_pos(id) {
            None => pos,
            Some(offset) => {
                let q = Point { x: pos.x - offset.x, y: pos.y - offset.y };
                match self.nodes[id].transform {
                    None => q,
                    Some(t) => if t.is_invertible() {
                        t.inverse_transform_point(q)
                    } else {
                        q
                    },
                }
            },
        }
    }

    /// Maps a point of the space of `id` into global space.
    pub fn map_to_global(&self, pos: Point, id: usize) -> (r: Point)
        requires
            self.wf(),
            id < self.nodes@.len(),
            to_global_fits(self.nodes@, self.store.infos@, id as int, pos.x as int, pos.y as int),
        ensures
            (r.x as int, r.y as int) == to_global_spec(
                self.nodes@,
                self.store.infos@,
                id as int,
                pos.x as int,
                pos.y as int,
            ),
        decreases id,
    {
        match self.nodes[id].parent {
            None => pos,
            Some(p) => {
                let up = self.map_to_parent(id, pos);
                self.map_to_global(up, p)
            },
        }
    }

    /// Maps a global point into the space of `id`.
    pub fn map_from_global(&self, pos: Point, id: usize) -> (r: Point)
        requires
            self.wf(),
            id < self.nodes@.len(),
            from_global_fits(self.nodes@, self.store.infos@, id as int, pos.x as int, pos.y as int),
        ensures
            (r.x as int, r.y as int) == from_global_spec(
                self.nodes@,
                self.store.infos@,
                id as int,
                pos.x as int,
                pos.y as int,
            ),
        decreases id,
    {
        match self.nodes[id].parent {
            None => pos,
            Some(p) => {
                let down = self.map_from_global(pos, p);
                self.map_from_parent(id, down)
            },
        }
    }

    /// Links that are the same as those of a well-formed arena are well
    /// formed.
    proof fn lemma_same_links(&self, before: Seq<Node>)
        requires
            links_wf(before),
            before.len() == self.nodes@.len(),
            forall|i: int|
                0 <= i < before.len() ==> (#[trigger] self.nodes@[i]).parent == before[i].parent
                    && self.nodes@[i].children@ == before[i].children@,
        ensures
            links_wf(self.nodes@),
    {
        let nodes = self.nodes@;
        assert forall|i: int, k: int|
            0 <= i < nodes.len() && 0 <= k < nodes[i].children@.len() implies {
            let c = #[trigger] nodes[i].children@[k] as int;
            &&& i < c < nodes.len()
            &&& nodes[c].parent == Some(i as usize)
        } by {
            assert(before[i].children@[k] == nodes[i].children@[k]);
            let c = nodes[i].children@[k] as int;
            assert(nodes[c].parent == before[c].parent);
        }
        assert forall|i: int| 1 <= i < nodes.len() implies #[trigger] nodes[i].parent is Some
            && nodes[i].parent->0 < i by {
            assert(nodes[i].parent == before[i].parent);
        }
        assert(nodes[0].parent == before[0].parent);
        assert forall|i: int| 1 <= i < nodes.len() implies #[trigger] nodes[nodes[i].parent->0 as int].children@.contains(
            i as usize,
        ) by {
            assert(nodes[i].parent == before[i].parent);
            assert(before[before[i].parent->0 as int].children@.contains(i as usize));
            assert(nodes[before[i].parent->0 as int].children@ == before[before[i].parent->0 as int].children@);
        }
        assert forall|i: int, k1: int, k2: int|
            0 <= i < nodes.len() && 0 <= k1 < k2 < nodes[i].children@.len() implies #[trigger] nodes[i].children@[k1]
            != #[trigger] nodes[i].children@[k2] by {
            assert(before[i].children@[k1] == nodes[i].children@[k1]);
            assert(before[i].children@[k2] == nodes[i].children@[k2]);
        }
    }
}

} // verus!
