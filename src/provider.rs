use vstd::prelude::*;

use crate::tree::{Node, WidgetTree};

verus! {

/// A value that a node provides to its subtree.
#[derive(Debug, Clone, Copy, PartialEq, Eq, Structural)]
pub enum Provided {
    Int(i32),
    Flag(bool),
}

/// The kinds of provided values, by which a descendant asks for one.
#[derive(Debug, Clone, Copy, PartialEq, Eq, Structural)]
pub enum ProvidedKind {
    Int,
    Flag,
}

impl Provided {
    pub open spec fn kind_spec(self) -> ProvidedKind {
        match self {
            Provided::Int(_) => ProvidedKind::Int,
            Provided::Flag(_) => ProvidedKind::Flag,
        }
    }

    pub fn kind(&self) -> (r: ProvidedKind)
        ensures
            r == self.kind_spec(),
    {
        match self {
            Provided::Int(_) => ProvidedKind::Int,
            Provided::Flag(_) => ProvidedKind::Flag,
        }
    }
}

/// Shares a value with the subtree of the node it is attached to: a
/// descendant asks for a kind of value and gets the one of its nearest
/// provider of that kind.
#[derive(Debug, Clone, Copy, PartialEq, Eq, Structural)]
pub struct Provider {
    pub provider: Provided,
}

/// The value of kind `kind` that the nearest provider at or above `id`
/// provides.
pub open spec fn provided_spec(nodes: Seq<Node>, id: int, kind: ProvidedKind) -> Option<Provided>
    decreases id,
{
    if 0 <= id < nodes.len() {
        match nodes[id].provider {
            Some(v) if v.kind_spec() == kind => Some(v),
            _ => if nodes[id].parent is Some && nodes[id].parent->0 < id {
                provided_spec(nodes, nodes[id].parent->0 as int, kind)
            } else {
                None
            },
        }
    } else {
        None
    }
}

impl Provider {
    pub fn new(provider: Provided) -> (r: Provider)
        ensures
            r.provider == provider,
    {
        Provider { provider }
    }

    /// Attaches the provider to `id`.
    pub fn attach(self, tree: &mut WidgetTree, id: usize)
        requires
            old(tree).wf(),
            id < old(tree).nodes@.len(),
        ensures
            final(tree).wf(),
            final(tree).nodes@ == old(tree).nodes@.update(
                id as int,
                Node { provider: Some(self.provider), ..old(tree).nodes@[id as int] },
            ),
            final(tree).store == old(tree).store,
    {
        tree.set_provider(id, Some(self.provider));
    }

    /// The value of kind `kind` that the nearest provider at or above `id`
    /// provides, if any does.
    pub fn of(tree: &WidgetTree, id: usize, kind: ProvidedKind) -> (r: Option<Provided>)
        requires
            tree.wf(),
            id < tree.nodes@.len(),
        ensures
            r == provided_spec(tree.nodes@, id as int, kind),
        decreases id,
    {
        match tree.nodes[id].provider {
            Some(v) => {
                if v.kind() == kind {
                    return Some(v);
                }
            },
            None => {},
        }
        match tree.nodes[id].parent {
            Some(p) => Provider::of(tree, p, kind),
            None => None,
        }
    }
}

} // verus!
