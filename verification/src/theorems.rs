//! What holds of every tree that realizes the shape of a widget, as
//! the trees that inflation makes do.
use vstd::prelude::*;
use slab_tree::NodeId;
use crate::multi_child::MultiPair;
use crate::store::{realizes, NodeEntry};
use crate::widget::{lemma_chain_shape, lemma_shapes_index, shape_size, shapes, Shape, Widget};

verus! {

/// Whether the node `id` heads a single chain: `depth` nodes with exactly
/// one child each, and below them a node without children.
pub open spec fn tree_chain(nodes: Map<NodeId, NodeEntry>, id: NodeId, depth: nat) -> bool
    decreases depth,
{
    &&& nodes.dom().contains(id)
    &&& if depth == 0 {
        nodes[id].children.len() == 0
    } else {
        nodes[id].children.len() == 1 && tree_chain(
            nodes,
            nodes[id].children[0],
            (depth - 1) as nat,
        )
    }
}

/// A tree that holds a widget nested `depth` deep out of single-child
/// nodes and a leaf is a single chain, and a tree of as many nodes as the
/// widget's shape has `depth + 1` of them.
pub proof fn lemma_chain_is_kept(
    nodes: Map<NodeId, NodeEntry>,
    id: NodeId,
    parent: Option<NodeId>,
    w: Widget,
    depth: nat,
)
    requires
        w.is_chain(depth),
        realizes(nodes, id, parent, w.shape()),
    ensures
        tree_chain(nodes, id, depth),
        shape_size(w.shape()) == depth + 1,
    decreases depth,
{
    lemma_chain_shape(w, depth);
    match w {
        Widget::SingleChild(r, child) => {
            assert(w.shape().children[0] == child.shape());
            lemma_chain_is_kept(
                nodes,
                nodes[id].children[0],
                Some(id),
                *child,
                (depth - 1) as nat,
            );
        },
        _ => {},
    }
}

/// A tree that holds a multi-child widget has, under the widget's node,
/// one child for each child widget, in the widget's order, and each child
/// holds what its widget expands to.
pub proof fn lemma_children_order_is_kept(
    nodes: Map<NodeId, NodeEntry>,
    id: NodeId,
    parent: Option<NodeId>,
    w: Widget,
)
    requires
        w is MultiChild,
        realizes(nodes, id, parent, w.shape()),
    ensures
        nodes[id].payload == w->MultiChild_0.key,
        nodes[id].children.len() == w->MultiChild_1@.len(),
        forall|i: int|
            0 <= i < w->MultiChild_1@.len() ==> realizes(
                nodes,
                #[trigger] nodes[id].children[i],
                Some(id),
                w->MultiChild_1@[i].shape(),
            ),
{
    lemma_shapes_index(w->MultiChild_1@);
}

/// A combination is not to be seen in a tree: a tree holds a combination
/// exactly if it holds the widget that the combination expands to.
pub proof fn lemma_combination_is_unseen(
    nodes: Map<NodeId, NodeEntry>,
    id: NodeId,
    parent: Option<NodeId>,
    w: Widget,
)
    requires
        w is Combination,
    ensures
        realizes(nodes, id, parent, w.shape()) == realizes(
            nodes,
            id,
            parent,
            w->Combination_0.shape(),
        ),
{
}

/// A pair to which no children were attached becomes a widget whose node
/// is there and has an empty sequence of children.
pub proof fn lemma_no_children_is_a_node(
    nodes: Map<NodeId, NodeEntry>,
    id: NodeId,
    parent: Option<NodeId>,
    pair: MultiPair,
)
    requires
        pair.children().len() == 0,
        realizes(
            nodes,
            id,
            parent,
            Shape { payload: pair.parent().key, children: shapes(pair.children()) },
        ),
    ensures
        nodes.dom().contains(id),
        nodes[id].payload == pair.parent().key,
        nodes[id].children == Seq::<NodeId>::empty(),
{
    assert(shapes(pair.children()) == Seq::<Shape>::empty());
    assert(nodes[id].children =~= Seq::<NodeId>::empty());
}

} // verus!
