//! The node tree store: a `slab_tree::Tree` of render keys, read through a
//! map from node identifiers to what each node holds.
use vstd::prelude::*;
use slab_tree::NodeId;
use slab_tree::Tree;
use slab_tree::TreeBuilder;
use crate::widget::Shape;

verus! {

#[verifier::external_type_specification]
#[verifier::external_body]
#[verifier::reject_recursive_types(T)]
pub struct ExTree<T>(slab_tree::Tree<T>);

#[verifier::external_type_specification]
#[verifier::external_body]
pub struct ExNodeId(slab_tree::NodeId);

/// What the store keeps of one node.
pub ghost struct NodeEntry {
    pub payload: u64,
    pub parent: Option<NodeId>,
    pub children: Seq<NodeId>,
}

/// The nodes of a tree: every identifier that the tree answers to, with
/// the node's payload, its parent and its children from first to last.
pub uninterp spec fn tree_nodes(tree: Tree<u64>) -> Map<NodeId, NodeEntry>;

/// The identifier of a tree's root, if it has one.
pub uninterp spec fn tree_root(tree: Tree<u64>) -> Option<NodeId>;

/// The entry of a node without parent or children.
pub open spec fn lone_entry(payload: u64, parent: Option<NodeId>) -> NodeEntry {
    NodeEntry { payload, parent, children: Seq::empty() }
}

/// The entry of a node after a new first child has been put before its
/// children.
pub open spec fn with_first_child(entry: NodeEntry, child: NodeId) -> NodeEntry {
    NodeEntry {
        payload: entry.payload,
        parent: entry.parent,
        children: Seq::empty().push(child) + entry.children,
    }
}

/// Whether the node `id` and all below it hold exactly `shape`: the
/// payloads, the number of children and their order, with every child
/// naming its parent.
pub open spec fn realizes(
    nodes: Map<NodeId, NodeEntry>,
    id: NodeId,
    parent: Option<NodeId>,
    shape: Shape,
) -> bool
    decreases shape,
{
    &&& nodes.dom().contains(id)
    &&& nodes[id].payload == shape.payload
    &&& nodes[id].parent == parent
    &&& nodes[id].children.len() == shape.children.len()
    &&& forall|i: int|
        0 <= i < shape.children.len() ==> realizes(
            nodes,
            #[trigger] nodes[id].children[i],
            Some(id),
            shape.children[i],
        )
}

/// Calls `TreeBuilder::new`, `with_root` and `build` of slab_tree. The
/// tree that comes back has a root, and that root, holding `payload` and
/// having neither parent nor children, is its only node.
#[verifier::external_body]
pub(crate) fn tree_with_root(payload: u64) -> (tree: Tree<u64>)
    ensures
        tree_root(tree).is_some(),
        tree_nodes(tree) == Map::<NodeId, NodeEntry>::empty().insert(
            tree_root(tree).unwrap(),
            lone_entry(payload, None),
        ),
{
    TreeBuilder::new().with_root(payload).build()
}

/// Calls `Tree::root_id` of slab_tree, which hands out the root's
/// identifier.
#[verifier::external_body]
pub(crate) fn tree_root_id(tree: &Tree<u64>) -> (id: Option<NodeId>)
    ensures
        id == tree_root(*tree),
{
    tree.root_id()
}

/// Calls `Tree::get_mut` and, on the node it finds, `NodeMut::prepend` of
/// slab_tree. Where the tree has the node `parent`, a node with a new
/// identifier, holding `payload`, becomes the first child of `parent`, and
/// nothing else changes; where it has not, the tree stays as it was and
/// `None` comes back.
#[verifier::external_body]
pub(crate) fn tree_prepend(tree: &mut Tree<u64>, parent: NodeId, payload: u64) -> (id: Option<
    NodeId,
>)
    ensures
        tree_root(*final(tree)) == tree_root(*old(tree)),
        id.is_some() == tree_nodes(*old(tree)).dom().contains(parent),
        id.is_none() ==> tree_nodes(*final(tree)) == tree_nodes(*old(tree)),
        id.is_some() ==> !tree_nodes(*old(tree)).dom().contains(id.unwrap()),
        id.is_some() ==> tree_nodes(*final(tree)) == tree_nodes(*old(tree)).insert(
            parent,
            with_first_child(tree_nodes(*old(tree))[parent], id.unwrap()),
        ).insert(id.unwrap(), lone_entry(payload, Some(parent))),
{
    tree.get_mut(parent).map(|mut node| node.prepend(payload).node_id())
}

/// Calls `Tree::get` and `NodeRef::data` of slab_tree: the payload of the
/// node `id`, or `None` where the tree has no such node.
#[verifier::external_body]
pub(crate) fn tree_payload(tree: &Tree<u64>, id: NodeId) -> (payload: Option<u64>)
    ensures
        payload == (if tree_nodes(*tree).dom().contains(id) {
            Some(tree_nodes(*tree)[id].payload)
        } else {
            None
        }),
{
    tree.get(id).map(|node| *node.data())
}

/// Calls `Tree::get` and `NodeRef::parent` of slab_tree: the parent of
/// the node `id`, or `None` where the node is the root or the tree has no
/// such node.
#[verifier::external_body]
pub(crate) fn tree_parent(tree: &Tree<u64>, id: NodeId) -> (parent: Option<NodeId>)
    ensures
        parent == (if tree_nodes(*tree).dom().contains(id) {
            tree_nodes(*tree)[id].parent
        } else {
            None
        }),
{
    tree.get(id).and_then(|node| node.parent().map(|p| p.node_id()))
}

/// Calls `Tree::get` and `NodeRef::children` of slab_tree: the
/// identifiers of the children of the node `id`, from first to last; none
/// where the tree has no such node.
#[verifier::external_body]
pub(crate) fn tree_children(tree: &Tree<u64>, id: NodeId) -> (children: Vec<NodeId>)
    ensures
        children@ == (if tree_nodes(*tree).dom().contains(id) {
            tree_nodes(*tree)[id].children
        } else {
            Seq::empty()
        }),
{
    tree.get(id).map(|node| node.children().map(|c| c.node_id()).collect()).unwrap_or_default()
}

} // verus!
