//! The inflation driver: it turns a widget description into a node tree.
use vstd::prelude::*;
use slab_tree::NodeId;
use slab_tree::Tree;
use crate::store::{
    lone_entry, realizes, tree_children, tree_nodes, tree_parent, tree_payload, tree_prepend,
    tree_root, tree_root_id, tree_with_root, with_first_child, NodeEntry,
};
use crate::widget::{
    lemma_shapes_index, lemma_shapes_push, lemma_shapes_size_push, lemma_weights_push, shape_size,
    shapes, shapes_size, weights, Render, Shape, Widget,
};

verus! {

/// Why the store refused a child.
#[derive(Debug, Clone, Copy, PartialEq, Eq, Structural)]
pub enum StoreError {
    /// There is no tree yet.
    NoTree,
    /// The tree has no node of that identifier.
    UnknownNode,
}

/// Owns the node tree that a widget description is inflated into.
pub struct Application {
    widget_tree: Option<Tree<u64>>,
}

/// An entry of the work stack: the identifier of a node that is in the
/// tree already, and the widgets queued to become its children, first to
/// last. The last one is attached next, before those attached earlier.
struct Frame {
    parent: NodeId,
    pending: Vec<Widget>,
}

/// How many children of `id` are not attached yet.
spec fn missing(nodes: Map<NodeId, NodeEntry>, target: Map<NodeId, Shape>, id: NodeId) -> int {
    target[id].children.len() - nodes[id].children.len()
}

/// The node `id` holds its payload, and its children are the last ones
/// of those it shall have, in order.
spec fn node_ok(nodes: Map<NodeId, NodeEntry>, target: Map<NodeId, Shape>, id: NodeId) -> bool {
    &&& nodes[id].payload == target[id].payload
    &&& nodes[id].children.len() <= target[id].children.len()
    &&& forall|j: int|
        0 <= j < nodes[id].children.len() ==> {
            let c = #[trigger] nodes[id].children[j];
            &&& nodes.dom().contains(c)
            &&& nodes[c].parent == Some(id)
            &&& target[c] == target[id].children[missing(nodes, target, id) + j]
        }
}

/// The frame at `i` holds exactly the children that its node misses.
spec fn frame_ok(
    nodes: Map<NodeId, NodeEntry>,
    target: Map<NodeId, Shape>,
    frame_of: Map<NodeId, int>,
    stack: Seq<Frame>,
    i: int,
) -> bool {
    let f = stack[i];
    &&& nodes.dom().contains(f.parent)
    &&& frame_of[f.parent] == i
    &&& f.pending@.len() == missing(nodes, target, f.parent)
    &&& forall|j: int|
        0 <= j < f.pending@.len() ==> (#[trigger] f.pending@[j]).shape()
            == target[f.parent].children[j]
}

/// The state of an inflation under way.
spec fn inflating(
    nodes: Map<NodeId, NodeEntry>,
    target: Map<NodeId, Shape>,
    frame_of: Map<NodeId, int>,
    stack: Seq<Frame>,
) -> bool {
    &&& forall|id: NodeId| #[trigger] nodes.dom().contains(id) ==> node_ok(nodes, target, id)
    &&& forall|id: NodeId|
        #[trigger] nodes.dom().contains(id) && missing(nodes, target, id) > 0 ==> 0
            <= frame_of[id] < stack.len() && stack[frame_of[id]].parent == id
    &&& forall|i: int|
        0 <= i < stack.len() ==> #[trigger] frame_ok(nodes, target, frame_of, stack, i)
}

spec fn frame_weight(f: Frame) -> nat {
    1 + weights(f.pending@)
}

spec fn stack_weight(stack: Seq<Frame>) -> nat
    decreases stack.len(),
{
    if stack.len() == 0 {
        0
    } else {
        stack_weight(stack.drop_last()) + frame_weight(stack.last())
    }
}

proof fn lemma_stack_push(stack: Seq<Frame>, f: Frame)
    ensures
        stack_weight(stack.push(f)) == stack_weight(stack) + frame_weight(f),
        stack_size(stack.push(f)) == stack_size(stack) + frame_size(f),
{
    assert(stack.push(f).drop_last() =~= stack);
}

/// The nodes that the widgets waiting in a frame will make.
spec fn frame_size(f: Frame) -> nat {
    shapes_size(shapes(f.pending@))
}

/// The nodes that the widgets waiting on the stack will make.
spec fn stack_size(stack: Seq<Frame>) -> nat
    decreases stack.len(),
{
    if stack.len() == 0 {
        0
    } else {
        stack_size(stack.drop_last()) + frame_size(stack.last())
    }
}

/// The nodes of waiting widgets are those of all but the last and those
/// of the last.
proof fn lemma_size_last(ws: Seq<Widget>)
    requires
        ws.len() > 0,
    ensures
        shapes_size(shapes(ws)) == shapes_size(shapes(ws.drop_last())) + shape_size(
            ws.last().shape(),
        ),
{
    lemma_shapes_size_push(shapes(ws.drop_last()), ws.last().shape());
}

proof fn lemma_drop_frame(
    nodes: Map<NodeId, NodeEntry>,
    target: Map<NodeId, Shape>,
    frame_of: Map<NodeId, int>,
    stack: Seq<Frame>,
)
    requires
        inflating(nodes, target, frame_of, stack),
        stack.len() > 0,
        stack.last().pending@.len() == 0,
    ensures
        inflating(nodes, target, frame_of, stack.drop_last()),
{
    let rest = stack.drop_last();
    assert(frame_ok(nodes, target, frame_of, stack, stack.len() - 1));
    assert forall|i: int| 0 <= i < rest.len() implies #[trigger] frame_ok(
        nodes,
        target,
        frame_of,
        rest,
        i,
    ) by {
        assert(frame_ok(nodes, target, frame_of, stack, i));
    }
}

proof fn lemma_replace_pending(
    nodes: Map<NodeId, NodeEntry>,
    target: Map<NodeId, Shape>,
    frame_of: Map<NodeId, int>,
    stack: Seq<Frame>,
    f: Frame,
)
    requires
        inflating(nodes, target, frame_of, stack),
        stack.len() > 0,
        f.parent == stack.last().parent,
        f.pending@.len() == stack.last().pending@.len(),
        forall|j: int|
            0 <= j < f.pending@.len() ==> (#[trigger] f.pending@[j]).shape()
                == stack.last().pending@[j].shape(),
    ensures
        inflating(nodes, target, frame_of, stack.drop_last().push(f)),
{
    let next = stack.drop_last().push(f);
    assert(frame_ok(nodes, target, frame_of, stack, stack.len() - 1));
    assert forall|i: int| 0 <= i < next.len() implies #[trigger] frame_ok(
        nodes,
        target,
        frame_of,
        next,
        i,
    ) by {
        assert(frame_ok(nodes, target, frame_of, stack, i));
    }
    assert forall|id: NodeId| #[trigger]
        nodes.dom().contains(id) && missing(nodes, target, id) > 0 implies 0 <= frame_of[id]
        < next.len() && next[frame_of[id]].parent == id by {
        assert(stack[frame_of[id]].parent == id);
    }
}

proof fn lemma_attach(
    nodes: Map<NodeId, NodeEntry>,
    target: Map<NodeId, Shape>,
    frame_of: Map<NodeId, int>,
    stack: Seq<Frame>,
    id: NodeId,
    payload: u64,
    lower: Frame,
    upper: Frame,
)
    requires
        inflating(nodes, target, frame_of, stack),
        stack.len() > 0,
        stack.last().pending@.len() > 0,
        !nodes.dom().contains(id),
        lower.parent == stack.last().parent,
        lower.pending@ == stack.last().pending@.drop_last(),
        upper.parent == id,
        stack.last().pending@.last().shape() == (Shape {
            payload,
            children: shapes(upper.pending@),
        }),
    ensures
        inflating(
            nodes.insert(
                stack.last().parent,
                with_first_child(nodes[stack.last().parent], id),
            ).insert(id, lone_entry(payload, Some(stack.last().parent))),
            target.insert(id, stack.last().pending@.last().shape()),
            frame_of.insert(id, stack.len() as int),
            stack.drop_last().push(lower).push(upper),
        ),
{
    let top = stack.len() - 1;
    let p = stack.last().parent;
    let child = stack.last().pending@.last();
    let nodes2 = nodes.insert(p, with_first_child(nodes[p], id)).insert(
        id,
        lone_entry(payload, Some(p)),
    );
    let target2 = target.insert(id, child.shape());
    let frame_of2 = frame_of.insert(id, stack.len() as int);
    let next = stack.drop_last().push(lower).push(upper);
    lemma_shapes_index(upper.pending@);
    assert(frame_ok(nodes, target, frame_of, stack, top));
    assert(nodes.dom().contains(p));
    assert(node_ok(nodes, target, p));
    assert(p != id);
    assert(missing(nodes2, target2, p) == missing(nodes, target, p) - 1);
    assert(missing(nodes2, target2, id) == upper.pending@.len());
    assert forall|n: NodeId| #[trigger] nodes2.dom().contains(n) implies node_ok(
        nodes2,
        target2,
        n,
    ) by {
        if n == id {
        } else if n == p {
            assert forall|j: int| 0 <= j < nodes2[p].children.len() implies {
                let c = #[trigger] nodes2[p].children[j];
                &&& nodes2.dom().contains(c)
                &&& nodes2[c].parent == Some(p)
                &&& target2[c] == target2[p].children[missing(nodes2, target2, p) + j]
            } by {
                if j > 0 {
                    let c = nodes[p].children[j - 1];
                    assert(nodes2[p].children[j] == c);
                    assert(nodes.dom().contains(c));
                }
            }
        } else {
            assert(nodes.dom().contains(n));
            assert(node_ok(nodes, target, n));
            assert(nodes2[n] == nodes[n]);
            assert forall|j: int| 0 <= j < nodes2[n].children.len() implies {
                let c = #[trigger] nodes2[n].children[j];
                &&& nodes2.dom().contains(c)
                &&& nodes2[c].parent == Some(n)
                &&& target2[c] == target2[n].children[missing(nodes2, target2, n) + j]
            } by {
                let c = nodes[n].children[j];
                assert(nodes.dom().contains(c));
            }
        }
    }
    assert forall|i: int| 0 <= i < next.len() implies #[trigger] frame_ok(
        nodes2,
        target2,
        frame_of2,
        next,
        i,
    ) by {
        if i < top {
            assert(frame_ok(nodes, target, frame_of, stack, i));
            assert(next[i] == stack[i]);
        }
    }
    assert forall|n: NodeId| #[trigger]
        nodes2.dom().contains(n) && missing(nodes2, target2, n) > 0 implies 0 <= frame_of2[n]
        < next.len() && next[frame_of2[n]].parent == n by {
        if n != id && n != p {
            assert(nodes.dom().contains(n));
            assert(missing(nodes, target, n) > 0);
            let k = frame_of[n];
            assert(stack[k].parent == n);
            assert(k != top);
            assert(next[k] == stack[k]);
        }
    }
}

/// With nothing left to attach anywhere, each node holds its whole shape.
proof fn lemma_complete(
    nodes: Map<NodeId, NodeEntry>,
    target: Map<NodeId, Shape>,
    id: NodeId,
    parent: Option<NodeId>,
)
    requires
        forall|n: NodeId| #[trigger] nodes.dom().contains(n) ==> node_ok(nodes, target, n),
        forall|n: NodeId| #[trigger] nodes.dom().contains(n) ==> missing(nodes, target, n) == 0,
        nodes.dom().contains(id),
        nodes[id].parent == parent,
    ensures
        realizes(nodes, id, parent, target[id]),
    decreases target[id],
{
    assert(node_ok(nodes, target, id));
    assert(missing(nodes, target, id) == 0);
    assert forall|i: int| 0 <= i < target[id].children.len() implies realizes(
        nodes,
        #[trigger] nodes[id].children[i],
        Some(id),
        target[id].children[i],
    ) by {
        let c = nodes[id].children[i];
        assert(nodes.dom().contains(c));
        assert(target[c] == target[id].children[i]);
        lemma_complete(nodes, target, c, Some(id));
    }
}

impl Default for Application {
    fn default() -> (app: Application)
        ensures
            !app.has_tree(),
            app.root().is_none(),
            app.nodes() == Map::<NodeId, NodeEntry>::empty(),
    {
        Application::new()
    }
}

impl Application {
    /// Whether a tree has been created.
    pub closed spec fn has_tree(self) -> bool {
        self.widget_tree is Some
    }

    /// The nodes of the tree; none before a tree is created.
    pub closed spec fn nodes(self) -> Map<NodeId, NodeEntry> {
        match self.widget_tree {
            Some(tree) => tree_nodes(tree),
            None => Map::empty(),
        }
    }

    /// The root of the tree, if there is one.
    pub closed spec fn root(self) -> Option<NodeId> {
        match self.widget_tree {
            Some(tree) => tree_root(tree),
            None => None,
        }
    }

    /// An application without a tree.
    pub fn new() -> (app: Application)
        ensures
            !app.has_tree(),
            app.root().is_none(),
            app.nodes() == Map::<NodeId, NodeEntry>::empty(),
    {
        Application { widget_tree: None }
    }

    /// Starts a new tree whose only node holds `w`, in place of whatever
    /// tree there was.
    pub fn create_root(&mut self, w: Render) -> (id: NodeId)
        ensures
            final(self).has_tree(),
            final(self).root() == Some(id),
            final(self).nodes() == Map::<NodeId, NodeEntry>::empty().insert(
                id,
                lone_entry(w.key, None),
            ),
    {
        let tree = tree_with_root(w.key);
        let id = match tree_root_id(&tree) {
            Some(id) => id,
            None => vstd::pervasive::unreached(),
        };
        self.widget_tree = Some(tree);
        id
    }

    /// Puts a node that holds `w` before the children of `parent`.
    pub fn append_child(&mut self, parent: NodeId, w: Render) -> (res: Result<NodeId, StoreError>)
        ensures
            final(self).has_tree() == old(self).has_tree(),
            final(self).root() == old(self).root(),
            res.is_ok() == old(self).nodes().dom().contains(parent),
            res == Err::<NodeId, StoreError>(StoreError::NoTree) <==> !old(self).has_tree(),
            res.is_err() ==> final(self).nodes() == old(self).nodes(),
            res.is_ok() ==> !old(self).nodes().dom().contains(res.unwrap()),
            res.is_ok() ==> final(self).nodes() == old(self).nodes().insert(
                parent,
                with_first_child(old(self).nodes()[parent], res.unwrap()),
            ).insert(res.unwrap(), lone_entry(w.key, Some(parent))),
    {
        match self.widget_tree.take() {
            None => Err(StoreError::NoTree),
            Some(tree) => {
                let mut tree = tree;
                let added = tree_prepend(&mut tree, parent, w.key);
                self.widget_tree = Some(tree);
                match added {
                    Some(id) => Ok(id),
                    None => Err(StoreError::UnknownNode),
                }
            },
        }
    }

    /// With a parent, puts `w` before that node's children; without one,
    /// makes `w` the root of a new tree.
    pub fn add_widget(&mut self, id: Option<NodeId>, w: Render) -> (res: Result<
        NodeId,
        StoreError,
    >)
        ensures
            id.is_none() ==> res.is_ok() && final(self).has_tree() && final(self).root() == Some(
                res.unwrap(),
            ) && final(self).nodes() == Map::<NodeId, NodeEntry>::empty().insert(
                res.unwrap(),
                lone_entry(w.key, None),
            ),
            id.is_some() ==> {
                let parent = id.unwrap();
                &&& final(self).has_tree() == old(self).has_tree()
                &&& final(self).root() == old(self).root()
                &&& res.is_ok() == old(self).nodes().dom().contains(parent)
                &&& res == Err::<NodeId, StoreError>(StoreError::NoTree) <==> !old(
                    self,
                ).has_tree()
                &&& res.is_err() ==> final(self).nodes() == old(self).nodes()
                &&& res.is_ok() ==> !old(self).nodes().dom().contains(res.unwrap())
                &&& res.is_ok() ==> final(self).nodes() == old(self).nodes().insert(
                    parent,
                    with_first_child(old(self).nodes()[parent], res.unwrap()),
                ).insert(res.unwrap(), lone_entry(w.key, Some(parent)))
            },
    {
        match id {
            Some(parent) => self.append_child(parent, w),
            None => Ok(self.create_root(w)),
        }
    }

    /// The root's identifier, if there is a tree.
    pub fn root_id(&self) -> (id: Option<NodeId>)
        ensures
            id == self.root(),
    {
        match &self.widget_tree {
            Some(tree) => tree_root_id(tree),
            None => None,
        }
    }

    /// The render capability that the node `id` holds.
    pub fn payload(&self, id: NodeId) -> (r: Option<Render>)
        ensures
            r == (if self.nodes().dom().contains(id) {
                Some(Render { key: self.nodes()[id].payload })
            } else {
                None
            }),
    {
        match &self.widget_tree {
            Some(tree) => match tree_payload(tree, id) {
                Some(key) => Some(Render { key }),
                None => None,
            },
            None => None,
        }
    }

    /// The parent of the node `id`: none for the root and for an
    /// identifier that the tree does not know.
    pub fn parent(&self, id: NodeId) -> (p: Option<NodeId>)
        ensures
            p == (if self.nodes().dom().contains(id) {
                self.nodes()[id].parent
            } else {
                None
            }),
    {
        match &self.widget_tree {
            Some(tree) => tree_parent(tree, id),
            None => None,
        }
    }

    /// The children of the node `id`, first to last: none for an
    /// identifier that the tree does not know.
    pub fn children(&self, id: NodeId) -> (c: Vec<NodeId>)
        ensures
            c@ == (if self.nodes().dom().contains(id) {
                self.nodes()[id].children
            } else {
                Seq::empty()
            }),
    {
        match &self.widget_tree {
            Some(tree) => tree_children(tree, id),
            None => Vec::new(),
        }
    }

    /// Inflates `w` into a new tree, which replaces whatever tree there
    /// was, and returns its root. The tree holds the shape of `w`: one
    /// node for each widget that is no combination, with the children of
    /// every node in the order in which its widget splits.
    pub fn inflate(&mut self, w: Widget) -> (root: NodeId)
        ensures
            final(self).has_tree(),
            final(self).root() == Some(root),
            realizes(final(self).nodes(), root, None, w.shape()),
            final(self).nodes().dom().finite(),
            final(self).nodes().dom().len() == shape_size(w.shape()),
    {
        let ghost goal = w.shape();
        let mut cur = w;
        while cur.needs_build()
            invariant
                cur.shape() == goal,
            decreases cur.weight(),
        {
            cur = cur.build();
        }
        let (render, kids) = cur.split();
        let mut tree = tree_with_root(render.key);
        let root = match tree_root_id(&tree) {
            Some(id) => id,
            None => vstd::pervasive::unreached(),
        };
        let ghost mut target: Map<NodeId, Shape> = Map::empty().insert(root, goal);
        let ghost mut frame_of: Map<NodeId, int> = Map::empty().insert(root, 0int);
        let mut stack: Vec<Frame> = Vec::new();
        stack.push(Frame { parent: root, pending: kids });
        proof {
            lemma_shapes_index(kids@);
            assert(node_ok(tree_nodes(tree), target, root));
            assert(frame_ok(tree_nodes(tree), target, frame_of, stack@, 0));
            lemma_stack_push(Seq::empty(), stack@[0]);
            assert(stack@ =~= Seq::<Frame>::empty().push(stack@[0]));
            assert(stack_size(Seq::<Frame>::empty()) == 0);
        }
        while stack.len() > 0
            invariant
                inflating(tree_nodes(tree), target, frame_of, stack@),
                tree_root(tree) == Some(root),
                tree_nodes(tree).dom().contains(root),
                tree_nodes(tree)[root].parent.is_none(),
                target.dom().contains(root),
                target[root] == goal,
                tree_nodes(tree).dom().finite(),
                tree_nodes(tree).dom().len() + stack_size(stack@) == shape_size(goal),
            decreases stack_weight(stack@),
        {
            let ghost before = stack@;
            let ghost nodes = tree_nodes(tree);
            let mut frame = match stack.pop() {
                Some(f) => f,
                None => vstd::pervasive::unreached(),
            };
            let parent = frame.parent;
            let ghost waiting = frame.pending@;
            proof {
                assert(frame == before.last());
                assert(stack@ == before.drop_last());
                assert(frame_ok(nodes, target, frame_of, before, before.len() - 1));
                assert(stack_weight(before) == stack_weight(before.drop_last()) + frame_weight(
                    before.last(),
                ));
                assert(stack_size(before) == stack_size(before.drop_last()) + frame_size(
                    before.last(),
                ));
            }
            match frame.pending.pop() {
                None => {
                    proof {
                        lemma_drop_frame(nodes, target, frame_of, before);
                        assert(shapes_size(shapes(waiting)) == 0);
                    }
                },
                Some(child) => {
                    proof {
                        assert(child == waiting.last());
                        assert(weights(waiting) == weights(waiting.drop_last()) + child.weight());
                        lemma_size_last(waiting);
                    }
                    if child.needs_build() {
                        let built = child.build();
                        frame.pending.push(built);
                        proof {
                            lemma_weights_push(waiting.drop_last(), built);
                            lemma_shapes_push(waiting.drop_last(), built);
                            assert(frame.pending@ == waiting.drop_last().push(built));
                            lemma_replace_pending(nodes, target, frame_of, before, frame);
                            lemma_stack_push(before.drop_last(), frame);
                        }
                        stack.push(frame);
                    } else {
                        let ghost shape = child.shape();
                        let (render, kids) = child.split();
                        let id = match tree_prepend(&mut tree, parent, render.key) {
                            Some(id) => id,
                            None => vstd::pervasive::unreached(),
                        };
                        let upper = Frame { parent: id, pending: kids };
                        proof {
                            assert(frame.pending@ == waiting.drop_last());
                            lemma_attach(
                                nodes,
                                target,
                                frame_of,
                                before,
                                id,
                                render.key,
                                frame,
                                upper,
                            );
                            lemma_stack_push(before.drop_last(), frame);
                            lemma_stack_push(before.drop_last().push(frame), upper);
                            target = target.insert(id, shape);
                            frame_of = frame_of.insert(id, before.len() as int);
                        }
                        stack.push(frame);
                        stack.push(upper);
                    }
                },
            }
        }
        proof {
            lemma_complete(tree_nodes(tree), target, root, None);
            assert(stack_size(stack@) == 0);
        }
        self.widget_tree = Some(tree);
        root
    }

    /// Inflates `w` and hands the application on to what renders the tree.
    pub fn run(self, w: Widget) -> (app: Application)
        ensures
            app.has_tree(),
            app.root().is_some(),
            realizes(app.nodes(), app.root().unwrap(), None, w.shape()),
            app.nodes().dom().finite(),
            app.nodes().dom().len() == shape_size(w.shape()),
    {
        let mut app = self;
        let _ = app.inflate(w);
        app
    }
}

} // verus!
