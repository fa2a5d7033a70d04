//! The widget variant model and its mathematical reading.
use vstd::prelude::*;

verus! {

/// A render capability, identified by the key under which the rendering
/// layer knows it.
#[derive(Debug, Clone, Copy, PartialEq, Eq, Structural)]
pub struct Render {
    pub key: u64,
}

/// A widget description: a closed union of the four node kinds.
#[derive(Debug, PartialEq, Eq)]
pub enum Widget {
    /// Expands to exactly one replacement widget: the one it holds.
    Combination(Box<Widget>),
    /// A leaf.
    Render(Render),
    /// Splits into a render capability and one child.
    SingleChild(Render, Box<Widget>),
    /// Splits into a render capability and an ordered sequence of children.
    MultiChild(Render, Vec<Widget>),
}

/// The tree a widget description stands for once every combination has
/// been expanded: a payload and the shapes of the children, in order.
pub ghost struct Shape {
    pub payload: u64,
    pub children: Seq<Shape>,
}

/// The shapes of a sequence of widgets, element by element.
pub open spec fn shapes(ws: Seq<Widget>) -> Seq<Shape>
    decreases ws, 0nat,
{
    if ws.len() == 0 {
        Seq::empty()
    } else {
        shapes(ws.drop_last()).push(ws.last().shape())
    }
}

/// The work left in a sequence of widgets that wait to be inflated.
pub open spec fn weights(ws: Seq<Widget>) -> nat
    decreases ws, 0nat,
{
    if ws.len() == 0 {
        0
    } else {
        weights(ws.drop_last()) + ws.last().weight()
    }
}

/// The number of nodes of a shape.
pub open spec fn shape_size(s: Shape) -> nat
    decreases s, 1nat,
{
    1 + shapes_size(s.children)
}

/// The number of nodes of a sequence of shapes.
pub open spec fn shapes_size(ss: Seq<Shape>) -> nat
    decreases ss, 0nat,
{
    if ss.len() == 0 {
        0
    } else {
        shapes_size(ss.drop_last()) + shape_size(ss.last())
    }
}

impl Widget {
    pub open spec fn is_combination(self) -> bool {
        self is Combination
    }

    /// The tree this description inflates to.
    pub open spec fn shape(self) -> Shape
        decreases self, 1nat,
    {
        match self {
            Widget::Combination(inner) => inner.shape(),
            Widget::Render(r) => Shape { payload: r.key, children: Seq::empty() },
            Widget::SingleChild(r, child) => Shape {
                payload: r.key,
                children: Seq::empty().push(child.shape()),
            },
            Widget::MultiChild(r, children) => Shape {
                payload: r.key,
                children: shapes(children@),
            },
        }
    }

    /// A bound on the steps that inflating this description takes.
    pub open spec fn weight(self) -> nat
        decreases self, 1nat,
    {
        match self {
            Widget::Combination(inner) => 1 + inner.weight(),
            Widget::Render(_) => 2,
            Widget::SingleChild(_, child) => 2 + child.weight(),
            Widget::MultiChild(_, children) => 2 + weights(children@),
        }
    }

    /// Whether this description is a chain of `depth` single-child nodes
    /// that ends in a leaf, with no combination in it.
    pub open spec fn is_chain(self, depth: nat) -> bool
        decreases self,
    {
        match self {
            Widget::Render(_) => depth == 0,
            Widget::SingleChild(_, child) => depth > 0 && child.is_chain((depth - 1) as nat),
            _ => false,
        }
    }

    /// Wraps a widget as the expansion of a combination.
    pub fn combination(expansion: Widget) -> (w: Widget)
        ensures
            w == Widget::Combination(Box::new(expansion)),
            w.shape() == expansion.shape(),
    {
        Widget::Combination(Box::new(expansion))
    }

    /// Whether this widget is a combination, which has to be built before
    /// it can be split.
    pub fn needs_build(&self) -> (b: bool)
        ensures
            b == self.is_combination(),
    {
        match self {
            Widget::Combination(_) => true,
            _ => false,
        }
    }

    /// Expands a combination once; any other widget is its own expansion.
    pub fn build(self) -> (w: Widget)
        ensures
            w.shape() == self.shape(),
            self.is_combination() ==> w.weight() + 1 == self.weight(),
            match self {
                Widget::Combination(inner) => w == *inner,
                _ => w == self,
            },
    {
        match self {
            Widget::Combination(inner) => *inner,
            other => other,
        }
    }

    /// Splits a widget that is no combination into its render capability
    /// and its children, in order.
    pub fn split(self) -> (parts: (Render, Vec<Widget>))
        requires
            !self.is_combination(),
        ensures
            match self {
                Widget::Combination(_) => false,
                Widget::Render(r) => parts.0 == r && parts.1@ == Seq::<Widget>::empty(),
                Widget::SingleChild(r, child) => parts.0 == r && parts.1@ == Seq::empty().push(
                    *child,
                ),
                Widget::MultiChild(r, children) => parts.0 == r && parts.1@ == children@,
            },
            self.shape() == (Shape { payload: parts.0.key, children: shapes(parts.1@) }),
            self.weight() == 2 + weights(parts.1@),
    {
        match self {
            Widget::Combination(_) => vstd::pervasive::unreached(),
            Widget::Render(r) => (r, Vec::new()),
            Widget::SingleChild(r, child) => {
                let mut v: Vec<Widget> = Vec::new();
                v.push(*child);
                proof {
                    lemma_shapes_push(Seq::empty(), *child);
                    lemma_weights_push(Seq::empty(), *child);
                }
                (r, v)
            },
            Widget::MultiChild(r, children) => (r, children),
        }
    }
}

/// Appending a widget appends its shape.
pub proof fn lemma_shapes_push(ws: Seq<Widget>, w: Widget)
    ensures
        shapes(ws.push(w)) == shapes(ws).push(w.shape()),
{
    assert(ws.push(w).drop_last() =~= ws);
}

/// Appending a widget adds its weight.
pub proof fn lemma_weights_push(ws: Seq<Widget>, w: Widget)
    ensures
        weights(ws.push(w)) == weights(ws) + w.weight(),
{
    assert(ws.push(w).drop_last() =~= ws);
}

/// Appending a shape adds its nodes.
pub proof fn lemma_shapes_size_push(ss: Seq<Shape>, s: Shape)
    ensures
        shapes_size(ss.push(s)) == shapes_size(ss) + shape_size(s),
{
    assert(ss.push(s).drop_last() =~= ss);
}

/// The shapes of a sequence of widgets are as many as the widgets, and
/// each stands where its widget stands.
pub proof fn lemma_shapes_index(ws: Seq<Widget>)
    ensures
        shapes(ws).len() == ws.len(),
        forall|i: int| 0 <= i < ws.len() ==> (#[trigger] shapes(ws)[i]) == ws[i].shape(),
    decreases ws.len(),
{
    if ws.len() > 0 {
        lemma_shapes_index(ws.drop_last());
    }
}

/// Whether a shape is a single chain of `depth` nodes with one child each
/// and a childless node at its end.
pub open spec fn chain_shape(s: Shape, depth: nat) -> bool
    decreases depth,
{
    if depth == 0 {
        s.children.len() == 0
    } else {
        s.children.len() == 1 && chain_shape(s.children[0], (depth - 1) as nat)
    }
}

/// A description nested `depth` deep out of single-child nodes and a leaf
/// stands for a single chain of `depth + 1` nodes.
pub proof fn lemma_chain_shape(w: Widget, depth: nat)
    requires
        w.is_chain(depth),
    ensures
        chain_shape(w.shape(), depth),
        shape_size(w.shape()) == depth + 1,
    decreases w,
{
    match w {
        Widget::SingleChild(r, child) => {
            lemma_chain_shape(*child, (depth - 1) as nat);
            let cs = Seq::<Shape>::empty().push(child.shape());
            assert(cs.drop_last() =~= Seq::<Shape>::empty());
            assert(shapes_size(cs) == shapes_size(cs.drop_last()) + shape_size(cs.last()));
            assert(shapes_size(Seq::<Shape>::empty()) == 0);
        },
        _ => {
            assert(shapes_size(w.shape().children) == 0);
        },
    }
}

/// A multi-child widget stands for a node that has one child for each of
/// its widgets, in their order, whatever each of them expands to.
pub proof fn lemma_children_in_order(w: Widget)
    requires
        w is MultiChild,
    ensures
        w.shape().payload == w->MultiChild_0.key,
        w.shape().children.len() == w->MultiChild_1@.len(),
        forall|i: int|
            0 <= i < w->MultiChild_1@.len() ==> (#[trigger] w.shape().children[i])
                == w->MultiChild_1@[i].shape(),
{
    lemma_shapes_index(w->MultiChild_1@);
}

/// A combination leaves no node of its own: it stands for exactly the
/// tree that its expansion stands for.
pub proof fn lemma_combination_transparent(w: Widget)
    requires
        w is Combination,
    ensures
        w.shape() == w->Combination_0.shape(),
{
}

/// A multi-child widget without children stands for a single node with
/// an empty sequence of children.
pub proof fn lemma_no_children(w: Widget)
    requires
        w is MultiChild,
        w->MultiChild_1@.len() == 0,
    ensures
        w.shape() == (Shape { payload: w->MultiChild_0.key, children: Seq::empty() }),
        shape_size(w.shape()) == 1,
{
    assert(shapes(w->MultiChild_1@) == Seq::<Shape>::empty());
    assert(shapes_size(Seq::<Shape>::empty()) == 0);
}

} // verus!
