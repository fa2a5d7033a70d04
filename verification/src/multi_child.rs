//! Attaching children to a multi-child parent before inflation.
use vstd::prelude::*;
use crate::widget::{shapes, Render, Shape, Widget};

verus! {

/// A reactive source of children: the collection it holds now, and the
/// handle under which later replacements will be announced.
#[derive(Debug, PartialEq, Eq)]
pub struct Pipe {
    pub current: Vec<Widget>,
    pub subscription: u64,
}

/// The three forms in which children are handed to a parent.
#[derive(Debug, PartialEq, Eq)]
pub enum Children {
    /// One widget.
    Single(Widget),
    /// A finite collection, in its order.
    Many(Vec<Widget>),
    /// A reactive source, of which the current collection is taken.
    Reactive(Pipe),
}

impl Children {
    /// The ordered sequence of widgets that these children come down to.
    pub open spec fn normalized(self) -> Seq<Widget> {
        match self {
            Children::Single(w) => Seq::empty().push(w),
            Children::Many(ws) => ws@,
            Children::Reactive(pipe) => pipe.current@,
        }
    }

    /// The subscription handles that come with these children.
    pub open spec fn handles(self) -> Seq<u64> {
        match self {
            Children::Reactive(pipe) => Seq::empty().push(pipe.subscription),
            _ => Seq::empty(),
        }
    }

    /// Flattens the children into one ordered collection.
    pub fn into_child_multi(self) -> (ws: Vec<Widget>)
        ensures
            ws@ == self.normalized(),
    {
        match self {
            Children::Single(w) => {
                let mut ws: Vec<Widget> = Vec::new();
                ws.push(w);
                ws
            },
            Children::Many(ws) => ws,
            Children::Reactive(pipe) => pipe.current,
        }
    }
}

/// The sequence that `children` grows to when `more` is attached.
pub open spec fn attach(children: Seq<Widget>, more: Children) -> Seq<Widget> {
    children + more.normalized()
}

/// A parent together with the children attached to it so far.
#[derive(Debug, PartialEq, Eq)]
pub struct MultiPair {
    parent: Render,
    children: Vec<Widget>,
    subscriptions: Vec<u64>,
}

impl MultiPair {
    /// The parent.
    pub closed spec fn parent(self) -> Render {
        self.parent
    }

    /// The children attached so far, in order.
    pub closed spec fn children(self) -> Seq<Widget> {
        self.children@
    }

    /// The handles of the reactive sources whose children were taken, in
    /// the order in which they were attached.
    pub closed spec fn subscriptions(self) -> Seq<u64> {
        self.subscriptions@
    }

    /// Pairs `parent` with `children`.
    pub fn new(parent: Render, children: Children) -> (pair: MultiPair)
        ensures
            pair.parent() == parent,
            pair.children() == attach(Seq::empty(), children),
            pair.subscriptions() == children.handles(),
    {
        let empty = MultiPair { parent, children: Vec::new(), subscriptions: Vec::new() };
        let pair = empty.with_child(children);
        proof {
            assert(pair.subscriptions() =~= children.handles());
        }
        pair
    }

    /// Attaches `child` behind the children that are there.
    pub fn with_child(self, child: Children) -> (pair: MultiPair)
        ensures
            pair.parent() == self.parent(),
            pair.children() == attach(self.children(), child),
            pair.subscriptions() == self.subscriptions() + child.handles(),
    {
        let MultiPair { parent, children, subscriptions } = self;
        let mut children = children;
        let mut subscriptions = subscriptions;
        match &child {
            Children::Reactive(pipe) => {
                subscriptions.push(pipe.subscription);
            },
            _ => {},
        }
        proof {
            assert(subscriptions@ =~= self.subscriptions() + child.handles());
        }
        let mut more = child.into_child_multi();
        children.append(&mut more);
        MultiPair { parent, children, subscriptions }
    }

    /// The subscription handles collected so far.
    pub fn subscription_handles(&self) -> (handles: Vec<u64>)
        ensures
            handles@ == self.subscriptions(),
    {
        self.subscriptions.clone()
    }

    /// Turns the pair into one multi-child widget that splits into the
    /// parent and the children as they stand.
    pub fn into_widget_strict(self) -> (w: Widget)
        ensures
            w matches Widget::MultiChild(r, cs) && r == self.parent() && cs@ == self.children(),
            w.shape() == (Shape {
                payload: self.parent().key,
                children: shapes(self.children()),
            }),
    {
        Widget::MultiChild(self.parent, self.children)
    }

    /// Turns the pair into its multi-child widget and hands out, beside
    /// it, the handles of the reactive sources that gave it children, so
    /// that their later changes can be led to the widget's node.
    pub fn into_widget_with_handles(self) -> (parts: (Widget, Vec<u64>))
        ensures
            parts.0 matches Widget::MultiChild(r, cs) && r == self.parent() && cs@
                == self.children(),
            parts.0.shape() == (Shape {
                payload: self.parent().key,
                children: shapes(self.children()),
            }),
            parts.1@ == self.subscriptions(),
    {
        (Widget::MultiChild(self.parent, self.children), self.subscriptions)
    }
}

impl Render {
    /// Pairs this parent with `child`.
    pub fn with_child(self, child: Children) -> (pair: MultiPair)
        ensures
            pair.parent() == self,
            pair.children() == attach(Seq::empty(), child),
            pair.subscriptions() == child.handles(),
    {
        MultiPair::new(self, child)
    }

    /// This parent as a widget of its own, without children.
    pub fn into_parent(self) -> (w: Widget)
        ensures
            w == Widget::Render(self),
    {
        Widget::Render(self)
    }
}

/// Attaching is associative: children attached in two steps make the
/// sequence that their concatenation makes in one step.
pub proof fn lemma_attach_associative(
    children: Seq<Widget>,
    first: Children,
    second: Children,
    both: Children,
)
    requires
        both.normalized() == first.normalized() + second.normalized(),
    ensures
        attach(attach(children, first), second) == attach(children, both),
{
    assert(attach(attach(children, first), second) =~= attach(children, both));
}

/// Attaching no children leaves the sequence as it was, and a parent
/// without children stands for a single node.
pub proof fn lemma_attach_nothing(children: Seq<Widget>, none: Children, parent: Render)
    requires
        none.normalized().len() == 0,
    ensures
        attach(children, none) == children,
        attach(Seq::empty(), none) == Seq::<Widget>::empty(),
        shapes(attach(Seq::empty(), none)) == Seq::<Shape>::empty(),
{
    assert(attach(children, none) =~= children);
    assert(attach(Seq::empty(), none) =~= Seq::<Widget>::empty());
}

} // verus!
