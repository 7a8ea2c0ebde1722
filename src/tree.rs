use vstd::prelude::*;

use crate::document::children_of;
use crate::event::EventView;
use crate::name::{Attribute, Name, Namespace};
use crate::node::NodeView;

verus! {

broadcast use vstd::seq::group_seq_axioms;

/// A document tree with the children held inside their element: the shape
/// that the events describe, free of ids.
pub enum Tree {
    Element { name: Name, attributes: Seq<Attribute>, namespace: Namespace, children: Seq<Tree> },
    Text { content: Seq<char> },
}

/// The events that describe `t`: an element as its start, the events of its
/// children in order, and its end; a text as its characters.
pub open spec fn tree_events(t: Tree) -> Seq<EventView>
    decreases t,
{
    match t {
        Tree::Element { name, attributes, namespace, children } => seq![
            EventView::StartElement { name, attributes, namespace },
        ] + forest_events(children) + seq![EventView::EndElement { name }],
        Tree::Text { content } => seq![EventView::Characters(content)],
    }
}

/// The events of the trees `ts`, one after the other.
pub open spec fn forest_events(ts: Seq<Tree>) -> Seq<EventView>
    decreases ts,
{
    if ts.len() == 0 {
        Seq::empty()
    } else {
        forest_events(ts.drop_last()) + tree_events(ts.last())
    }
}

/// The number of nodes of `t`.
pub open spec fn tree_size(t: Tree) -> nat
    decreases t,
{
    match t {
        Tree::Element { children, .. } => 1 + forest_size(children),
        Tree::Text { .. } => 1,
    }
}

/// The number of nodes of the trees `ts`.
pub open spec fn forest_size(ts: Seq<Tree>) -> nat
    decreases ts,
{
    if ts.len() == 0 {
        0
    } else {
        forest_size(ts.drop_last()) + tree_size(ts.last())
    }
}

/// The tree rooted at node `id`.
pub open spec fn tree_of(nodes: Seq<NodeView>, id: int) -> Tree
    decreases nodes.len() - id, children_of(nodes, id).len() + 1,
{
    if 0 <= id < nodes.len() {
        match nodes[id] {
            NodeView::Element(e) => Tree::Element {
                name: e.name,
                attributes: e.attributes,
                namespace: e.namespace,
                children: trees_of(nodes, id, e.children),
            },
            NodeView::Text(t) => Tree::Text { content: t.content },
        }
    } else {
        Tree::Text { content: Seq::empty() }
    }
}

/// The trees rooted at the nodes `ids`, each of them a child of node `p`.
pub open spec fn trees_of(nodes: Seq<NodeView>, p: int, ids: Seq<usize>) -> Seq<Tree>
    decreases nodes.len() - p, ids.len(),
{
    if ids.len() == 0 {
        Seq::empty()
    } else {
        let last = ids.last() as int;
        trees_of(nodes, p, ids.drop_last()).push(
            if p < last < nodes.len() {
                tree_of(nodes, last)
            } else {
                Tree::Text { content: Seq::empty() }
            },
        )
    }
}

} // verus!
