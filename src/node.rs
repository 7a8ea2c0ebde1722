use vstd::prelude::*;

use crate::document::Document;
use crate::element::{Element, ElementView};
use crate::text::{Text, TextView};

verus! {

/// What a node of the tree holds, as mathematical values.
pub enum NodeView {
    Element(ElementView),
    Text(TextView),
}

/// The container that a node refers back to; `None` only for a root element.
pub open spec fn parent_of(n: NodeView) -> Option<usize> {
    match n {
        NodeView::Element(e) => e.parent,
        NodeView::Text(t) => Some(t.parent),
    }
}

/// Every id in `ids` names a node of `nodes`.
pub open spec fn ids_within(nodes: Seq<NodeView>, ids: Seq<usize>) -> bool {
    forall|k: int| 0 <= k < ids.len() ==> #[trigger] ids[k] < nodes.len()
}

/// The ids among `ids` that name element nodes, in order.
pub open spec fn element_ids(nodes: Seq<NodeView>, ids: Seq<usize>) -> Seq<usize>
    decreases ids.len(),
{
    if ids.len() == 0 {
        Seq::empty()
    } else {
        let rest = element_ids(nodes, ids.drop_first());
        if nodes[ids[0] as int] is Element {
            seq![ids[0]] + rest
        } else {
            rest
        }
    }
}

/// The ids among `ids` that name elements whose local name is `name`, in order.
pub open spec fn named_ids(nodes: Seq<NodeView>, ids: Seq<usize>, name: Seq<char>) -> Seq<usize>
    decreases ids.len(),
{
    if ids.len() == 0 {
        Seq::empty()
    } else {
        let rest = named_ids(nodes, ids.drop_first(), name);
        let n = nodes[ids[0] as int];
        if n is Element && n->Element_0.name.local_name@ == name {
            seq![ids[0]] + rest
        } else {
            rest
        }
    }
}

/// The contents of the text nodes among `ids`, in order.
pub open spec fn text_items(nodes: Seq<NodeView>, ids: Seq<usize>) -> Seq<Seq<char>>
    decreases ids.len(),
{
    if ids.len() == 0 {
        Seq::empty()
    } else {
        let rest = text_items(nodes, ids.drop_first());
        let n = nodes[ids[0] as int];
        if n is Text {
            seq![n->Text_0.content] + rest
        } else {
            rest
        }
    }
}

/// The contents of the text nodes among `ids`, concatenated in order.
pub open spec fn text_concat(nodes: Seq<NodeView>, ids: Seq<usize>) -> Seq<char>
    decreases ids.len(),
{
    if ids.len() == 0 {
        Seq::empty()
    } else {
        let rest = text_concat(nodes, ids.drop_first());
        let n = nodes[ids[0] as int];
        if n is Text {
            n->Text_0.content + rest
        } else {
            rest
        }
    }
}

/// A node of the tree: an element or a run of text.
#[derive(Debug)]
pub enum Node {
    Element(Element),
    Text(Text),
}

impl View for Node {
    type V = NodeView;

    open spec fn view(&self) -> NodeView {
        match self {
            Node::Element(e) => NodeView::Element(e@),
            Node::Text(t) => NodeView::Text(t@),
        }
    }
}

impl Node {
    /// The id of the container this node refers back to.
    pub fn parent_id(&self) -> (r: Option<usize>)
        ensures
            r == parent_of(self@),
    {
        match self {
            Node::Element(e) => e.parent,
            Node::Text(t) => Some(t.parent),
        }
    }

    /// The element this node refers back to, looked up in `doc`: nothing
    /// for the root, or where the reference does not lead to an element.
    pub fn get_parent<'a>(&self, doc: &'a Document) -> (r: Option<&'a Element>)
        ensures
            r == doc.element_spec(parent_of(self@)),
    {
        match self {
            Node::Element(e) => e.get_parent(doc),
            Node::Text(t) => t.get_parent(doc),
        }
    }
}

} // verus!
