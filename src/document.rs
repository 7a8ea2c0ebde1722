use vstd::prelude::*;

use crate::element::Element;
use crate::name::XmlVersion;
use crate::node::{ids_within, parent_of, Node, NodeView};

verus! {

/// The id of the root element in every document.
pub const ROOT: usize = 0;

/// What a document holds, as mathematical values.
pub struct DocumentView {
    pub version: Option<XmlVersion>,
    pub encoding: Option<Seq<char>>,
    pub nodes: Seq<NodeView>,
}

/// The children of node `i`: empty for a text node.
pub open spec fn children_of(nodes: Seq<NodeView>, i: int) -> Seq<usize> {
    match nodes[i] {
        NodeView::Element(e) => e.children,
        NodeView::Text(_) => Seq::empty(),
    }
}

/// The root is an element without container.
pub open spec fn root_ok(nodes: Seq<NodeView>) -> bool {
    &&& nodes.len() > 0
    &&& nodes[ROOT as int] is Element
    &&& parent_of(nodes[ROOT as int]) is None
}

/// Every node but the root refers back to an element of smaller id that lists
/// it among its children.
pub open spec fn parents_ok(nodes: Seq<NodeView>) -> bool {
    forall|i: int|
        #![trigger parent_of(nodes[i])]
        0 < i < nodes.len() ==> match parent_of(nodes[i]) {
            Some(p) => p < i && nodes[p as int] is Element && children_of(nodes, p as int).contains(
                i as usize,
            ),
            None => false,
        }
}

/// Every listed child has a larger id than its container and refers back to it.
pub open spec fn children_ok(nodes: Seq<NodeView>) -> bool {
    forall|i: int, k: int|
        #![trigger children_of(nodes, i)[k]]
        0 <= i < nodes.len() && 0 <= k < children_of(nodes, i).len() ==> {
            let c = children_of(nodes, i)[k];
            &&& i < c < nodes.len()
            &&& parent_of(nodes[c as int]) == Some(i as usize)
        }
}

/// Children are listed in increasing id order, the order in which they
/// were added.
pub open spec fn children_sorted(nodes: Seq<NodeView>) -> bool {
    forall|i: int, k1: int, k2: int|
        0 <= i < nodes.len() && 0 <= k1 < k2 < children_of(nodes, i).len() ==> #[trigger] children_of(
            nodes,
            i,
        )[k1] < #[trigger] children_of(nodes, i)[k2]
}

/// The nodes form a tree rooted at `ROOT`, each node listed by exactly the
/// element it refers back to, children in the order they were added.
pub open spec fn wf_nodes(nodes: Seq<NodeView>) -> bool {
    &&& root_ok(nodes)
    &&& parents_ok(nodes)
    &&& children_ok(nodes)
    &&& children_sorted(nodes)
}

/// A document: its declared version and encoding, and its nodes, the root
/// element at id `ROOT`.
#[derive(Debug)]
pub struct Document {
    pub version: Option<XmlVersion>,
    pub encoding: Option<String>,
    /// All nodes; a node's id is its position here.
    pub nodes: Vec<Node>,
}

impl View for Document {
    type V = DocumentView;

    open spec fn view(&self) -> DocumentView {
        DocumentView {
            version: self.version,
            encoding: match self.encoding {
                Some(s) => Some(s@),
                None => None,
            },
            nodes: self.nodes@.map_values(|n: Node| n@),
        }
    }
}

impl Document {
    /// The nodes form a tree rooted at `ROOT`.
    pub open spec fn wf(&self) -> bool {
        wf_nodes(self@.nodes)
    }

    /// The element that `id` names, if it names one.
    pub open spec fn element_spec(&self, id: Option<usize>) -> Option<&Element> {
        match id {
            Some(p) => if p < self.nodes@.len() && self.nodes@[p as int] is Element {
                Some(&self.nodes@[p as int]->Element_0)
            } else {
                None
            },
            None => None,
        }
    }

    /// In a well-formed document, the children of every node are nodes of it.
    pub proof fn lemma_children_within(&self, id: usize)
        requires
            self.wf(),
            id < self@.nodes.len(),
        ensures
            ids_within(self@.nodes, children_of(self@.nodes, id as int)),
    {
        assert forall|k: int| 0 <= k < children_of(self@.nodes, id as int).len() implies #[trigger] children_of(
            self@.nodes,
            id as int,
        )[k] < self@.nodes.len() by {}
    }

    /// The number of nodes.
    pub fn len(&self) -> (r: usize)
        ensures
            r == self@.nodes.len(),
    {
        self.nodes.len()
    }

    /// The root element.
    pub fn root(&self) -> (r: &Element)
        requires
            self.wf(),
        ensures
            Some(r) == self.element_spec(Some(ROOT)),
            ids_within(self@.nodes, r@.children),
    {
        proof {
            self.lemma_children_within(ROOT);
        }
        match &self.nodes[ROOT] {
            Node::Element(e) => e,
            Node::Text(_) => unreached(),
        }
    }

    /// The node with id `id`, if there is one.
    pub fn node(&self, id: usize) -> (r: Option<&Node>)
        ensures
            r == (if id < self.nodes@.len() {
                Some(&self.nodes@[id as int])
            } else {
                None
            }),
    {
        if id < self.nodes.len() {
            Some(&self.nodes[id])
        } else {
            None
        }
    }

    /// The element with id `id`, if `id` names an element.
    pub fn element(&self, id: usize) -> (r: Option<&Element>)
        ensures
            r == self.element_spec(Some(id)),
            self.wf() && r is Some ==> ids_within(self@.nodes, r->0@.children),
    {
        proof {
            if self.wf() && id < self@.nodes.len() {
                self.lemma_children_within(id);
            }
        }
        if id < self.nodes.len() {
            match &self.nodes[id] {
                Node::Element(e) => Some(e),
                Node::Text(_) => None,
            }
        } else {
            None
        }
    }
}

} // verus!
