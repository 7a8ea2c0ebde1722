use vstd::prelude::*;

use crate::document::Document;
use crate::name::{Attribute, Name, Namespace};
use crate::node::{element_ids, ids_within, named_ids, text_concat, text_items, Node};
use crate::text::TextIterator;
use vstd::string::StringExecFns;

verus! {

/// What an element holds, as mathematical values.
pub struct ElementView {
    pub parent: Option<usize>,
    pub name: Name,
    pub attributes: Seq<Attribute>,
    pub namespace: Namespace,
    pub children: Seq<usize>,
}

/// An element of the tree. Nodes refer to each other by id: the position of
/// the node in its document.
#[derive(Debug)]
pub struct Element {
    /// The id of the containing element; `None` for the root.
    pub parent: Option<usize>,
    pub name: Name,
    /// The attributes in source order, duplicates kept.
    pub attributes: Vec<Attribute>,
    /// The namespace mappings in scope at this element.
    pub namespace: Namespace,
    /// The ids of the child nodes, in document order.
    pub children: Vec<usize>,
}

impl View for Element {
    type V = ElementView;

    open spec fn view(&self) -> ElementView {
        ElementView {
            parent: self.parent,
            name: self.name,
            attributes: self.attributes@,
            namespace: self.namespace,
            children: self.children@,
        }
    }
}

impl Element {
    /// An element without children inside the element with id `parent`.
    pub fn new(parent: usize, name: Name, attributes: Vec<Attribute>, namespace: Namespace) -> (r:
        Element)
        ensures
            r@ == (ElementView {
                parent: Some(parent),
                name,
                attributes: attributes@,
                namespace,
                children: Seq::empty(),
            }),
    {
        Element { parent: Some(parent), name, attributes, namespace, children: Vec::new() }
    }

    /// An element without children and without container.
    pub fn new_root(name: Name, attributes: Vec<Attribute>, namespace: Namespace) -> (r: Element)
        ensures
            r@ == (ElementView {
                parent: None,
                name,
                attributes: attributes@,
                namespace,
                children: Seq::empty(),
            }),
    {
        Element { parent: None, name, attributes, namespace, children: Vec::new() }
    }

    /// Appends the node with id `child` to the children.
    pub fn add_child(&mut self, child: usize)
        ensures
            final(self)@ == (ElementView { children: old(self)@.children.push(child), ..old(self)@ }),
    {
        self.children.push(child);
    }

    /// The number of child nodes, elements and text together.
    pub fn len(&self) -> (r: usize)
        ensures
            r == self@.children.len(),
    {
        self.children.len()
    }

    /// The ids of the child nodes, in order.
    pub fn iter(&self) -> (r: &[usize])
        ensures
            r@ == self@.children,
    {
        self.children.as_slice()
    }

    /// The child elements whose local name is `name`, in order. Namespaces
    /// are not looked at.
    pub fn find(&self, doc: &Document, name: &str) -> (r: Vec<usize>)
        requires
            ids_within(doc@.nodes, self@.children),
        ensures
            r@ == named_ids(doc@.nodes, self@.children, name@),
    {
        let wanted = name.to_owned();
        let mut found: Vec<usize> = Vec::new();
        let n = self.children.len();
        let mut i: usize = 0;
        assert(self@.children.subrange(0, n as int) =~= self@.children);
        assert(found@ + named_ids(doc@.nodes, self@.children, name@) =~= named_ids(
            doc@.nodes,
            self@.children,
            name@,
        ));
        while i < n
            invariant
                n == self@.children.len(),
                i <= n,
                ids_within(doc@.nodes, self@.children),
                wanted@ == name@,
                named_ids(doc@.nodes, self@.children, name@) == found@ + named_ids(
                    doc@.nodes,
                    self@.children.subrange(i as int, n as int),
                    name@,
                ),
            decreases n - i,
        {
            let id = self.children[i];
            let ghost rest = self@.children.subrange(i as int, n as int);
            let ghost before = found@;
            assert(rest.drop_first() =~= self@.children.subrange(i + 1, n as int));
            if let Node::Element(e) = &doc.nodes[id] {
                if e.name.local_name == wanted {
                    found.push(id);
                }
            }
            assert(before + named_ids(doc@.nodes, rest, name@) =~= found@ + named_ids(
                doc@.nodes,
                rest.drop_first(),
                name@,
            ));
            i = i + 1;
        }
        assert(self@.children.subrange(n as int, n as int) =~= Seq::<usize>::empty());
        assert(found@ + Seq::<usize>::empty() =~= found@);
        found
    }

    /// The contents of the direct text children, concatenated in order.
    /// The text inside child elements is not included.
    pub fn text(&self, doc: &Document) -> (r: String)
        requires
            ids_within(doc@.nodes, self@.children),
        ensures
            r@ == text_concat(doc@.nodes, self@.children),
    {
        let mut buf = String::new();
        let n = self.children.len();
        let mut i: usize = 0;
        assert(self@.children.subrange(0, n as int) =~= self@.children);
        assert(buf@ + text_concat(doc@.nodes, self@.children) =~= text_concat(
            doc@.nodes,
            self@.children,
        ));
        while i < n
            invariant
                n == self@.children.len(),
                i <= n,
                ids_within(doc@.nodes, self@.children),
                text_concat(doc@.nodes, self@.children) == buf@ + text_concat(
                    doc@.nodes,
                    self@.children.subrange(i as int, n as int),
                ),
            decreases n - i,
        {
            let id = self.children[i];
            let ghost rest = self@.children.subrange(i as int, n as int);
            let ghost before = buf@;
            assert(rest.drop_first() =~= self@.children.subrange(i + 1, n as int));
            if let Node::Text(t) = &doc.nodes[id] {
                buf.append(t.content.as_str());
            }
            assert(before + text_concat(doc@.nodes, rest) =~= buf@ + text_concat(
                doc@.nodes,
                rest.drop_first(),
            ));
            i = i + 1;
        }
        assert(self@.children.subrange(n as int, n as int) =~= Seq::<usize>::empty());
        assert(buf@ + Seq::<char>::empty() =~= buf@);
        buf
    }

    /// Yields the ids of the child elements, in order.
    pub fn iter_elements<'a>(&'a self, doc: &'a Document) -> (r: ElementIterator<'a>)
        requires
            ids_within(doc@.nodes, self@.children),
        ensures
            r.wf(),
            r.remaining() == element_ids(doc@.nodes, self@.children),
    {
        ElementIterator::new(doc, self.children.as_slice())
    }

    /// Yields the contents of the child text nodes, in order.
    pub fn iter_text<'a>(&'a self, doc: &'a Document) -> (r: TextIterator<'a>)
        requires
            ids_within(doc@.nodes, self@.children),
        ensures
            r.wf(),
            r.remaining() == text_items(doc@.nodes, self@.children),
    {
        TextIterator::new(doc, self.children.as_slice())
    }

    /// The containing element, looked up in `doc`; nothing for the root.
    pub fn get_parent<'a>(&self, doc: &'a Document) -> (r: Option<&'a Element>)
        ensures
            r == doc.element_spec(self.parent),
    {
        match self.parent {
            Some(p) => doc.element(p),
            None => None,
        }
    }
}

/// Yields, in order, the ids of the element nodes among a list of ids.
pub struct ElementIterator<'a> {
    doc: &'a Document,
    ids: &'a [usize],
    pos: usize,
}

impl<'a> ElementIterator<'a> {
    /// The ids still to come.
    pub closed spec fn remaining(&self) -> Seq<usize> {
        element_ids(self.doc@.nodes, self.ids@.subrange(self.pos as int, self.ids@.len() as int))
    }

    pub closed spec fn wf(&self) -> bool {
        &&& self.pos <= self.ids@.len()
        &&& ids_within(self.doc@.nodes, self.ids@)
    }

    pub fn new(doc: &'a Document, ids: &'a [usize]) -> (r: ElementIterator<'a>)
        requires
            ids_within(doc@.nodes, ids@),
        ensures
            r.wf(),
            r.remaining() == element_ids(doc@.nodes, ids@),
    {
        let r = ElementIterator { doc, ids, pos: 0 };
        assert(ids@.subrange(0, ids@.len() as int) =~= ids@);
        r
    }

    /// The next id, or nothing once all have been yielded.
    pub fn next(&mut self) -> (r: Option<usize>)
        requires
            old(self).wf(),
        ensures
            final(self).wf(),
            match r {
                None => old(self).remaining().len() == 0 && final(self).remaining().len() == 0,
                Some(id) => old(self).remaining().len() > 0 && id == old(self).remaining()[0]
                    && final(self).remaining() == old(self).remaining().drop_first(),
            },
    {
        while self.pos < self.ids.len()
            invariant
                self.wf(),
                self.doc == old(self).doc,
                self.ids == old(self).ids,
                self.remaining() == old(self).remaining(),
            decreases self.ids@.len() - self.pos,
        {
            let id = self.ids[self.pos];
            let ghost rest = self.ids@.subrange(self.pos as int, self.ids@.len() as int);
            assert(rest.drop_first() =~= self.ids@.subrange(self.pos + 1, self.ids@.len() as int));
            self.pos = self.pos + 1;
            if let Node::Element(_) = &self.doc.nodes[id] {
                return Some(id);
            }
        }
        None
    }
}

} // verus!
