use vstd::prelude::*;

use crate::document::Document;
use crate::element::Element;
use crate::node::{ids_within, text_items, Node};

verus! {

/// What a text node holds, as mathematical values.
pub struct TextView {
    pub parent: usize,
    pub content: Seq<char>,
}

/// A run of character data inside an element.
#[derive(Debug)]
pub struct Text {
    /// The id of the containing element.
    pub parent: usize,
    /// The characters.
    pub content: String,
}

impl View for Text {
    type V = TextView;

    open spec fn view(&self) -> TextView {
        TextView { parent: self.parent, content: self.content@ }
    }
}

impl Text {
    pub fn new(parent: usize, content: String) -> (r: Text)
        ensures
            r.parent == parent,
            r.content == content,
    {
        Text { parent, content }
    }

    /// The containing element, looked up in `doc`.
    pub fn get_parent<'a>(&self, doc: &'a Document) -> (r: Option<&'a Element>)
        ensures
            r == doc.element_spec(Some(self.parent)),
    {
        doc.element(self.parent)
    }
}

/// Yields, in order, the contents of the text nodes among a list of ids.
pub struct TextIterator<'a> {
    doc: &'a Document,
    ids: &'a [usize],
    pos: usize,
}

impl<'a> TextIterator<'a> {
    /// The contents still to come.
    pub closed spec fn remaining(&self) -> Seq<Seq<char>> {
        text_items(self.doc@.nodes, self.ids@.subrange(self.pos as int, self.ids@.len() as int))
    }

    pub closed spec fn wf(&self) -> bool {
        &&& self.pos <= self.ids@.len()
        &&& ids_within(self.doc@.nodes, self.ids@)
    }

    pub fn new(doc: &'a Document, ids: &'a [usize]) -> (r: TextIterator<'a>)
        requires
            ids_within(doc@.nodes, ids@),
        ensures
            r.wf(),
            r.remaining() == text_items(doc@.nodes, ids@),
    {
        let r = TextIterator { doc, ids, pos: 0 };
        assert(ids@.subrange(0, ids@.len() as int) =~= ids@);
        r
    }

    /// The next content, or nothing once all have been yielded.
    pub fn next(&mut self) -> (r: Option<String>)
        requires
            old(self).wf(),
        ensures
            final(self).wf(),
            match r {
                None => old(self).remaining().len() == 0 && final(self).remaining().len() == 0,
                Some(s) => old(self).remaining().len() > 0 && s@ == old(self).remaining()[0]
                    && final(self).remaining() == old(self).remaining().drop_first(),
            },
    {
        while self.pos < self.ids.len()
            invariant
                self.wf(),
                self.doc == old(self).doc,
                self.ids == old(self).ids,
                self.remaining() == old(self).remaining(),
            decreases self.ids@.len() - self.pos,
        {
            let id = self.ids[self.pos];
            let ghost rest = self.ids@.subrange(self.pos as int, self.ids@.len() as int);
            assert(rest.drop_first() =~= self.ids@.subrange(self.pos + 1, self.ids@.len() as int));
            self.pos = self.pos + 1;
            if let Node::Text(t) = &self.doc.nodes[id] {
                return Some(t.content.clone());
            }
        }
        None
    }
}

} // verus!
