use vstd::prelude::*;

use crate::name::{Attribute, Name, Namespace, XmlVersion};

verus! {

/// One event of the stream that describes a document as it is scanned.
#[derive(Debug)]
pub enum Event {
    /// The declaration: version and encoding, where declared.
    StartDocument { version: Option<XmlVersion>, encoding: Option<String> },
    /// An element opens.
    StartElement { name: Name, attributes: Vec<Attribute>, namespace: Namespace },
    /// An element closes; the name is not used to build the tree.
    EndElement { name: Name },
    /// Character data.
    Characters(String),
    /// A literal text block; it is treated as character data.
    CData(String),
    /// The event source failed.
    Error(xml::reader::Error),
    /// Anything else: the end of the document, comments, processing
    /// instructions, whitespace. It does not change the tree.
    Other,
}

/// What an event holds, as mathematical values.
pub enum EventView {
    StartDocument { version: Option<XmlVersion>, encoding: Option<Seq<char>> },
    StartElement { name: Name, attributes: Seq<Attribute>, namespace: Namespace },
    EndElement { name: Name },
    Characters(Seq<char>),
    CData(Seq<char>),
    Error(xml::reader::Error),
    Other,
}

impl View for Event {
    type V = EventView;

    open spec fn view(&self) -> EventView {
        match self {
            Event::StartDocument { version, encoding } => EventView::StartDocument {
                version: *version,
                encoding: match encoding {
                    Some(x) => Some(x@),
                    None => None,
                },
            },
            Event::StartElement { name, attributes, namespace } => EventView::StartElement {
                name: *name,
                attributes: attributes@,
                namespace: *namespace,
            },
            Event::EndElement { name } => EventView::EndElement { name: *name },
            Event::Characters(c) => EventView::Characters(c@),
            Event::CData(c) => EventView::CData(c@),
            Event::Error(err) => EventView::Error(*err),
            Event::Other => EventView::Other,
        }
    }
}

} // verus!
