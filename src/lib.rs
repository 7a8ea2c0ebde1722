//! Builds an in-memory tree out of a stream of markup parsing events and
//! offers read access to it: child lookup by name, text extraction,
//! filtered traversal and textual rendering.

pub mod builder;
pub mod document;
pub mod element;
pub mod error;
pub mod event;
pub mod format;
pub mod laws;
pub mod name;
pub mod node;
pub mod text;
pub mod tree;
pub mod util;

pub use builder::{build, Builder, Phase};
pub use document::{Document, ROOT};
pub use element::{Element, ElementIterator};
pub use error::BuildError;
pub use event::{Event, EventView};
pub use name::{Attribute, Name, Namespace, XmlVersion};
pub use node::Node;
pub use text::{Text, TextIterator};
pub use util::padding;
