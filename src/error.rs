use vstd::prelude::*;

verus! {

/// The error that the event source reports for malformed input, an encoding
/// problem or a failed read.
#[verifier::external_type_specification]
#[verifier::external_body]
pub struct ExParserError(xml::reader::Error);

/// Why a document could not be built.
#[derive(Debug)]
pub enum BuildError {
    /// The events ended before any element started: the document has no root.
    UndefinedRoot,
    /// The event source reported an error; it is kept as it came.
    ParserError(xml::reader::Error),
    /// The events contradict the builder's own state: an end or a text
    /// before any element started. A conforming event source never does this.
    Unreachable,
}

impl From<xml::reader::Error> for BuildError {
    fn from(err: xml::reader::Error) -> (r: BuildError)
        ensures
            r == BuildError::ParserError(err),
    {
        BuildError::ParserError(err)
    }
}

impl vstd::std_specs::convert::FromSpecImpl<xml::reader::Error> for BuildError {
    open spec fn obeys_from_spec() -> bool {
        true
    }

    open spec fn from_spec(err: xml::reader::Error) -> BuildError {
        BuildError::ParserError(err)
    }
}

/// Relies on the `Display` impl of `xml::reader::Error` (through `to_string`)
/// to describe the error. That text starts with the error's position
/// (`row:column `), so it is never empty; the rest may come from the
/// operating system and is not stated.
#[verifier::external_body]
fn parser_error_text(err: &xml::reader::Error) -> (r: String)
    ensures
        r@.len() > 0,
{
    err.to_string()
}

impl BuildError {
    /// A description of the error for people to read, where `inner` is the
    /// text of the event source's own error: a parser error is shown as that
    /// text, forwarded as it is.
    pub fn message_with(&self, inner: String) -> (r: String)
        ensures
            self is UndefinedRoot ==> r@ == "Undefined root element."@,
            self is Unreachable ==> r@ == "Inconsistent event sequence."@,
            self is ParserError ==> r@ == inner@,
    {
        match self {
            BuildError::UndefinedRoot => "Undefined root element.".to_owned(),
            BuildError::ParserError(_) => inner,
            BuildError::Unreachable => "Inconsistent event sequence.".to_owned(),
        }
    }

    /// A description of the error for people to read; a parser error is
    /// shown as the event source's own text for it.
    pub fn message(&self) -> (r: String)
        ensures
            self is UndefinedRoot ==> r@ == "Undefined root element."@,
            self is Unreachable ==> r@ == "Inconsistent event sequence."@,
            self is ParserError ==> r@.len() > 0,
    {
        match self {
            BuildError::ParserError(err) => self.message_with(parser_error_text(err)),
            _ => self.message_with(String::new()),
        }
    }
}

} // verus!
