use vstd::prelude::*;

verus! {

/// The version of the markup language that a document declares.
#[derive(Clone, Copy, Debug, PartialEq, Eq, Structural)]
pub enum XmlVersion {
    Version10,
    Version11,
}

/// The text under which a version is declared: `1.0` or `1.1`.
pub open spec fn version_text(v: XmlVersion) -> Seq<char> {
    match v {
        XmlVersion::Version10 => seq!['1', '.', '0'],
        XmlVersion::Version11 => seq!['1', '.', '1'],
    }
}

impl XmlVersion {
    /// The version as it is written in a declaration.
    pub fn as_str(&self) -> (r: &'static str)
        ensures
            r@ == version_text(*self),
    {
        match self {
            XmlVersion::Version10 => {
                proof {
                    reveal_strlit("1.0");
                }
                "1.0"
            },
            XmlVersion::Version11 => {
                proof {
                    reveal_strlit("1.1");
                }
                "1.1"
            },
        }
    }
}

/// A qualified name: a local name with an optional namespace URI and prefix.
#[derive(Clone, Debug, PartialEq, Eq)]
pub struct Name {
    /// The unqualified part, `string` in `xsi:string`.
    pub local_name: String,
    /// The namespace URI the prefix resolves to, if any.
    pub namespace: Option<String>,
    /// The prefix, `xsi` in `xsi:string`.
    pub prefix: Option<String>,
}

impl Name {
    /// A name without namespace and prefix.
    pub fn local(local_name: &str) -> (r: Name)
        ensures
            r.local_name@ == local_name@,
            r.namespace is None,
            r.prefix is None,
    {
        Name { local_name: local_name.to_owned(), namespace: None, prefix: None }
    }
}

/// An attribute of an element, as the event source reported it.
#[derive(Clone, Debug, PartialEq, Eq)]
pub struct Attribute {
    pub name: Name,
    pub value: String,
}

/// The namespace mappings in scope at an element: pairs of prefix and URI.
/// The empty prefix stands for the default namespace.
#[derive(Clone, Debug, PartialEq, Eq)]
pub struct Namespace {
    pub mappings: Vec<(String, String)>,
}

impl Namespace {
    /// A scope without any mapping.
    pub fn empty() -> (r: Namespace)
        ensures
            r.mappings@.len() == 0,
    {
        Namespace { mappings: Vec::new() }
    }
}

} // verus!
