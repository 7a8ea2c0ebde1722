use vstd::prelude::*;
use vstd::string::StringExecFns;

use crate::document::{children_of, Document, ROOT};
use crate::element::{Element, ElementView};
use crate::name::{version_text, XmlVersion};
use crate::node::{ids_within, Node, NodeView};
use crate::text::Text;
use crate::tree::Tree;
use crate::util::{padding, spaces};

verus! {

broadcast use vstd::seq::group_seq_axioms;

/// `<name>` or, when `closing`, `</name>`.
pub open spec fn tag(name: Seq<char>, closing: bool) -> Seq<char> {
    (if closing {
        seq!['<', '/']
    } else {
        seq!['<']
    }) + name + seq!['>']
}

/// The pretty form of node `id`: an element as its opening tag line, its
/// children one level deeper, its closing tag line; a text as its content on
/// a line. Each line starts with `indent * inc` spaces.
pub open spec fn pretty_node(nodes: Seq<NodeView>, id: int, indent: nat, inc: nat) -> Seq<char>
    decreases nodes.len() - id, children_of(nodes, id).len() + 1,
{
    if 0 <= id < nodes.len() {
        let pad = spaces(indent * inc);
        match nodes[id] {
            NodeView::Element(e) => pad + tag(e.name.local_name@, false) + seq!['\n'] + pretty_seq(
                nodes,
                id,
                e.children,
                indent + 1,
                inc,
            ) + pad + tag(e.name.local_name@, true) + seq!['\n'],
            NodeView::Text(t) => pad + t.content + seq!['\n'],
        }
    } else {
        Seq::empty()
    }
}

/// The pretty forms of the nodes `ids` in order, each of them a child of
/// node `p`.
pub open spec fn pretty_seq(nodes: Seq<NodeView>, p: int, ids: Seq<usize>, indent: nat, inc: nat) -> Seq<
    char,
>
    decreases nodes.len() - p, ids.len(),
{
    if ids.len() == 0 {
        Seq::empty()
    } else {
        let last = ids.last() as int;
        pretty_seq(nodes, p, ids.drop_last(), indent, inc) + if p < last < nodes.len() {
            pretty_node(nodes, last, indent, inc)
        } else {
            Seq::empty()
        }
    }
}

/// The pretty form of a tree, laid out as that of a node.
pub open spec fn pretty_tree(t: Tree, indent: nat, inc: nat) -> Seq<char>
    decreases t,
{
    let pad = spaces(indent * inc);
    match t {
        Tree::Element { name, children, .. } => pad + tag(name.local_name@, false) + seq!['\n']
            + pretty_forest(children, indent + 1, inc) + pad + tag(name.local_name@, true) + seq!['\n'],
        Tree::Text { content } => pad + content + seq!['\n'],
    }
}

/// The pretty forms of the trees `ts`, one after the other.
pub open spec fn pretty_forest(ts: Seq<Tree>, indent: nat, inc: nat) -> Seq<char>
    decreases ts,
{
    if ts.len() == 0 {
        Seq::empty()
    } else {
        pretty_forest(ts.drop_last(), indent, inc) + pretty_tree(ts.last(), indent, inc)
    }
}

/// The compact form of node `id`: an element as its opening tag, its
/// children, its closing tag; a text as its content; nothing in between.
pub open spec fn compact_node(nodes: Seq<NodeView>, id: int) -> Seq<char>
    decreases nodes.len() - id, children_of(nodes, id).len() + 1,
{
    if 0 <= id < nodes.len() {
        match nodes[id] {
            NodeView::Element(e) => tag(e.name.local_name@, false) + compact_seq(nodes, id, e.children)
                + tag(e.name.local_name@, true),
            NodeView::Text(t) => t.content,
        }
    } else {
        Seq::empty()
    }
}

/// The compact forms of the nodes `ids` in order, each of them a child of
/// node `p`.
pub open spec fn compact_seq(nodes: Seq<NodeView>, p: int, ids: Seq<usize>) -> Seq<char>
    decreases nodes.len() - p, ids.len(),
{
    if ids.len() == 0 {
        Seq::empty()
    } else {
        let last = ids.last() as int;
        compact_seq(nodes, p, ids.drop_last()) + if p < last < nodes.len() {
            compact_node(nodes, last)
        } else {
            Seq::empty()
        }
    }
}

/// The declaration line: empty where neither version nor encoding is known,
/// else `<?xml version="..." encoding="..."?>` with the known parts.
pub open spec fn header_text(version: Option<XmlVersion>, encoding: Option<Seq<char>>) -> Seq<char> {
    if version is None && encoding is None {
        Seq::empty()
    } else {
        seq!['<', '?', 'x', 'm', 'l'] + match version {
            Some(v) => seq![' ', 'v', 'e', 'r', 's', 'i', 'o', 'n', '=', '"'] + version_text(v) + seq!['"'],
            None => Seq::empty(),
        } + match encoding {
            Some(e) => seq![' ', 'e', 'n', 'c', 'o', 'd', 'i', 'n', 'g', '=', '"'] + e + seq!['"'],
            None => Seq::empty(),
        } + seq!['?', '>']
    }
}

/// The pretty forms of the nodes `ids`, in order.
pub open spec fn pretty_children(nodes: Seq<NodeView>, ids: Seq<usize>, indent: nat, inc: nat) -> Seq<
    char,
>
    decreases ids.len(),
{
    if ids.len() == 0 {
        Seq::empty()
    } else {
        pretty_children(nodes, ids.drop_last(), indent, inc) + pretty_node(
            nodes,
            ids.last() as int,
            indent,
            inc,
        )
    }
}

/// The compact forms of the nodes `ids`, in order.
pub open spec fn compact_children(nodes: Seq<NodeView>, ids: Seq<usize>) -> Seq<char>
    decreases ids.len(),
{
    if ids.len() == 0 {
        Seq::empty()
    } else {
        compact_children(nodes, ids.drop_last()) + compact_node(nodes, ids.last() as int)
    }
}

/// The pretty form of an element `e` whose children are nodes of `nodes`.
pub open spec fn pretty_element(nodes: Seq<NodeView>, e: ElementView, indent: nat, inc: nat) -> Seq<
    char,
> {
    let pad = spaces(indent * inc);
    pad + tag(e.name.local_name@, false) + seq!['\n'] + pretty_children(nodes, e.children, indent + 1, inc)
        + pad + tag(e.name.local_name@, true) + seq!['\n']
}

/// The compact form of an element `e` whose children are nodes of `nodes`.
pub open spec fn compact_element(nodes: Seq<NodeView>, e: ElementView) -> Seq<char> {
    tag(e.name.local_name@, false) + compact_children(nodes, e.children) + tag(e.name.local_name@, true)
}

/// The pretty form of a text node: its content on a line of its own.
pub open spec fn pretty_text(content: Seq<char>, indent: nat, inc: nat) -> Seq<char> {
    spaces(indent * inc) + content + seq!['\n']
}

/// The pretty form of a node whose children are nodes of `nodes`.
pub open spec fn pretty_of(nodes: Seq<NodeView>, n: NodeView, indent: nat, inc: nat) -> Seq<char> {
    match n {
        NodeView::Element(e) => pretty_element(nodes, e, indent, inc),
        NodeView::Text(t) => pretty_text(t.content, indent, inc),
    }
}

/// The compact form of a node whose children are nodes of `nodes`.
pub open spec fn compact_of(nodes: Seq<NodeView>, n: NodeView) -> Seq<char> {
    match n {
        NodeView::Element(e) => compact_element(nodes, e),
        NodeView::Text(t) => t.content,
    }
}

/// Appends `<name>` or `</name>` to `out`.
fn push_tag(out: &mut String, name: &String, closing: bool)
    ensures
        final(out)@ == old(out)@ + tag(name@, closing),
{
    if closing {
        out.append("</");
        proof {
            reveal_strlit("</");
        }
    } else {
        out.append("<");
        proof {
            reveal_strlit("<");
        }
    }
    out.append(name.as_str());
    out.append(">");
    proof {
        reveal_strlit(">");
    }
    assert(out@ =~= old(out)@ + tag(name@, closing));
}

/// Appends a line break to `out`.
fn push_newline(out: &mut String)
    ensures
        final(out)@ == old(out)@ + seq!['\n'],
{
    out.append("\n");
    proof {
        reveal_strlit("\n");
    }
}

impl Document {
    /// The declaration line, where a version or an encoding is known.
    pub fn header(&self) -> (r: String)
        ensures
            r@ == header_text(self@.version, self@.encoding),
    {
        let mut out = String::new();
        if self.version.is_some() || self.encoding.is_some() {
            out.append("<?xml");
            proof {
                reveal_strlit("<?xml");
            }
            if let Some(v) = &self.version {
                out.append(" version=\"");
                out.append(v.as_str());
                out.append("\"");
                proof {
                    reveal_strlit(" version=\"");
                    reveal_strlit("\"");
                }
            }
            if let Some(e) = &self.encoding {
                out.append(" encoding=\"");
                out.append(e.as_str());
                out.append("\"");
                proof {
                    reveal_strlit(" encoding=\"");
                    reveal_strlit("\"");
                }
            }
            out.append("?>");
            proof {
                reveal_strlit("?>");
            }
        }
        assert(out@ =~= header_text(self@.version, self@.encoding));
        out
    }

    /// The declaration line followed by the compact form of the root.
    pub fn to_compact_string(&self) -> (r: String)
        requires
            self.wf(),
        ensures
            r@ == header_text(self@.version, self@.encoding) + compact_node(self@.nodes, ROOT as int),
    {
        let mut out = self.header();
        self.write_compact(ROOT, &mut out);
        out
    }

    /// The declaration line, a line break, then the pretty form of the root,
    /// indented by two spaces per level.
    pub fn to_pretty_string(&self) -> (r: String)
        requires
            self.wf(),
            2 * (self@.nodes.len() + 1) <= usize::MAX,
        ensures
            r@ == header_text(self@.version, self@.encoding) + seq!['\n'] + pretty_node(
                self@.nodes,
                ROOT as int,
                0,
                2,
            ),
    {
        let mut out = self.header();
        push_newline(&mut out);
        self.write_pretty(ROOT, &mut out, 0, 2);
        out
    }

    /// Appends the pretty form of node `id` to `out`.
    fn write_pretty(&self, id: usize, out: &mut String, indent: usize, inc: usize)
        requires
            self.wf(),
            id < self@.nodes.len(),
            indent + (self@.nodes.len() - id) <= usize::MAX,
            (indent + (self@.nodes.len() - id)) * inc <= usize::MAX,
        ensures
            final(out)@ == old(out)@ + pretty_node(self@.nodes, id as int, indent as nat, inc as nat),
        decreases self@.nodes.len() - id,
    {
        let ghost nodes = self@.nodes;
        let ghost len = nodes.len();
        proof {
            assert(indent * inc <= (indent + (len - id)) * inc) by (nonlinear_arith)
                requires
                    id < len,
            ;
        }
        match &self.nodes[id] {
            Node::Text(t) => {
                t.format_pretty(out, indent, inc);
            },
            Node::Element(e) => {
                let ghost start = out@;
                let pad = padding(indent, inc);
                out.append(pad.as_str());
                push_tag(out, &e.name.local_name, false);
                push_newline(out);
                let ghost mid = out@;
                let n = e.children.len();
                assert(e.children@.take(0) =~= Seq::<usize>::empty());
                for k in 0..n
                    invariant
                        self.wf(),
                        nodes == self@.nodes,
                        len == nodes.len(),
                        id < len,
                        nodes[id as int] == NodeView::Element(e@),
                        n == e.children@.len(),
                        indent + (len - id) <= usize::MAX,
                        (indent + (len - id)) * inc <= usize::MAX,
                        out@ == mid + pretty_seq(
                            nodes,
                            id as int,
                            e.children@.take(k as int),
                            (indent + 1) as nat,
                            inc as nat,
                        ),
                {
                    let c = e.children[k];
                    assert(children_of(nodes, id as int)[k as int] == c);
                    assert(id < c < len);
                    proof {
                        assert((indent + 1 + (len - c)) * inc <= (indent + (len - id)) * inc)
                            by (nonlinear_arith)
                            requires
                                id < c,
                        ;
                    }
                    self.write_pretty(c, out, indent + 1, inc);
                    assert(e.children@.take(k + 1).drop_last() =~= e.children@.take(k as int));
                    assert(out@ =~= mid + pretty_seq(
                        nodes,
                        id as int,
                        e.children@.take(k + 1),
                        (indent + 1) as nat,
                        inc as nat,
                    ));
                }
                assert(e.children@.take(n as int) =~= e.children@);
                out.append(pad.as_str());
                push_tag(out, &e.name.local_name, true);
                push_newline(out);
                assert(out@ =~= start + pretty_node(nodes, id as int, indent as nat, inc as nat));
            },
        }
    }

    /// Appends the compact form of node `id` to `out`.
    fn write_compact(&self, id: usize, out: &mut String)
        requires
            self.wf(),
            id < self@.nodes.len(),
        ensures
            final(out)@ == old(out)@ + compact_node(self@.nodes, id as int),
        decreases self@.nodes.len() - id,
    {
        let ghost nodes = self@.nodes;
        let ghost len = nodes.len();
        match &self.nodes[id] {
            Node::Text(t) => {
                t.format_compact(out);
            },
            Node::Element(e) => {
                let ghost start = out@;
                push_tag(out, &e.name.local_name, false);
                let ghost mid = out@;
                let n = e.children.len();
                assert(e.children@.take(0) =~= Seq::<usize>::empty());
                for k in 0..n
                    invariant
                        self.wf(),
                        nodes == self@.nodes,
                        len == nodes.len(),
                        id < len,
                        nodes[id as int] == NodeView::Element(e@),
                        n == e.children@.len(),
                        out@ == mid + compact_seq(nodes, id as int, e.children@.take(k as int)),
                {
                    let c = e.children[k];
                    assert(children_of(nodes, id as int)[k as int] == c);
                    assert(id < c < len);
                    self.write_compact(c, out);
                    assert(e.children@.take(k + 1).drop_last() =~= e.children@.take(k as int));
                    assert(out@ =~= mid + compact_seq(nodes, id as int, e.children@.take(k + 1)));
                }
                assert(e.children@.take(n as int) =~= e.children@);
                push_tag(out, &e.name.local_name, true);
                assert(out@ =~= start + compact_node(nodes, id as int));
            },
        }
    }
}

impl Element {
    /// Appends the pretty form of this element to `out`: its opening tag
    /// line `indent * inc` spaces in, its children one level deeper, its
    /// closing tag line. Attributes and namespaces are not rendered.
    pub fn format_pretty(&self, doc: &Document, out: &mut String, indent: usize, inc: usize)
        requires
            doc.wf(),
            ids_within(doc@.nodes, self@.children),
            indent + 1 + doc@.nodes.len() <= usize::MAX,
            (indent + 1 + doc@.nodes.len()) * inc <= usize::MAX,
        ensures
            final(out)@ == old(out)@ + pretty_element(doc@.nodes, self@, indent as nat, inc as nat),
    {
        let ghost nodes = doc@.nodes;
        let ghost len = nodes.len();
        proof {
            assert(indent * inc <= (indent + 1 + len) * inc) by (nonlinear_arith);
        }
        let pad = padding(indent, inc);
        out.append(pad.as_str());
        push_tag(out, &self.name.local_name, false);
        push_newline(out);
        let ghost mid = out@;
        let n = self.children.len();
        assert(self.children@.take(0) =~= Seq::<usize>::empty());
        for k in 0..n
            invariant
                doc.wf(),
                nodes == doc@.nodes,
                len == nodes.len(),
                ids_within(nodes, self@.children),
                n == self.children@.len(),
                indent + 1 + len <= usize::MAX,
                (indent + 1 + len) * inc <= usize::MAX,
                out@ == mid + pretty_children(
                    nodes,
                    self.children@.take(k as int),
                    (indent + 1) as nat,
                    inc as nat,
                ),
        {
            let c = self.children[k];
            assert(c < len);
            proof {
                assert((indent + 1 + (len - c)) * inc <= (indent + 1 + len) * inc) by (nonlinear_arith);
            }
            doc.write_pretty(c, out, indent + 1, inc);
            assert(self.children@.take(k + 1).drop_last() =~= self.children@.take(k as int));
            assert(out@ =~= mid + pretty_children(
                nodes,
                self.children@.take(k + 1),
                (indent + 1) as nat,
                inc as nat,
            ));
        }
        assert(self.children@.take(n as int) =~= self.children@);
        out.append(pad.as_str());
        push_tag(out, &self.name.local_name, true);
        push_newline(out);
        assert(out@ =~= old(out)@ + pretty_element(nodes, self@, indent as nat, inc as nat));
    }

    /// Appends the compact form of this element to `out`: opening tag,
    /// children, closing tag, nothing in between.
    pub fn format_compact(&self, doc: &Document, out: &mut String)
        requires
            doc.wf(),
            ids_within(doc@.nodes, self@.children),
        ensures
            final(out)@ == old(out)@ + compact_element(doc@.nodes, self@),
    {
        let ghost nodes = doc@.nodes;
        push_tag(out, &self.name.local_name, false);
        let ghost mid = out@;
        let n = self.children.len();
        assert(self.children@.take(0) =~= Seq::<usize>::empty());
        for k in 0..n
            invariant
                doc.wf(),
                nodes == doc@.nodes,
                ids_within(nodes, self@.children),
                n == self.children@.len(),
                out@ == mid + compact_children(nodes, self.children@.take(k as int)),
        {
            let c = self.children[k];
            doc.write_compact(c, out);
            assert(self.children@.take(k + 1).drop_last() =~= self.children@.take(k as int));
            assert(out@ =~= mid + compact_children(nodes, self.children@.take(k + 1)));
        }
        assert(self.children@.take(n as int) =~= self.children@);
        push_tag(out, &self.name.local_name, true);
        assert(out@ =~= old(out)@ + compact_element(nodes, self@));
    }
}

impl Node {
    /// Appends the pretty form of this node to `out`.
    pub fn format_pretty(&self, doc: &Document, out: &mut String, indent: usize, inc: usize)
        requires
            doc.wf(),
            self@ is Element ==> ids_within(doc@.nodes, self@->Element_0.children),
            indent + 1 + doc@.nodes.len() <= usize::MAX,
            (indent + 1 + doc@.nodes.len()) * inc <= usize::MAX,
        ensures
            final(out)@ == old(out)@ + pretty_of(doc@.nodes, self@, indent as nat, inc as nat),
    {
        match self {
            Node::Element(e) => e.format_pretty(doc, out, indent, inc),
            Node::Text(t) => {
                proof {
                    assert(indent * inc <= (indent + 1 + doc@.nodes.len()) * inc) by (nonlinear_arith);
                }
                t.format_pretty(out, indent, inc)
            },
        }
    }

    /// Appends the compact form of this node to `out`.
    pub fn format_compact(&self, doc: &Document, out: &mut String)
        requires
            doc.wf(),
            self@ is Element ==> ids_within(doc@.nodes, self@->Element_0.children),
        ensures
            final(out)@ == old(out)@ + compact_of(doc@.nodes, self@),
    {
        match self {
            Node::Element(e) => e.format_compact(doc, out),
            Node::Text(t) => t.format_compact(out),
        }
    }
}

impl Text {
    /// Appends the content on a line of its own, `indent * inc` spaces in.
    pub fn format_pretty(&self, out: &mut String, indent: usize, inc: usize)
        requires
            indent * inc <= usize::MAX,
        ensures
            final(out)@ == old(out)@ + pretty_text(self.content@, indent as nat, inc as nat),
    {
        let pad = padding(indent, inc);
        out.append(pad.as_str());
        out.append(self.content.as_str());
        push_newline(out);
        assert(out@ =~= old(out)@ + pretty_text(self.content@, indent as nat, inc as nat));
    }

    /// Appends the content as it is.
    pub fn format_compact(&self, out: &mut String)
        ensures
            final(out)@ == old(out)@ + self.content@,
    {
        out.append(self.content.as_str());
    }
}

} // verus!
