use vstd::prelude::*;

use crate::document::{
    children_of, children_ok, children_sorted, parents_ok, wf_nodes, Document, DocumentView, ROOT,
};
use crate::element::{Element, ElementView};
use crate::error::BuildError;
use crate::event::{Event, EventView};
use crate::name::XmlVersion;
use crate::node::{parent_of, Node, NodeView};
use crate::text::{Text, TextView};

verus! {

/// Where the builder stands.
#[derive(Clone, Copy, Debug, PartialEq, Eq, Structural)]
pub enum Phase {
    /// No element has started yet.
    Seeking,
    /// Inside the tree; new nodes go into the element with this id.
    Building(usize),
    /// The root element has closed; events other than errors are ignored.
    Done,
}

/// The builder's state as mathematical values.
pub struct BuildState {
    pub version: Option<XmlVersion>,
    pub encoding: Option<Seq<char>>,
    pub nodes: Seq<NodeView>,
    pub phase: Phase,
}

/// Before any event.
pub open spec fn initial_state() -> BuildState {
    BuildState { version: None, encoding: None, nodes: Seq::empty(), phase: Phase::Seeking }
}

/// `n` with `child` appended to its children, where `n` is an element.
pub open spec fn with_child(n: NodeView, child: usize) -> NodeView {
    match n {
        NodeView::Element(e) => NodeView::Element(
            ElementView { children: e.children.push(child), ..e },
        ),
        NodeView::Text(t) => NodeView::Text(t),
    }
}

/// `s` with node `n` added as the last child of the current element `cur`.
pub open spec fn attach(s: BuildState, cur: usize, n: NodeView) -> BuildState {
    BuildState {
        nodes: s.nodes.update(cur as int, with_child(s.nodes[cur as int], s.nodes.len() as usize)).push(n),
        ..s
    }
}

/// How one event changes the state, or the error it ends the build with.
pub open spec fn step(s: BuildState, e: EventView) -> Result<BuildState, BuildError> {
    match e {
        EventView::Error(err) => Err(BuildError::ParserError(err)),
        EventView::StartDocument { version, encoding } => match s.phase {
            Phase::Done => Ok(s),
            _ => Ok(BuildState { version, encoding, ..s }),
        },
        EventView::StartElement { name, attributes, namespace } => match s.phase {
            Phase::Seeking => Ok(
                BuildState {
                    nodes: seq![
                        NodeView::Element(
                            ElementView {
                                parent: None,
                                name,
                                attributes,
                                namespace,
                                children: Seq::empty(),
                            },
                        ),
                    ],
                    phase: Phase::Building(ROOT),
                    ..s
                },
            ),
            Phase::Building(cur) => Ok(
                BuildState {
                    phase: Phase::Building(s.nodes.len() as usize),
                    ..attach(
                        s,
                        cur,
                        NodeView::Element(
                            ElementView {
                                parent: Some(cur),
                                name,
                                attributes,
                                namespace,
                                children: Seq::empty(),
                            },
                        ),
                    )
                },
            ),
            Phase::Done => Ok(s),
        },
        EventView::EndElement { .. } => match s.phase {
            Phase::Seeking => Err(BuildError::Unreachable),
            Phase::Building(cur) => match parent_of(s.nodes[cur as int]) {
                Some(p) => Ok(BuildState { phase: Phase::Building(p), ..s }),
                None => Ok(BuildState { phase: Phase::Done, ..s }),
            },
            Phase::Done => Ok(s),
        },
        EventView::Characters(content) | EventView::CData(content) => match s.phase {
            Phase::Seeking => Err(BuildError::Unreachable),
            Phase::Building(cur) => Ok(
                attach(s, cur, NodeView::Text(TextView { parent: cur, content })),
            ),
            Phase::Done => Ok(s),
        },
        EventView::Other => Ok(s),
    }
}

/// The state after the events `evs` starting from `s`, or the first error.
pub open spec fn run(s: BuildState, evs: Seq<EventView>) -> Result<BuildState, BuildError>
    decreases evs.len(),
{
    if evs.len() == 0 {
        Ok(s)
    } else {
        match step(s, evs[0]) {
            Ok(t) => run(t, evs.drop_first()),
            Err(e) => Err(e),
        }
    }
}

/// The document that a final state stands for: none if no element started.
pub open spec fn conclude(s: BuildState) -> Result<DocumentView, BuildError> {
    if s.phase is Seeking {
        Err(BuildError::UndefinedRoot)
    } else {
        Ok(DocumentView { version: s.version, encoding: s.encoding, nodes: s.nodes })
    }
}

/// What building from the events `evs` gives.
pub open spec fn outcome(evs: Seq<EventView>) -> Result<DocumentView, BuildError> {
    match run(initial_state(), evs) {
        Ok(s) => conclude(s),
        Err(e) => Err(e),
    }
}

/// A built document or error, as mathematical values.
pub open spec fn result_view(r: Result<Document, BuildError>) -> Result<DocumentView, BuildError> {
    match r {
        Ok(d) => Ok(d@),
        Err(e) => Err(e),
    }
}

/// Every state the builder passes through: no nodes while seeking; otherwise
/// a tree, with the current element an element of it.
pub open spec fn state_ok(s: BuildState) -> bool {
    match s.phase {
        Phase::Seeking => s.nodes.len() == 0,
        Phase::Building(cur) => wf_nodes(s.nodes) && cur < s.nodes.len() && s.nodes[cur as int] is Element,
        Phase::Done => wf_nodes(s.nodes),
    }
}

/// How attaching a node changes the nodes: the new node comes last, the
/// current element lists it last, nothing else changes.
proof fn lemma_attach_shape(s: BuildState, cur: usize, n: NodeView)
    requires
        s.nodes.len() <= usize::MAX,
        cur < s.nodes.len(),
        s.nodes[cur as int] is Element,
    ensures
        attach(s, cur, n).nodes.len() == s.nodes.len() + 1,
        attach(s, cur, n).nodes[s.nodes.len() as int] == n,
        forall|i: int|
            0 <= i < s.nodes.len() ==> parent_of(#[trigger] attach(s, cur, n).nodes[i]) == parent_of(
                s.nodes[i],
            ) && (attach(s, cur, n).nodes[i] is Element <==> s.nodes[i] is Element),
        forall|i: int|
            0 <= i < s.nodes.len() && i != cur ==> #[trigger] children_of(attach(s, cur, n).nodes, i)
                == children_of(s.nodes, i),
        children_of(attach(s, cur, n).nodes, cur as int) == children_of(s.nodes, cur as int).push(
            s.nodes.len() as usize,
        ),
{
}

/// Attaching keeps every node listed by the element it refers back to.
proof fn lemma_attach_parents(s: BuildState, cur: usize, n: NodeView)
    requires
        s.nodes.len() <= usize::MAX,
        parents_ok(s.nodes),
        cur < s.nodes.len(),
        s.nodes[cur as int] is Element,
        parent_of(n) == Some(cur),
    ensures
        parents_ok(attach(s, cur, n).nodes),
{
    let old_nodes = s.nodes;
    let nodes = attach(s, cur, n).nodes;
    let len = old_nodes.len();
    lemma_attach_shape(s, cur, n);
    assert forall|i: int|
        #![trigger parent_of(nodes[i])]
        0 < i < nodes.len() implies match parent_of(nodes[i]) {
            Some(p) => p < i && nodes[p as int] is Element && children_of(nodes, p as int).contains(
                i as usize,
            ),
            None => false,
        } by {
        if i < len {
            assert(parent_of(old_nodes[i]) == parent_of(nodes[i]));
            let p = parent_of(old_nodes[i])->0;
            assert(children_of(old_nodes, p as int).contains(i as usize));
            let k = choose|k: int|
                0 <= k < children_of(old_nodes, p as int).len() && children_of(old_nodes, p as int)[k]
                    == i as usize;
            assert(children_of(nodes, p as int)[k] == i as usize);
        } else {
            let k = children_of(old_nodes, cur as int).len() as int;
            assert(children_of(nodes, cur as int)[k] == i as usize);
        }
    }
}

/// Attaching keeps every listed child after its container and referring
/// back to it.
proof fn lemma_attach_children(s: BuildState, cur: usize, n: NodeView)
    requires
        s.nodes.len() <= usize::MAX,
        children_ok(s.nodes),
        cur < s.nodes.len(),
        s.nodes[cur as int] is Element,
        parent_of(n) == Some(cur),
        n is Text || n->Element_0.children.len() == 0,
    ensures
        children_ok(attach(s, cur, n).nodes),
{
    let old_nodes = s.nodes;
    let nodes = attach(s, cur, n).nodes;
    let len = old_nodes.len();
    lemma_attach_shape(s, cur, n);
    assert(children_of(nodes, len as int) == Seq::<usize>::empty());
    assert forall|i: int, k: int|
        0 <= i < nodes.len() && 0 <= k < children_of(nodes, i).len() implies {
            let c = #[trigger] children_of(nodes, i)[k];
            &&& i < c < nodes.len()
            &&& parent_of(nodes[c as int]) == Some(i as usize)
        } by {
        if i == cur && k == children_of(old_nodes, i).len() {
            assert(children_of(nodes, i)[k] == len);
            assert(nodes[len as int] == n);
        } else {
            assert(i < len);
            assert(children_of(nodes, i)[k] == children_of(old_nodes, i)[k]);
            let c = children_of(old_nodes, i)[k];
            assert(i < c < len);
            assert(parent_of(nodes[c as int]) == parent_of(old_nodes[c as int]));
        }
    }
}

/// Attaching keeps children listed in increasing id order.
proof fn lemma_attach_sorted(s: BuildState, cur: usize, n: NodeView)
    requires
        s.nodes.len() <= usize::MAX,
        children_ok(s.nodes),
        children_sorted(s.nodes),
        cur < s.nodes.len(),
        s.nodes[cur as int] is Element,
        n is Text || n->Element_0.children.len() == 0,
    ensures
        children_sorted(attach(s, cur, n).nodes),
{
    let old_nodes = s.nodes;
    let nodes = attach(s, cur, n).nodes;
    let len = old_nodes.len();
    lemma_attach_shape(s, cur, n);
    assert(children_of(nodes, len as int) == Seq::<usize>::empty());
    assert forall|i: int, k1: int, k2: int|
        0 <= i < nodes.len() && 0 <= k1 < k2 < children_of(nodes, i).len() implies #[trigger] children_of(
            nodes,
            i,
        )[k1] < #[trigger] children_of(nodes, i)[k2] by {
        assert(i < len);
        assert(children_of(nodes, i)[k1] == children_of(old_nodes, i)[k1]);
        if i == cur && k2 == children_of(old_nodes, i).len() {
            assert(children_of(old_nodes, i)[k1] < len);
        } else {
            assert(children_of(nodes, i)[k2] == children_of(old_nodes, i)[k2]);
        }
    }
}

/// Adding a node as the last child of an element keeps the nodes a tree.
pub proof fn lemma_attach_keeps_tree(s: BuildState, cur: usize, n: NodeView)
    requires
        s.nodes.len() <= usize::MAX,
        wf_nodes(s.nodes),
        cur < s.nodes.len(),
        s.nodes[cur as int] is Element,
        parent_of(n) == Some(cur),
        n is Text || n->Element_0.children.len() == 0,
    ensures
        wf_nodes(attach(s, cur, n).nodes),
{
    lemma_attach_shape(s, cur, n);
    assert(parent_of(attach(s, cur, n).nodes[ROOT as int]) == parent_of(s.nodes[ROOT as int]));
    lemma_attach_parents(s, cur, n);
    lemma_attach_children(s, cur, n);
    lemma_attach_sorted(s, cur, n);
}

/// Builds a document from events handed to it one at a time.
pub struct Builder {
    version: Option<XmlVersion>,
    encoding: Option<String>,
    nodes: Vec<Node>,
    phase: Phase,
}

impl Builder {
    /// The state as mathematical values.
    pub closed spec fn state(&self) -> BuildState {
        BuildState {
            version: self.version,
            encoding: match self.encoding {
                Some(x) => Some(x@),
                None => None,
            },
            nodes: self.nodes@.map_values(|n: Node| n@),
            phase: self.phase,
        }
    }

    /// A builder before any event.
    pub fn new() -> (r: Builder)
        ensures
            r.state() == initial_state(),
            state_ok(r.state()),
    {
        let r = Builder { version: None, encoding: None, nodes: Vec::new(), phase: Phase::Seeking };
        assert(r.state().nodes =~= Seq::<NodeView>::empty());
        r
    }

    /// Where the builder stands.
    pub fn phase(&self) -> (r: Phase)
        ensures
            r == self.state().phase,
    {
        self.phase
    }

    /// Takes in one event; on an error the build is over.
    pub fn step(&mut self, e: Event) -> (r: Result<(), BuildError>)
        requires
            state_ok(old(self).state()),
        ensures
            match step(old(self).state(), e@) {
                Ok(s) => r is Ok && final(self).state() == s && state_ok(s),
                Err(err) => r == Err::<(), BuildError>(err),
            },
    {
        match e {
            Event::Error(err) => Err(BuildError::ParserError(err)),
            Event::StartDocument { version, encoding } => {
                if self.phase != Phase::Done {
                    self.version = version;
                    self.encoding = encoding;
                }
                Ok(())
            },
            Event::StartElement { name, attributes, namespace } => {
                match self.phase {
                    Phase::Seeking => {
                        self.nodes.push(Node::Element(Element::new_root(name, attributes, namespace)));
                        self.phase = Phase::Building(ROOT);
                        assert(self.state().nodes =~= step(old(self).state(), e@).unwrap().nodes);
                        Ok(())
                    },
                    Phase::Building(cur) => {
                        let id = self.nodes.len();
                        let elem = Element::new(cur, name, attributes, namespace);
                        self.attach(cur, Node::Element(elem));
                        self.phase = Phase::Building(id);
                        Ok(())
                    },
                    Phase::Done => Ok(()),
                }
            },
            Event::EndElement { .. } => {
                match self.phase {
                    Phase::Seeking => Err(BuildError::Unreachable),
                    Phase::Building(cur) => {
                        match self.nodes[cur].parent_id() {
                            Some(p) => self.phase = Phase::Building(p),
                            None => self.phase = Phase::Done,
                        }
                        Ok(())
                    },
                    Phase::Done => Ok(()),
                }
            },
            Event::Characters(content) | Event::CData(content) => {
                match self.phase {
                    Phase::Seeking => Err(BuildError::Unreachable),
                    Phase::Building(cur) => {
                        self.attach(cur, Node::Text(Text::new(cur, content)));
                        Ok(())
                    },
                    Phase::Done => Ok(()),
                }
            },
            Event::Other => Ok(()),
        }
    }

    /// Adds `n` as the last child of the current element `cur`.
    fn attach(&mut self, cur: usize, n: Node)
        requires
            state_ok(old(self).state()),
            old(self).state().phase == Phase::Building(cur),
            parent_of(n@) == Some(cur),
            n@ is Text || n@->Element_0.children.len() == 0,
        ensures
            final(self).state() == attach(old(self).state(), cur, n@),
            wf_nodes(final(self).state().nodes),
    {
        let id = self.nodes.len();
        match &mut self.nodes[cur] {
            Node::Element(p) => p.add_child(id),
            Node::Text(_) => {},
        }
        self.nodes.push(n);
        assert(self.state().nodes =~= attach(old(self).state(), cur, n@).nodes);
        proof {
            lemma_attach_keeps_tree(old(self).state(), cur, n@);
        }
    }

    /// The document built, or `UndefinedRoot` if no element started.
    pub fn finish(self) -> (r: Result<Document, BuildError>)
        requires
            state_ok(self.state()),
        ensures
            result_view(r) == conclude(self.state()),
            r matches Ok(d) ==> d.wf(),
    {
        match self.phase {
            Phase::Seeking => Err(BuildError::UndefinedRoot),
            _ => Ok(Document { version: self.version, encoding: self.encoding, nodes: self.nodes }),
        }
    }
}

/// Builds a document from the events `events`, in one forward pass.
pub fn build(events: Vec<Event>) -> (r: Result<Document, BuildError>)
    ensures
        result_view(r) == outcome(events@.map_values(|e: Event| e@)),
        r matches Ok(d) ==> d.wf(),
{
    let ghost evs = events@.map_values(|e: Event| e@);
    let mut pending = events;
    let n = pending.len();
    let mut b = Builder::new();
    let mut i: usize = 0;
    assert(evs.subrange(0, n as int) =~= evs);
    while i < n
        invariant
            n == evs.len(),
            evs == events@.map_values(|e: Event| e@),
            pending@.len() == n,
            i <= n,
            forall|k: int| i <= k < n ==> pending@[k]@ == evs[k],
            state_ok(b.state()),
            run(initial_state(), evs) == run(b.state(), evs.subrange(i as int, n as int)),
        decreases n - i,
    {
        let mut e = Event::Other;
        std::mem::swap(&mut e, &mut pending[i]);
        let ghost before = b.state();
        assert(evs.subrange(i as int, n as int).drop_first() =~= evs.subrange(i + 1, n as int));
        assert(evs.subrange(i as int, n as int)[0] == e@);
        match b.step(e) {
            Ok(()) => {},
            Err(err) => {
                assert(run(before, evs.subrange(i as int, n as int)) == Err::<BuildState, BuildError>(err));
                assert(outcome(evs) == Err::<DocumentView, BuildError>(err));
                return Err(err);
            },
        }
        i = i + 1;
    }
    b.finish()
}

} // verus!
