use vstd::prelude::*;

use crate::builder::{
    attach, initial_state, lemma_attach_keeps_tree, outcome, run, state_ok, step, with_child, BuildState,
    Phase,
};
use crate::document::{children_of, children_ok, wf_nodes, Document, DocumentView, ROOT};
use crate::element::ElementView;
use crate::error::BuildError;
use crate::event::EventView;
use crate::format::{pretty_forest, pretty_node, pretty_seq, pretty_tree};
use crate::name::XmlVersion;
use crate::node::{element_ids, named_ids, parent_of, text_items, NodeView};
use crate::text::TextView;
use crate::tree::{forest_events, forest_size, tree_events, tree_of, tree_size, trees_of, Tree};

verus! {

/// Each node is an element or a text: among any list of child ids, the
/// elements and the texts together are as many as the list.
pub proof fn lemma_elements_and_texts_add_up(nodes: Seq<NodeView>, ids: Seq<usize>)
    ensures
        element_ids(nodes, ids).len() + text_items(nodes, ids).len() == ids.len(),
    decreases ids.len(),
{
    if ids.len() > 0 {
        lemma_elements_and_texts_add_up(nodes, ids.drop_first());
    }
}

/// Looking children up by name keeps exactly the listed ids that name an
/// element with that local name: each id it gives is in the list and names
/// such an element, and each such id of the list is given.
pub proof fn lemma_find_keeps_exactly_matching(nodes: Seq<NodeView>, ids: Seq<usize>, name: Seq<char>)
    ensures
        forall|k: int|
            0 <= k < named_ids(nodes, ids, name).len() ==> {
                let id = #[trigger] named_ids(nodes, ids, name)[k];
                &&& ids.contains(id)
                &&& nodes[id as int] is Element
                &&& nodes[id as int]->Element_0.name.local_name@ == name
            },
        forall|k: int|
            0 <= k < ids.len() && nodes[ids[k] as int] is Element && nodes[#[trigger] ids[k] as int]->Element_0.name.local_name@
                == name ==> named_ids(nodes, ids, name).contains(ids[k]),
    decreases ids.len(),
{
    if ids.len() > 0 {
        let rest = ids.drop_first();
        lemma_find_keeps_exactly_matching(nodes, rest, name);
        let r = named_ids(nodes, ids, name);
        let rr = named_ids(nodes, rest, name);
        assert forall|k: int| 0 <= k < r.len() implies {
            let id = #[trigger] r[k];
            &&& ids.contains(id)
            &&& nodes[id as int] is Element
            &&& nodes[id as int]->Element_0.name.local_name@ == name
        } by {
            if r.len() == rr.len() + 1 {
                if k == 0 {
                    assert(ids[0] == r[k]);
                } else {
                    assert(r[k] == rr[k - 1]);
                    let j = choose|j: int| 0 <= j < rest.len() && rest[j] == rr[k - 1];
                    assert(ids[j + 1] == r[k]);
                }
            } else {
                assert(r[k] == rr[k]);
                let j = choose|j: int| 0 <= j < rest.len() && rest[j] == rr[k];
                assert(ids[j + 1] == r[k]);
            }
        }
        assert forall|k: int|
            0 <= k < ids.len() && nodes[ids[k] as int] is Element && nodes[#[trigger] ids[k] as int]->Element_0.name.local_name@
                == name implies r.contains(ids[k]) by {
            if k == 0 {
                assert(r[0] == ids[0]);
            } else {
                assert(rest[k - 1] == ids[k]);
                let j = choose|j: int| 0 <= j < rr.len() && rr[j] == ids[k];
                if r.len() == rr.len() + 1 {
                    assert(r[j + 1] == ids[k]);
                } else {
                    assert(r[j] == ids[k]);
                }
            }
        }
    }
}

/// In a well-formed document the root refers back to no container, and
/// every other node refers back to an element that lists it among its
/// children: following the reference leads to the node's container.
pub proof fn lemma_parent_is_container(doc: &Document, id: usize)
    requires
        doc.wf(),
        id < doc@.nodes.len(),
    ensures
        id == ROOT <==> parent_of(doc@.nodes[id as int]) is None,
        id != ROOT ==> match doc.element_spec(parent_of(doc@.nodes[id as int])) {
            Some(p) => p@.children.contains(id),
            None => false,
        },
{
    if id != ROOT {
        let p = parent_of(doc@.nodes[id as int])->0;
        assert(doc@.nodes[p as int] == doc.nodes@[p as int]@);
        assert(children_of(doc@.nodes, p as int).contains(id));
    }
}

/// From a state that has not seen an element yet, declarations and events
/// that do not touch the tree leave it without one.
proof fn lemma_seeking_stays(s: BuildState, evs: Seq<EventView>)
    requires
        s.phase is Seeking,
        forall|k: int| 0 <= k < evs.len() ==> #[trigger] evs[k] is StartDocument || evs[k] is Other,
    ensures
        run(s, evs) is Ok,
        run(s, evs)->Ok_0.phase is Seeking,
    decreases evs.len(),
{
    if evs.len() > 0 {
        assert(evs[0] is StartDocument || evs[0] is Other);
        let t = crate::builder::step(s, evs[0])->Ok_0;
        assert forall|k: int| 0 <= k < evs.drop_first().len() implies #[trigger] evs.drop_first()[k] is StartDocument
            || evs.drop_first()[k] is Other by {
            assert(evs.drop_first()[k] == evs[k + 1]);
        }
        lemma_seeking_stays(t, evs.drop_first());
    }
}

/// Events that never start an element, such as those of an empty input or
/// of one with only comments, give `UndefinedRoot`.
pub proof fn lemma_no_element_no_root(evs: Seq<EventView>)
    requires
        forall|k: int| 0 <= k < evs.len() ==> #[trigger] evs[k] is StartDocument || evs[k] is Other,
    ensures
        outcome(evs) == Err::<crate::document::DocumentView, BuildError>(BuildError::UndefinedRoot),
{
    lemma_seeking_stays(crate::builder::initial_state(), evs);
}

/// Without error events, the only error a run can end with is
/// `Unreachable`, and once an element has started there is none.
proof fn lemma_only_unreachable(s: BuildState, evs: Seq<EventView>)
    requires
        forall|k: int| 0 <= k < evs.len() ==> !(#[trigger] evs[k] is Error),
    ensures
        run(s, evs) is Err ==> run(s, evs)->Err_0 is Unreachable,
        !(s.phase is Seeking) ==> run(s, evs) is Ok && !(run(s, evs)->Ok_0.phase is Seeking),
    decreases evs.len(),
{
    if evs.len() > 0 {
        assert(!(evs[0] is Error));
        assert forall|k: int| 0 <= k < evs.drop_first().len() implies !(#[trigger] evs.drop_first()[k] is Error) by {
            assert(evs.drop_first()[k] == evs[k + 1]);
        }
        if let Ok(t) = step(s, evs[0]) {
            lemma_only_unreachable(t, evs.drop_first());
        }
    }
}

/// Without error events, `UndefinedRoot` comes only from events that never
/// start an element: where an element starts, the outcome is a document or,
/// for an end or a text before it, `Unreachable`.
pub proof fn lemma_undefined_root_only_without_element(evs: Seq<EventView>, k: int)
    requires
        forall|j: int| 0 <= j < evs.len() ==> !(#[trigger] evs[j] is Error),
        0 <= k < evs.len(),
        evs[k] is StartElement,
    ensures
        outcome(evs) != Err::<DocumentView, BuildError>(BuildError::UndefinedRoot),
{
    let front = evs.take(k);
    let back = evs.skip(k);
    assert(evs =~= front + back);
    assert forall|j: int| 0 <= j < front.len() implies !(#[trigger] front[j] is Error) by {
        assert(front[j] == evs[j]);
    }
    assert forall|j: int| 0 <= j < back.len() implies !(#[trigger] back[j] is Error) by {
        assert(back[j] == evs[j + k]);
    }
    lemma_only_unreachable(initial_state(), front);
    lemma_run_append(initial_state(), front, back);
    if let Ok(s) = run(initial_state(), front) {
        assert(back[0] == evs[k]);
        let t = step(s, back[0])->Ok_0;
        assert(!(t.phase is Seeking));
        assert forall|j: int| 0 <= j < back.drop_first().len() implies !(#[trigger] back.drop_first()[j] is Error) by {
            assert(back.drop_first()[j] == back[j + 1]);
        }
        lemma_only_unreachable(t, back.drop_first());
    }
}

/// Running two lists of events one after the other is running the first,
/// then, unless it failed, the second from where the first ended.
pub proof fn lemma_run_append(s: BuildState, a: Seq<EventView>, b: Seq<EventView>)
    ensures
        run(s, a + b) == match run(s, a) {
            Ok(t) => run(t, b),
            Err(e) => Err(e),
        },
    decreases a.len(),
{
    if a.len() == 0 {
        assert(a + b =~= b);
    } else {
        assert((a + b)[0] == a[0]);
        assert((a + b).drop_first() =~= a.drop_first() + b);
        if let Ok(t) = step(s, a[0]) {
            lemma_run_append(t, a.drop_first(), b);
        }
    }
}

/// Running a single event is taking one step.
proof fn lemma_run_one(s: BuildState, e: EventView)
    ensures
        run(s, seq![e]) == step(s, e),
{
    assert(seq![e].drop_first() =~= Seq::<EventView>::empty());
    if let Ok(t) = step(s, e) {
        assert(run(t, Seq::<EventView>::empty()) == Ok::<BuildState, BuildError>(t));
    }
}

/// The trees of a list of children, one for each.
proof fn lemma_trees_of_pointwise(nodes: Seq<NodeView>, p: int, ids: Seq<usize>)
    requires
        forall|k: int| 0 <= k < ids.len() ==> p < #[trigger] ids[k] < nodes.len(),
    ensures
        trees_of(nodes, p, ids).len() == ids.len(),
        forall|k: int| 0 <= k < ids.len() ==> #[trigger] trees_of(nodes, p, ids)[k] == tree_of(nodes, ids[k] as int),
    decreases ids.len(),
{
    if ids.len() > 0 {
        lemma_trees_of_pointwise(nodes, p, ids.drop_last());
        assert(p < ids[ids.len() - 1]);
    }
}

/// The tree at node `i` depends only on the nodes from `lo` on, where
/// children come after their container.
proof fn lemma_tree_frame(n1: Seq<NodeView>, n2: Seq<NodeView>, lo: int, i: int)
    requires
        children_ok(n1),
        0 <= lo <= i < n1.len() <= n2.len(),
        forall|j: int| lo <= j < n1.len() ==> #[trigger] n2[j] == n1[j],
    ensures
        tree_of(n2, i) == tree_of(n1, i),
    decreases n1.len() - i, children_of(n1, i).len() + 1,
{
    assert(n2[i] == n1[i]);
    if let NodeView::Element(e) = n1[i] {
        assert(children_of(n1, i) == e.children);
        assert forall|k: int| 0 <= k < e.children.len() implies i < #[trigger] e.children[k] < n1.len() by {
            assert(children_ok(n1));
            assert(children_of(n1, i)[k] == e.children[k]);
            assert(children_of(n1, i)[k] < n1.len());
        }
        lemma_trees_frame(n1, n2, lo, i, e.children);
    }
}

/// The trees at the children `ids` of node `p` depend only on the nodes
/// from `lo` on.
proof fn lemma_trees_frame(n1: Seq<NodeView>, n2: Seq<NodeView>, lo: int, p: int, ids: Seq<usize>)
    requires
        children_ok(n1),
        0 <= lo <= p < n1.len() <= n2.len(),
        forall|j: int| lo <= j < n1.len() ==> #[trigger] n2[j] == n1[j],
        forall|k: int| 0 <= k < ids.len() ==> p < #[trigger] ids[k] < n1.len(),
    ensures
        trees_of(n2, p, ids) == trees_of(n1, p, ids),
    decreases n1.len() - p, ids.len(),
{
    if ids.len() > 0 {
        lemma_trees_frame(n1, n2, lo, p, ids.drop_last());
        let last = ids.last() as int;
        assert(p < ids[ids.len() - 1]);
        lemma_tree_frame(n1, n2, lo, last);
    }
}

/// Where the roots of the trees `ts` go when they are built one after the
/// other from id `base` on.
pub open spec fn forest_roots(base: nat, ts: Seq<Tree>) -> Seq<usize>
    decreases ts.len(),
{
    if ts.len() == 0 {
        Seq::empty()
    } else {
        forest_roots(base, ts.drop_last()).push((base + forest_size(ts.drop_last())) as usize)
    }
}

/// `n` with the ids `ids` appended to its children, where `n` is an element.
pub open spec fn with_children(n: NodeView, ids: Seq<usize>) -> NodeView {
    match n {
        NodeView::Element(e) => NodeView::Element(ElementView { children: e.children + ids, ..e }),
        NodeView::Text(t) => NodeView::Text(t),
    }
}

/// Building from the events of one tree inside the current element `cur`
/// adds the tree's nodes from the next free id on, lists its root last
/// among the children of `cur`, and comes back to `cur`.
proof fn lemma_tree_run(s: BuildState, cur: usize, t: Tree)
    requires
        state_ok(s),
        s.phase == Phase::Building(cur),
        s.nodes.len() + tree_size(t) <= usize::MAX,
    ensures
        run(s, tree_events(t)) is Ok,
        ({
            let s2 = run(s, tree_events(t))->Ok_0;
            &&& state_ok(s2)
            &&& s2.phase == Phase::Building(cur)
            &&& s2.version == s.version
            &&& s2.encoding == s.encoding
            &&& s2.nodes.len() == s.nodes.len() + tree_size(t)
            &&& forall|j: int| 0 <= j < s.nodes.len() && j != cur ==> #[trigger] s2.nodes[j] == s.nodes[j]
            &&& s2.nodes[cur as int] == with_child(s.nodes[cur as int], s.nodes.len() as usize)
            &&& tree_of(s2.nodes, s.nodes.len() as int) == t
        }),
    decreases t,
{
    let len = s.nodes.len();
    match t {
        Tree::Text { content } => {
            let n = NodeView::Text(TextView { parent: cur, content });
            lemma_attach_keeps_tree(s, cur, n);
            let s1 = attach(s, cur, n);
            lemma_run_one(s, EventView::Characters(content));
        },
        Tree::Element { name, attributes, namespace, children } => {
            let start = seq![EventView::StartElement { name, attributes, namespace }];
            let mid = forest_events(children);
            let end = seq![EventView::EndElement { name }];
            assert(tree_events(t) == start + mid + end);
            let n = NodeView::Element(
                ElementView { parent: Some(cur), name, attributes, namespace, children: Seq::empty() },
            );
            lemma_attach_keeps_tree(s, cur, n);
            let s1 = BuildState { phase: Phase::Building(len as usize), ..attach(s, cur, n) };
            lemma_run_one(s, EventView::StartElement { name, attributes, namespace });
            assert(run(s, start) == Ok::<BuildState, BuildError>(s1));
            assert(s1.nodes[len as int] == n);
            assert(state_ok(s1));
            lemma_forest_run(s1, len as usize, children);
            let s3 = run(s1, mid)->Ok_0;
            lemma_run_append(s, start, mid);
            let roots = forest_roots((len + 1) as nat, children);
            assert(s3.nodes[len as int] == with_children(n, roots));
            assert(parent_of(s3.nodes[len as int]) == Some(cur));
            let s4 = BuildState { phase: Phase::Building(cur), ..s3 };
            lemma_run_one(s3, EventView::EndElement { name });
            assert(run(s3, end) == Ok::<BuildState, BuildError>(s4));
            lemma_run_append(s, start + mid, end);
            assert(run(s, tree_events(t)) == Ok::<BuildState, BuildError>(s4));
            assert(Seq::<usize>::empty() + roots =~= roots);
            assert forall|k: int| 0 <= k < roots.len() implies len < #[trigger] roots[k] < s4.nodes.len() by {}
            lemma_trees_of_pointwise(s4.nodes, len as int, roots);
            assert(trees_of(s4.nodes, len as int, roots) =~= children);
            assert(s3.nodes[cur as int] == s1.nodes[cur as int]);
            assert forall|j: int| 0 <= j < len && j != cur implies #[trigger] s4.nodes[j] == s.nodes[j] by {
                assert(s3.nodes[j] == s1.nodes[j]);
            }
        },
    }
}

/// Building from the events of the trees `ts` inside the current element
/// `p` adds their nodes one tree after the other, lists their roots last
/// among the children of `p`, and stays at `p`.
proof fn lemma_forest_run(s: BuildState, p: usize, ts: Seq<Tree>)
    requires
        state_ok(s),
        s.phase == Phase::Building(p),
        s.nodes.len() + forest_size(ts) <= usize::MAX,
    ensures
        run(s, forest_events(ts)) is Ok,
        ({
            let s2 = run(s, forest_events(ts))->Ok_0;
            let roots = forest_roots(s.nodes.len(), ts);
            &&& state_ok(s2)
            &&& s2.phase == Phase::Building(p)
            &&& s2.version == s.version
            &&& s2.encoding == s.encoding
            &&& s2.nodes.len() == s.nodes.len() + forest_size(ts)
            &&& forall|j: int| 0 <= j < s.nodes.len() && j != p ==> #[trigger] s2.nodes[j] == s.nodes[j]
            &&& s2.nodes[p as int] == with_children(s.nodes[p as int], roots)
            &&& roots.len() == ts.len()
            &&& forall|k: int|
                0 <= k < ts.len() ==> s.nodes.len() <= #[trigger] roots[k] < s2.nodes.len()
                    && tree_of(s2.nodes, roots[k] as int) == ts[k]
        }),
    decreases ts,
{
    let len = s.nodes.len();
    if ts.len() == 0 {
        assert(forest_events(ts) =~= Seq::<EventView>::empty());
        if let NodeView::Element(e) = s.nodes[p as int] {
            assert(e.children + Seq::<usize>::empty() =~= e.children);
        }
    } else {
        let front = ts.drop_last();
        let t = ts.last();
        lemma_forest_run(s, p, front);
        let s1 = run(s, forest_events(front))->Ok_0;
        let len1 = s1.nodes.len();
        lemma_tree_run(s1, p, t);
        let s2 = run(s1, tree_events(t))->Ok_0;
        lemma_run_append(s, forest_events(front), tree_events(t));
        assert(forest_events(ts) == forest_events(front) + tree_events(t));
        let roots1 = forest_roots(len, front);
        let roots = forest_roots(len, ts);
        assert(roots == roots1.push(len1 as usize));
        if let NodeView::Element(e) = s.nodes[p as int] {
            assert(e.children + roots1.push(len1 as usize) =~= (e.children + roots1).push(len1 as usize));
        }
        assert forall|j: int| 0 <= j < len && j != p implies #[trigger] s2.nodes[j] == s.nodes[j] by {
            assert(s1.nodes[j] == s.nodes[j]);
        }
        assert forall|k: int| 0 <= k < ts.len() implies len <= #[trigger] roots[k] < s2.nodes.len()
            && tree_of(s2.nodes, roots[k] as int) == ts[k] by {
            if k < front.len() {
                assert(roots[k] == roots1[k]);
                assert forall|j: int| len <= j < len1 implies #[trigger] s2.nodes[j] == s1.nodes[j] by {}
                lemma_tree_frame(s1.nodes, s2.nodes, len as int, roots1[k] as int);
            }
        }
    }
}

/// An event that does not touch the tree (a comment, a processing
/// instruction, whitespace, the end of the document) can stand anywhere in
/// the events without changing the outcome.
pub proof fn lemma_ignored_event_anywhere(a: Seq<EventView>, b: Seq<EventView>)
    ensures
        outcome(a + seq![EventView::Other] + b) == outcome(a + b),
{
    let s = initial_state();
    lemma_run_append(s, a + seq![EventView::Other], b);
    lemma_run_append(s, a, seq![EventView::Other]);
    lemma_run_append(s, a, b);
    if let Ok(t) = run(s, a) {
        lemma_run_one(t, EventView::Other);
    }
}

/// A literal text block builds the same as character data with the same
/// content, wherever it stands.
pub proof fn lemma_cdata_as_characters(a: Seq<EventView>, content: Seq<char>, b: Seq<EventView>)
    ensures
        outcome(a + seq![EventView::CData(content)] + b) == outcome(
            a + seq![EventView::Characters(content)] + b,
        ),
{
    let s = initial_state();
    lemma_run_append(s, a + seq![EventView::CData(content)], b);
    lemma_run_append(s, a + seq![EventView::Characters(content)], b);
    lemma_run_append(s, a, seq![EventView::CData(content)]);
    lemma_run_append(s, a, seq![EventView::Characters(content)]);
    if let Ok(t) = run(s, a) {
        lemma_run_one(t, EventView::CData(content));
        lemma_run_one(t, EventView::Characters(content));
    }
}

/// Once the root has closed, events other than errors change nothing.
proof fn lemma_done_stays(s: BuildState, evs: Seq<EventView>)
    requires
        s.phase is Done,
        forall|k: int| 0 <= k < evs.len() ==> !(#[trigger] evs[k] is Error),
    ensures
        run(s, evs) == Ok::<BuildState, BuildError>(s),
    decreases evs.len(),
{
    if evs.len() > 0 {
        assert(!(evs[0] is Error));
        assert forall|k: int| 0 <= k < evs.drop_first().len() implies !(#[trigger] evs.drop_first()[k] is Error) by {
            assert(evs.drop_first()[k] == evs[k + 1]);
        }
        lemma_done_stays(s, evs.drop_first());
    }
}

/// Building from the events of a tree whose root is an element, before any
/// element, ends with the root closed and the tree's nodes, declaration
/// unchanged.
proof fn lemma_root_run(s: BuildState, t: Tree)
    requires
        state_ok(s),
        s.phase is Seeking,
        t is Element,
        tree_size(t) <= usize::MAX,
    ensures
        run(s, tree_events(t)) is Ok,
        ({
            let s2 = run(s, tree_events(t))->Ok_0;
            &&& s2.phase is Done
            &&& wf_nodes(s2.nodes)
            &&& s2.version == s.version
            &&& s2.encoding == s.encoding
            &&& s2.nodes.len() == tree_size(t)
            &&& tree_of(s2.nodes, ROOT as int) == t
        }),
{
    if let Tree::Element { name, attributes, namespace, children } = t {
        let start = seq![EventView::StartElement { name, attributes, namespace }];
        let mid = forest_events(children);
        let end = seq![EventView::EndElement { name }];
        assert(tree_events(t) == start + mid + end);
        let root = NodeView::Element(
            ElementView { parent: None, name, attributes, namespace, children: Seq::empty() },
        );
        let s0 = BuildState { nodes: seq![root], phase: Phase::Building(ROOT), ..s };
        lemma_run_one(s, EventView::StartElement { name, attributes, namespace });
        assert(children_of(s0.nodes, 0) == Seq::<usize>::empty());
        assert(wf_nodes(s0.nodes));
        lemma_forest_run(s0, ROOT, children);
        let s1 = run(s0, mid)->Ok_0;
        lemma_run_append(s, start, mid);
        let roots = forest_roots(1, children);
        assert(s1.nodes[0] == with_children(root, roots));
        let s2 = BuildState { phase: Phase::Done, ..s1 };
        lemma_run_one(s1, EventView::EndElement { name });
        lemma_run_append(s, start + mid, end);
        assert(run(s, tree_events(t)) == Ok::<BuildState, BuildError>(s2));
        assert(Seq::<usize>::empty() + roots =~= roots);
        lemma_trees_of_pointwise(s2.nodes, 0, roots);
        assert(trees_of(s2.nodes, 0, roots) =~= children);
    }
}

/// Building from the events of a tree with a single root element succeeds
/// and gives back that tree: at every level, children come in the order in
/// which their events came between the start and the end of their element.
pub proof fn lemma_build_gives_back_tree(t: Tree)
    requires
        t is Element,
        tree_size(t) <= usize::MAX,
    ensures
        outcome(tree_events(t)) is Ok,
        ({
            let d = outcome(tree_events(t))->Ok_0;
            &&& wf_nodes(d.nodes)
            &&& tree_of(d.nodes, ROOT as int) == t
            &&& d.version is None
            &&& d.encoding is None
        }),
{
    lemma_root_run(initial_state(), t);
}

/// A declaration ahead of a single-root tree is kept: the document has the
/// declared version and encoding, and the tree. Events other than errors
/// after the root has closed, such as the end of the document, change
/// nothing.
pub proof fn lemma_declaration_kept(
    version: Option<XmlVersion>,
    encoding: Option<Seq<char>>,
    t: Tree,
    trailing: Seq<EventView>,
)
    requires
        t is Element,
        tree_size(t) <= usize::MAX,
        forall|k: int| 0 <= k < trailing.len() ==> !(#[trigger] trailing[k] is Error),
    ensures
        outcome(seq![EventView::StartDocument { version, encoding }] + tree_events(t) + trailing) is Ok,
        ({
            let d = outcome(seq![EventView::StartDocument { version, encoding }] + tree_events(t) + trailing)->Ok_0;
            &&& d.version == version
            &&& d.encoding == encoding
            &&& wf_nodes(d.nodes)
            &&& tree_of(d.nodes, ROOT as int) == t
        }),
{
    let decl = seq![EventView::StartDocument { version, encoding }];
    let s0 = BuildState { version, encoding, ..initial_state() };
    lemma_run_one(initial_state(), EventView::StartDocument { version, encoding });
    lemma_root_run(s0, t);
    let s1 = run(s0, tree_events(t))->Ok_0;
    lemma_done_stays(s1, trailing);
    lemma_run_append(initial_state(), decl, tree_events(t));
    lemma_run_append(initial_state(), decl + tree_events(t), trailing);
}

/// The pretty form of a node is that of its tree.
proof fn lemma_pretty_node_is_pretty_tree(nodes: Seq<NodeView>, id: int, indent: nat, inc: nat)
    requires
        children_ok(nodes),
        0 <= id < nodes.len(),
    ensures
        pretty_node(nodes, id, indent, inc) == pretty_tree(tree_of(nodes, id), indent, inc),
    decreases nodes.len() - id, children_of(nodes, id).len() + 1,
{
    if let NodeView::Element(e) = nodes[id] {
        assert(children_of(nodes, id) == e.children);
        assert forall|k: int| 0 <= k < e.children.len() implies id < #[trigger] e.children[k] < nodes.len() by {
            assert(children_of(nodes, id)[k] == e.children[k]);
            assert(children_of(nodes, id)[k] < nodes.len());
        }
        lemma_pretty_seq_is_pretty_forest(nodes, id, e.children, indent + 1, inc);
    }
}

/// The pretty forms of children are those of their trees.
proof fn lemma_pretty_seq_is_pretty_forest(
    nodes: Seq<NodeView>,
    p: int,
    ids: Seq<usize>,
    indent: nat,
    inc: nat,
)
    requires
        children_ok(nodes),
        0 <= p < nodes.len(),
        forall|k: int| 0 <= k < ids.len() ==> p < #[trigger] ids[k] < nodes.len(),
    ensures
        pretty_seq(nodes, p, ids, indent, inc) == pretty_forest(trees_of(nodes, p, ids), indent, inc),
    decreases nodes.len() - p, ids.len(),
{
    if ids.len() > 0 {
        lemma_pretty_seq_is_pretty_forest(nodes, p, ids.drop_last(), indent, inc);
        let last = ids.last() as int;
        assert(p < ids[ids.len() - 1]);
        lemma_pretty_node_is_pretty_tree(nodes, last, indent, inc);
        let ts = trees_of(nodes, p, ids);
        assert(ts.drop_last() == trees_of(nodes, p, ids.drop_last()));
        assert(ts.last() == tree_of(nodes, last));
    }
}

/// Laying a document out as events (the element and text structure that
/// its pretty form shows, attributes aside) and building again succeeds and
/// gives the same tree, so the pretty form comes out the same.
pub proof fn lemma_rebuild_same_shape(doc: &Document, indent: nat, inc: nat)
    requires
        doc.wf(),
        tree_size(tree_of(doc@.nodes, ROOT as int)) <= usize::MAX,
    ensures
        outcome(tree_events(tree_of(doc@.nodes, ROOT as int))) is Ok,
        ({
            let d = outcome(tree_events(tree_of(doc@.nodes, ROOT as int)))->Ok_0;
            &&& tree_of(d.nodes, ROOT as int) == tree_of(doc@.nodes, ROOT as int)
            &&& pretty_node(d.nodes, ROOT as int, indent, inc) == pretty_node(
                doc@.nodes,
                ROOT as int,
                indent,
                inc,
            )
        }),
{
    let t = tree_of(doc@.nodes, ROOT as int);
    lemma_build_gives_back_tree(t);
    let d = outcome(tree_events(t))->Ok_0;
    lemma_pretty_node_is_pretty_tree(doc@.nodes, ROOT as int, indent, inc);
    lemma_pretty_node_is_pretty_tree(d.nodes, ROOT as int, indent, inc);
}

} // verus!
