//! The graph store: a table of the syntax nodes that were referenced, and an arena of graph
//! nodes, each with its attributes and its outgoing edges.
use vstd::prelude::*;
use std::collections::HashMap;
use smallvec::SmallVec;
use crate::attributes::Attributes;
use crate::value::{got_text, ExecutionError, GraphNodeRef, SyntaxNodeRef, Value};

verus! {

broadcast use vstd::std_specs::hash::group_hash_axioms;

/// The outgoing edges of a graph node, each with the index of its sink, held in a `SmallVec`.
#[verifier::external_body]
pub struct EdgeList {
    items: SmallVec<[(u32, Edge); 8]>,
}

/// The entries that an edge list holds, in order.
pub uninterp spec fn edge_entries(v: EdgeList) -> Seq<(u32, Edge)>;

/// Relies on `SmallVec::new`: a new vector is empty.
#[verifier::external_body]
fn edges_new() -> (r: EdgeList)
    ensures
        edge_entries(r) == Seq::<(u32, Edge)>::empty(),
{
    EdgeList { items: SmallVec::new() }
}

/// Relies on `SmallVec::len`: the number of entries.
#[verifier::external_body]
fn edges_len(v: &EdgeList) -> (r: usize)
    ensures
        r == edge_entries(*v).len(),
{
    v.items.len()
}

/// Relies on `SmallVec`'s `Index<usize>`: the entry at a position below the length.
#[verifier::external_body]
fn edges_get(v: &EdgeList, i: usize) -> (r: &(u32, Edge))
    requires
        i < edge_entries(*v).len(),
    ensures
        *r == edge_entries(*v)[i as int],
{
    &v.items[i]
}

/// Relies on `SmallVec::insert`: the entry goes in at `i`, those from `i` on move up by one.
/// It panics for a position past the length, which `requires` leaves out.
#[verifier::external_body]
fn edges_insert(v: &mut EdgeList, i: usize, e: (u32, Edge))
    requires
        i <= edge_entries(*old(v)).len(),
    ensures
        edge_entries(*final(v)) == edge_entries(*old(v)).insert(i as int, e),
{
    v.items.insert(i, e)
}

/// Relies on `SmallVec`'s `IndexMut<usize>`: a mutable borrow of the entry at a position below
/// the length; what is written through it is what the vector then holds there.
#[verifier::external_body]
fn edges_get_mut(v: &mut EdgeList, i: usize) -> (r: &mut (u32, Edge))
    requires
        i < edge_entries(*old(v)).len(),
    ensures
        *r == edge_entries(*old(v))[i as int],
        edge_entries(*final(v)) == edge_entries(*old(v)).update(i as int, *final(r)),
{
    &mut v.items[i]
}

/// An edge between two nodes of a graph.
pub struct Edge {
    /// The attributes of this edge.
    pub attributes: Attributes,
}

impl Edge {
    fn new() -> (r: Edge)
        ensures
            r.attributes.wf(),
            r.attributes@ == Map::<Seq<char>, crate::value::Value>::empty(),
    {
        Edge { attributes: Attributes::new() }
    }
}

/// A node of a graph: its attributes, and its outgoing edges ordered by sink.
pub struct GraphNode {
    outgoing_edges: EdgeList,
    /// The attributes of this graph node.
    pub attributes: Attributes,
}

/// Whether the sinks of `s` strictly increase.
pub open spec fn sinks_increasing(s: Seq<(u32, Edge)>) -> bool {
    forall|i: int, j: int| 0 <= i < j < s.len() ==> s[i].0 < s[j].0
}

/// What adding an edge to `sink` does to a node: an existing edge is kept as it is and reported
/// as `Err`; otherwise a new edge without attributes goes in at its place in sink order, and the
/// result is `Ok`.
pub open spec fn edge_added(before: GraphNode, after: GraphNode, sink: u32, r: Result<(), ()>) -> bool {
    &&& after.attrs() == before.attrs()
    &&& after.has_edge(sink)
    &&& before.has_edge(sink) ==> r is Err && after.edges() == before.edges()
    &&& !before.has_edge(sink) ==> r is Ok && after.edges().len() == before.edges().len() + 1
    &&& !before.has_edge(sink) ==> exists|p: int| 0 <= p <= before.edges().len()
        && #[trigger] after.edges() == before.edges().insert(p, (sink, after.edges()[p].1))
        && after.edges()[p].1.attributes@ == Map::<Seq<char>, Value>::empty()
    &&& forall|s: u32| #[trigger] after.has_edge(s) <==> (before.has_edge(s) || s == sink)
}

/// Adding the same edge twice changes the node once: the second call finds the edge the first
/// one made, reports `Err`, and leaves the edges as they were, so the edge count grows by at
/// most one, and by exactly one when the edge was new.
pub proof fn lemma_add_edge_twice(
    n0: GraphNode,
    n1: GraphNode,
    n2: GraphNode,
    sink: u32,
    r1: Result<(), ()>,
    r2: Result<(), ()>,
)
    requires
        edge_added(n0, n1, sink, r1),
        edge_added(n1, n2, sink, r2),
    ensures
        r2 is Err,
        n2.edges() == n1.edges(),
        n2.edges().len() == n0.edges().len() + if n0.has_edge(sink) { 0int } else { 1int },
{
}

/// What adding the attribute `name = value` to the edge to `sink` does to a node: with no such
/// edge, nothing, and the result is `None`; otherwise only that edge changes, as adding to its
/// attributes does, and the result is what that addition gave.
pub open spec fn edge_attribute_added(
    before: GraphNode,
    after: GraphNode,
    sink: u32,
    name: Seq<char>,
    value: Value,
    r: Option<Result<(), ()>>,
) -> bool {
    &&& after.attrs() == before.attrs()
    &&& after.edges().len() == before.edges().len()
    &&& !before.has_edge(sink) ==> r is None && after.edges() == before.edges()
    &&& before.has_edge(sink) ==> r is Some && exists|p: int| {
        &&& 0 <= p < before.edges().len()
        &&& (#[trigger] before.edges()[p]).0 == sink
        &&& after.edges() == before.edges().update(p, (sink, after.edges()[p].1))
        &&& before.edges()[p].1.attributes@.contains_key(name) ==> (r matches Some(x) && x is Err)
            && after.edges()[p].1.attributes@ == before.edges()[p].1.attributes@
        &&& !before.edges()[p].1.attributes@.contains_key(name) ==> (r matches Some(x) && x is Ok)
            && after.edges()[p].1.attributes@ == before.edges()[p].1.attributes@.insert(name, value)
    }
}

impl GraphNode {
    /// The outgoing edges, each with the index of its sink, in increasing order of sink.
    pub closed spec fn edges(&self) -> Seq<(u32, Edge)> {
        edge_entries(self.outgoing_edges)
    }

    /// The attributes of this node.
    pub closed spec fn attrs(&self) -> Attributes {
        self.attributes
    }

    /// Sinks are unique and sorted; every attribute set is well formed.
    pub open spec fn wf(&self) -> bool {
        &&& sinks_increasing(self.edges())
        &&& self.attrs().wf()
        &&& forall|i: int| 0 <= i < self.edges().len() ==> (#[trigger] self.edges()[i]).1.attributes.wf()
    }

    /// Whether this node has an edge to the node with index `sink`.
    pub open spec fn has_edge(&self, sink: u32) -> bool {
        exists|i: int| 0 <= i < self.edges().len() && self.edges()[i].0 == sink
    }

    fn new() -> (r: GraphNode)
        ensures
            r.wf(),
            r.edges().len() == 0,
            r.attrs()@ == Map::<Seq<char>, crate::value::Value>::empty(),
    {
        GraphNode { outgoing_edges: edges_new(), attributes: Attributes::new() }
    }

    /// The first position whose sink is not below `sink`: the edge to `sink` is there when it
    /// exists, and a new one goes there otherwise.
    fn search(&self, sink: u32) -> (r: usize)
        requires
            sinks_increasing(self.edges()),
        ensures
            r <= self.edges().len(),
            forall|i: int| 0 <= i < r ==> self.edges()[i].0 < sink,
            forall|i: int| r <= i < self.edges().len() ==> self.edges()[i].0 >= sink,
    {
        let mut lo: usize = 0;
        let mut hi: usize = edges_len(&self.outgoing_edges);
        while lo < hi
            invariant
                lo <= hi <= self.edges().len(),
                sinks_increasing(self.edges()),
                forall|i: int| 0 <= i < lo ==> self.edges()[i].0 < sink,
                forall|i: int| hi <= i < self.edges().len() ==> self.edges()[i].0 >= sink,
            decreases hi - lo,
        {
            let mid = lo + (hi - lo) / 2;
            let entry = edges_get(&self.outgoing_edges, mid);
            if entry.0 < sink {
                lo = mid + 1;
            } else {
                hi = mid;
            }
        }
        lo
    }

    /// Adds an edge to the node with index `sink`.  There is at most one edge between two
    /// graph nodes: the result is `Ok` when the edge is new and `Err` when it already existed,
    /// in which case nothing changes.
    pub fn add_edge(&mut self, sink: GraphNodeRef) -> (r: Result<(), ()>)
        requires
            old(self).wf(),
        ensures
            final(self).wf(),
            edge_added(*old(self), *final(self), sink.0, r),
    {
        let p = self.search(sink.0);
        let ghost old_edges = self.edges();
        if p < edges_len(&self.outgoing_edges) && edges_get(&self.outgoing_edges, p).0 == sink.0 {
            proof {
                assert(old_edges[p as int].0 == sink.0);
            }
            return Err(());
        }
        proof {
            assert forall|i: int| 0 <= i < old_edges.len() implies old_edges[i].0 != sink.0 by {
                if i > p {
                    assert(old_edges[p as int].0 < old_edges[i].0);
                }
            }
        }
        let e = Edge::new();
        let ghost new_entry = (sink.0, e);
        edges_insert(&mut self.outgoing_edges, p, (sink.0, e));
        proof {
            let s = self.edges();
            assert(s == old_edges.insert(p as int, new_entry));
            assert(s[p as int] == new_entry);
            assert forall|i: int, j: int| 0 <= i < j < s.len() implies s[i].0 < s[j].0 by {
                if j < p {
                } else if j == p {
                } else if i < p {
                    assert(s[j] == old_edges[j - 1]);
                } else if i == p {
                    assert(s[j] == old_edges[j - 1]);
                } else {
                    assert(s[i] == old_edges[i - 1]);
                    assert(s[j] == old_edges[j - 1]);
                }
            }
            assert forall|i: int| 0 <= i < s.len() implies (#[trigger] s[i]).1.attributes.wf() by {
                if i < p {
                    assert(s[i] == old_edges[i]);
                } else if i > p {
                    assert(s[i] == old_edges[i - 1]);
                }
            }
            assert forall|t: u32| #[trigger] self.has_edge(t) <==> (old(self).has_edge(t) || t == sink.0) by {
                if exists|i: int| 0 <= i < old_edges.len() && old_edges[i].0 == t {
                    let i = choose|i: int| 0 <= i < old_edges.len() && old_edges[i].0 == t;
                    if i < p {
                        assert(s[i] == old_edges[i]);
                    } else {
                        assert(s[i + 1] == old_edges[i]);
                    }
                }
                if self.has_edge(t) {
                    let i = choose|i: int| 0 <= i < s.len() && s[i].0 == t;
                    if i < p {
                        assert(s[i] == old_edges[i]);
                    } else if i > p {
                        assert(s[i] == old_edges[i - 1]);
                    }
                }
            }
            assert(self.edges() == old_edges.insert(p as int, (sink.0, self.edges()[p as int].1)));
        }
        Ok(())
    }

    /// The outgoing edge to the node `sink`, if there is one.
    pub fn get_edge(&self, sink: GraphNodeRef) -> (r: Option<&Edge>)
        requires
            self.wf(),
        ensures
            self.has_edge(sink.0) ==> (r matches Some(e) && exists|i: int|
                0 <= i < self.edges().len() && self.edges()[i].0 == sink.0 && *e == self.edges()[i].1),
            !self.has_edge(sink.0) ==> r is None,
    {
        let p = self.search(sink.0);
        if p < edges_len(&self.outgoing_edges) {
            let entry = edges_get(&self.outgoing_edges, p);
            if entry.0 == sink.0 {
                return Some(&entry.1);
            }
        }
        proof {
            let s = self.edges();
            assert forall|i: int| 0 <= i < s.len() implies s[i].0 != sink.0 by {
                if i > p {
                    assert(s[p as int].0 < s[i].0);
                }
            }
        }
        None
    }

    /// Adds an attribute to the outgoing edge to `sink`.  The result is `None` when there is no
    /// such edge; otherwise it is what adding to the edge's attributes gave: `Err` when the name
    /// was already present, which leaves the edge as it was.
    pub fn add_edge_attribute(&mut self, sink: GraphNodeRef, name: String, value: Value) -> (r: Option<Result<(), ()>>)
        requires
            old(self).wf(),
        ensures
            final(self).wf(),
            edge_attribute_added(*old(self), *final(self), sink.0, name@, value, r),
    {
        let p = self.search(sink.0);
        let ghost old_edges = self.edges();
        if p < edges_len(&self.outgoing_edges) && edges_get(&self.outgoing_edges, p).0 == sink.0 {
            let ghost v = value;
            let ghost n = name@;
            let entry = edges_get_mut(&mut self.outgoing_edges, p);
            let r = entry.1.attributes.add(name, value);
            let ghost after = *entry;
            proof {
                assert(self.edges()[p as int] == after);
                let s = self.edges();
                assert(s[p as int].0 == sink.0);
                assert forall|i: int, j: int| 0 <= i < j < s.len() implies s[i].0 < s[j].0 by {
                    assert(old_edges[i].0 < old_edges[j].0);
                }
                assert forall|i: int| 0 <= i < s.len() implies (#[trigger] s[i]).1.attributes.wf() by {
                    if i != p {
                        assert(s[i] == old_edges[i]);
                    }
                }
                assert(s == old_edges.update(p as int, (sink.0, s[p as int].1)));
                let pi = p as int;
                assert(old_edges[pi].1.attributes@.contains_key(n) ==> r is Err
                    && s[pi].1.attributes@ == old_edges[pi].1.attributes@);
                assert(!old_edges[pi].1.attributes@.contains_key(n) ==> r is Ok
                    && s[pi].1.attributes@ == old_edges[pi].1.attributes@.insert(n, v));
            }
            return Some(r);
        }
        proof {
            let s = self.edges();
            assert forall|i: int| 0 <= i < s.len() implies s[i].0 != sink.0 by {
                if i > p {
                    assert(s[p as int].0 < s[i].0);
                }
            }
        }
        None
    }

    /// Adds an attribute to this node.  When the name is already present nothing changes, and
    /// the conflict is reported as `Err`.
    pub fn add_attribute(&mut self, name: String, value: Value) -> (r: Result<(), ()>)
        requires
            old(self).wf(),
        ensures
            final(self).wf(),
            final(self).edges() == old(self).edges(),
            old(self).attrs()@.contains_key(name@) ==> r is Err && final(self).attrs()@ == old(self).attrs()@,
            !old(self).attrs()@.contains_key(name@) ==> r is Ok && final(self).attrs()@ == old(self).attrs()@.insert(name@, value),
    {
        self.attributes.add(name, value)
    }

    /// The attributes of this node.
    pub fn attribute_set(&self) -> (r: &Attributes)
        ensures
            *r == self.attrs(),
    {
        &self.attributes
    }

    /// The outgoing edge at position `i` in order of sink, with the index of its sink.
    pub fn edge_at(&self, i: usize) -> (r: &(u32, Edge))
        requires
            i < self.edges().len(),
        ensures
            *r == self.edges()[i as int],
    {
        edges_get(&self.outgoing_edges, i)
    }

    /// A mutable borrow of the outgoing edge to `sink`, if there is one.  What is written through
    /// it is what the node then holds for that edge; nothing else changes.
    pub fn get_edge_mut(&mut self, sink: GraphNodeRef) -> (r: Option<&mut Edge>)
        requires
            sinks_increasing(old(self).edges()),
        ensures
            r is None <==> !old(self).has_edge(sink.0),
            final(self).attrs() == old(self).attrs(),
            r is None ==> final(self).edges() == old(self).edges(),
            r is Some ==> exists|p: int| {
                &&& 0 <= p < old(self).edges().len()
                &&& (#[trigger] old(self).edges()[p]).0 == sink.0
                &&& *r->Some_0 == old(self).edges()[p].1
                &&& final(self).edges() == old(self).edges().update(p, (sink.0, *final(r->Some_0)))
            },
    {
        let p = self.search(sink.0);
        if p < edges_len(&self.outgoing_edges) && edges_get(&self.outgoing_edges, p).0 == sink.0 {
            let entry = edges_get_mut(&mut self.outgoing_edges, p);
            return Some(&mut entry.1);
        }
        proof {
            let s = self.edges();
            assert forall|i: int| 0 <= i < s.len() implies s[i].0 != sink.0 by {
                if i > p {
                    assert(s[p as int].0 < s[i].0);
                }
            }
        }
        None
    }

    /// The outgoing edges, each with its sink, in order of sink.
    pub fn iter_edges(&self) -> (r: Vec<(GraphNodeRef, &Edge)>)
        ensures
            r@.len() == self.edges().len(),
            forall|i: int| 0 <= i < r@.len() ==> (#[trigger] r@[i]).0.0 == self.edges()[i].0 && *r@[i].1 == self.edges()[i].1,
    {
        let mut r: Vec<(GraphNodeRef, &Edge)> = Vec::new();
        let n = edges_len(&self.outgoing_edges);
        let mut i: usize = 0;
        while i < n
            invariant
                n == self.edges().len(),
                i <= n,
                r@.len() == i,
                forall|j: int| 0 <= j < i ==> (#[trigger] r@[j]).0.0 == self.edges()[j].0 && *r@[j].1 == self.edges()[j].1,
            decreases n - i,
        {
            let entry = edges_get(&self.outgoing_edges, i);
            r.push((GraphNodeRef(entry.0), &entry.1));
            i = i + 1;
        }
        r
    }

    /// The number of outgoing edges.
    pub fn edge_count(&self) -> (r: usize)
        ensures
            r == self.edges().len(),
    {
        edges_len(&self.outgoing_edges)
    }
}

/// A graph produced by executing graph statements: the syntax nodes that were referenced, by
/// identity, and the arena of graph nodes, whose positions are their references.
pub struct Graph {
    syntax_nodes: HashMap<u32, SyntaxNodeRef>,
    graph_nodes: Vec<GraphNode>,
}

impl Graph {
    /// The graph nodes, in the order in which they were added.
    pub closed spec fn nodes(&self) -> Seq<GraphNode> {
        self.graph_nodes@
    }

    /// The syntax nodes that were referenced, by identity.
    pub closed spec fn syntax(&self) -> Map<u32, SyntaxNodeRef> {
        self.syntax_nodes@
    }

    /// Every node is well formed, and every edge leads to a node of the arena.
    pub open spec fn wf(&self) -> bool {
        &&& self.nodes().len() <= u32::MAX
        &&& forall|i: int| 0 <= i < self.nodes().len() ==> (#[trigger] self.nodes()[i]).wf()
        &&& forall|i: int, j: int| 0 <= i < self.nodes().len() && 0 <= j < self.nodes()[i].edges().len()
            ==> (#[trigger] self.nodes()[i].edges()[j]).0 < self.nodes().len()
        &&& forall|k: u32| #[trigger] self.syntax().contains_key(k) ==> self.syntax()[k].index == k
    }

    /// Whether `r` refers to a node of this graph.
    pub open spec fn contains(&self, r: GraphNodeRef) -> bool {
        r.0 < self.nodes().len()
    }

    /// Creates a new, empty graph.
    pub fn new() -> (r: Graph)
        ensures
            r.wf(),
            r.nodes().len() == 0,
            r.syntax() == Map::<u32, SyntaxNodeRef>::empty(),
    {
        Graph { syntax_nodes: HashMap::new(), graph_nodes: Vec::new() }
    }

    /// Records a syntax node, by its identity, kind and start position, and returns a reference
    /// to it.  The first record of an identity is kept; later ones leave the table as it is.
    pub fn add_syntax_node(&mut self, node: SyntaxNodeRef) -> (r: SyntaxNodeRef)
        requires
            old(self).wf(),
        ensures
            final(self).wf(),
            final(self).nodes() == old(self).nodes(),
            old(self).syntax().contains_key(node.index) ==> final(self).syntax() == old(self).syntax(),
            !old(self).syntax().contains_key(node.index) ==> final(self).syntax() == old(self).syntax().insert(node.index, node),
            r.index == node.index,
            r.kind@ == node.kind@,
            r.row == node.row,
            r.column == node.column,
    {
        let r = node.duplicate();
        if !self.syntax_nodes.contains_key(&node.index) {
            self.syntax_nodes.insert(node.index, node);
        }
        proof {
            assert forall|k: u32| #[trigger] self.syntax().contains_key(k) implies self.syntax()[k].index == k by {
                if k != r.index {
                    assert(old(self).syntax().contains_key(k));
                }
            }
        }
        r
    }

    /// The recorded syntax node that `r` refers to.
    pub fn syntax_node(&self, r: &SyntaxNodeRef) -> (n: &SyntaxNodeRef)
        requires
            self.syntax().contains_key(r.index),
        ensures
            *n == self.syntax()[r.index],
    {
        self.syntax_nodes.get(&r.index).unwrap()
    }

    /// Adds a new graph node, with no attributes and no edges, and returns a reference to it.
    pub fn add_graph_node(&mut self) -> (r: GraphNodeRef)
        requires
            old(self).wf(),
            old(self).nodes().len() < u32::MAX,
        ensures
            final(self).wf(),
            r.0 == old(self).nodes().len(),
            final(self).nodes().len() == old(self).nodes().len() + 1,
            final(self).nodes().subrange(0, r.0 as int) == old(self).nodes(),
            final(self).nodes()[r.0 as int].edges().len() == 0,
            final(self).nodes()[r.0 as int].attrs()@ == Map::<Seq<char>, Value>::empty(),
            final(self).syntax() == old(self).syntax(),
    {
        let index = self.graph_nodes.len() as u32;
        self.graph_nodes.push(GraphNode::new());
        proof {
            assert(self.nodes().subrange(0, index as int) =~= old(self).nodes());
            let ns = self.nodes();
            assert forall|i: int| 0 <= i < ns.len() implies (#[trigger] ns[i]).wf() by {
                if i < index {
                    assert(ns[i] == old(self).nodes()[i]);
                }
            }
            assert forall|i: int, j: int| 0 <= i < ns.len() && 0 <= j < ns[i].edges().len()
                implies (#[trigger] ns[i].edges()[j]).0 < ns.len() by {
                if i < index {
                    assert(ns[i] == old(self).nodes()[i]);
                }
            }
            assert(ns.len() <= u32::MAX);
            assert(self.syntax() == old(self).syntax());
        }
        GraphNodeRef(index)
    }

    /// The number of graph nodes.
    pub fn node_count(&self) -> (r: usize)
        ensures
            r == self.nodes().len(),
    {
        self.graph_nodes.len()
    }

    /// References to all graph nodes, in arena order.
    pub fn iter_nodes(&self) -> (r: Vec<GraphNodeRef>)
        requires
            self.wf(),
        ensures
            r@.len() == self.nodes().len(),
            forall|i: int| 0 <= i < r@.len() ==> (#[trigger] r@[i]).0 == i,
    {
        let mut r: Vec<GraphNodeRef> = Vec::new();
        let n = self.graph_nodes.len();
        let mut i: usize = 0;
        while i < n
            invariant
                n == self.nodes().len(),
                n <= u32::MAX,
                i <= n,
                r@.len() == i,
                forall|j: int| 0 <= j < i ==> (#[trigger] r@[j]).0 == j,
            decreases n - i,
        {
            r.push(GraphNodeRef(i as u32));
            i = i + 1;
        }
        r
    }

    /// Adds an edge from `source` to `sink`; adding one that exists changes nothing.  The
    /// result is `Ok` for a new edge and `Err` for an existing one.
    pub fn add_edge(&mut self, source: GraphNodeRef, sink: GraphNodeRef) -> (r: Result<(), ()>)
        requires
            old(self).wf(),
            old(self).contains(source),
            old(self).contains(sink),
        ensures
            final(self).wf(),
            final(self).syntax() == old(self).syntax(),
            final(self).nodes().len() == old(self).nodes().len(),
            edge_added(old(self).nodes()[source.0 as int], final(self).nodes()[source.0 as int], sink.0, r),
            forall|i: int| 0 <= i < old(self).nodes().len() && i != source.0 ==> final(self).nodes()[i] == old(self).nodes()[i],
    {
        let i = source.0 as usize;
        let r = self.graph_nodes[i].add_edge(sink);
        proof {
            let ns = self.nodes();
            let os = old(self).nodes();
            assert forall|k: int| 0 <= k < os.len() && k != i implies ns[k] == os[k] by {}
            assert forall|k: int| 0 <= k < ns.len() implies (#[trigger] ns[k]).wf() by {
                if k != i {
                    assert(ns[k] == os[k]);
                }
            }
            assert forall|k: int, j: int| 0 <= k < ns.len() && 0 <= j < ns[k].edges().len()
                implies (#[trigger] ns[k].edges()[j]).0 < ns.len() by {
                if k != i {
                    assert(ns[k] == os[k]);
                } else {
                    let t = ns[k].edges()[j].0;
                    assert(ns[k].has_edge(t));
                    if t != sink.0 {
                        assert(os[k].has_edge(t));
                        let jj = choose|jj: int| 0 <= jj < os[k].edges().len() && os[k].edges()[jj].0 == t;
                        assert(os[k].edges()[jj].0 < os.len());
                    }
                }
            }
            assert(self.syntax() == old(self).syntax());
        }
        r
    }

    /// Adds an attribute to the graph node `node`.  When the name is already present nothing
    /// changes, and the conflict is reported as `Err`.
    pub fn add_node_attribute(&mut self, node: GraphNodeRef, name: String, value: Value) -> (r: Result<(), ()>)
        requires
            old(self).wf(),
            old(self).contains(node),
        ensures
            final(self).wf(),
            final(self).syntax() == old(self).syntax(),
            final(self).nodes().len() == old(self).nodes().len(),
            final(self).nodes()[node.0 as int].edges() == old(self).nodes()[node.0 as int].edges(),
            old(self).nodes()[node.0 as int].attrs()@.contains_key(name@) ==> r is Err
                && final(self).nodes()[node.0 as int].attrs()@ == old(self).nodes()[node.0 as int].attrs()@,
            !old(self).nodes()[node.0 as int].attrs()@.contains_key(name@) ==> r is Ok
                && final(self).nodes()[node.0 as int].attrs()@ == old(self).nodes()[node.0 as int].attrs()@.insert(name@, value),
            forall|i: int| 0 <= i < old(self).nodes().len() && i != node.0 ==> final(self).nodes()[i] == old(self).nodes()[i],
    {
        let i = node.0 as usize;
        let r = self.graph_nodes[i].add_attribute(name, value);
        proof {
            let ns = self.nodes();
            let os = old(self).nodes();
            assert forall|k: int| 0 <= k < os.len() && k != i implies ns[k] == os[k] by {}
            assert forall|k: int| 0 <= k < ns.len() implies (#[trigger] ns[k]).wf() by {
                if k != i {
                    assert(ns[k] == os[k]);
                }
            }
            assert forall|k: int, j: int| 0 <= k < ns.len() && 0 <= j < ns[k].edges().len()
                implies (#[trigger] ns[k].edges()[j]).0 < ns.len() by {
                if k != i {
                    assert(ns[k] == os[k]);
                } else {
                    assert(ns[k].edges()[j] == os[k].edges()[j]);
                }
            }
            assert(self.syntax() == old(self).syntax());
        }
        r
    }

    /// Adds an attribute to the edge from `source` to `sink`.  The result is `None` when there is
    /// no such edge; otherwise it is `Err` when the name was already present, which leaves the
    /// edge as it was, and `Ok` when the attribute was added.
    pub fn add_edge_attribute(&mut self, source: GraphNodeRef, sink: GraphNodeRef, name: String, value: Value)
        -> (r: Option<Result<(), ()>>)
        requires
            old(self).wf(),
            old(self).contains(source),
        ensures
            final(self).wf(),
            final(self).syntax() == old(self).syntax(),
            final(self).nodes().len() == old(self).nodes().len(),
            edge_attribute_added(old(self).nodes()[source.0 as int], final(self).nodes()[source.0 as int], sink.0, name@, value, r),
            forall|i: int| 0 <= i < old(self).nodes().len() && i != source.0 ==> final(self).nodes()[i] == old(self).nodes()[i],
    {
        let i = source.0 as usize;
        let r = self.graph_nodes[i].add_edge_attribute(sink, name, value);
        proof {
            let ns = self.nodes();
            let os = old(self).nodes();
            assert forall|k: int| 0 <= k < os.len() && k != i implies ns[k] == os[k] by {}
            assert forall|k: int| 0 <= k < ns.len() implies (#[trigger] ns[k]).wf() by {
                if k != i {
                    assert(ns[k] == os[k]);
                }
            }
            assert forall|k: int, j: int| 0 <= k < ns.len() && 0 <= j < ns[k].edges().len()
                implies (#[trigger] ns[k].edges()[j]).0 < ns.len() by {
                if k != i {
                    assert(ns[k] == os[k]);
                } else {
                    assert(ns[k].edges()[j].0 == os[k].edges()[j].0);
                }
            }
            assert(self.syntax() == old(self).syntax());
        }
        r
    }

    /// A mutable borrow of the edge from `source` to `sink`, if there is one.  What is written
    /// through it is what the graph then holds for that edge; nothing else changes.
    pub fn get_edge_mut(&mut self, source: GraphNodeRef, sink: GraphNodeRef) -> (r: Option<&mut Edge>)
        requires
            old(self).wf(),
            old(self).contains(source),
        ensures
            r is None <==> !old(self).nodes()[source.0 as int].has_edge(sink.0),
            final(self).syntax() == old(self).syntax(),
            final(self).nodes().len() == old(self).nodes().len(),
            forall|i: int| 0 <= i < old(self).nodes().len() && i != source.0 ==> final(self).nodes()[i] == old(self).nodes()[i],
            final(self).nodes()[source.0 as int].attrs() == old(self).nodes()[source.0 as int].attrs(),
            r is None ==> final(self).nodes()[source.0 as int].edges() == old(self).nodes()[source.0 as int].edges(),
            r is Some ==> exists|p: int| {
                &&& 0 <= p < old(self).nodes()[source.0 as int].edges().len()
                &&& (#[trigger] old(self).nodes()[source.0 as int].edges()[p]).0 == sink.0
                &&& *r->Some_0 == old(self).nodes()[source.0 as int].edges()[p].1
                &&& final(self).nodes()[source.0 as int].edges() == old(self).nodes()[source.0 as int].edges().update(
                    p,
                    (sink.0, *final(r->Some_0)),
                )
            },
    {
        let i = source.0 as usize;
        self.graph_nodes[i].get_edge_mut(sink)
    }

    /// The graph node that `r` refers to.
    pub fn node(&self, r: GraphNodeRef) -> (n: &GraphNode)
        requires
            self.contains(r),
        ensures
            *n == self.nodes()[r.0 as int],
    {
        &self.graph_nodes[r.0 as usize]
    }
}

impl Value {
    /// The recorded syntax node that this value refers to, or an error naming what the value
    /// is instead.
    pub fn into_syntax_node(self, graph: &Graph) -> (r: Result<&SyntaxNodeRef, ExecutionError>)
        requires
            self is SyntaxNode ==> graph.syntax().contains_key(self->SyntaxNode_0.index),
        ensures
            self is SyntaxNode ==> (r matches Ok(n) && *n == graph.syntax()[self->SyntaxNode_0.index]),
            !(self is SyntaxNode) ==> (r matches Err(ExecutionError::ExpectedSyntaxNode(m)) && m@ == got_text(self)),
    {
        match self.into_syntax_node_ref() {
            Ok(node) => Ok(graph.syntax_node(&node)),
            Err(e) => Err(e),
        }
    }
}

} // verus!
