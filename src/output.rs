//! Deterministic renderings of a graph: the order of its records, and its text dump.
use vstd::prelude::*;
use crate::attributes::{lemma_name_lt_total, lemma_name_lt_transitive, name_lt, Attributes};
use crate::graph::{Graph, GraphNode};
use crate::value::{decimal, decimal_text, display_of, Value};

verus! {

/// Whether `o` lists the positions of the entries of `a` in increasing order of name.  Names
/// are unique, so `o` lists every position once.
pub open spec fn sorted_order(a: Attributes, o: Seq<usize>) -> bool {
    &&& o.len() == a.entries().len()
    &&& forall|i: int| 0 <= i < o.len() ==> o[i] < a.entries().len()
    &&& forall|i: int, j: int| 0 <= i < j < o.len() ==> name_lt(
        #[trigger] a.name_at(o[i] as int), #[trigger] a.name_at(o[j] as int))
}

/// An edge in a structured rendering: its sink, and the positions of its attributes in order
/// of name.
pub struct EdgeRecord {
    pub sink: u32,
    pub attrs: Vec<usize>,
}

/// A node in a structured rendering: its index, its edges in order of sink, and the positions
/// of its attributes in order of name.
pub struct NodeRecord {
    pub id: usize,
    pub edges: Vec<EdgeRecord>,
    pub attrs: Vec<usize>,
}

/// Whether `rec` renders the node `n` with index `id`.
pub open spec fn renders_node(n: GraphNode, id: int, rec: NodeRecord) -> bool {
    &&& rec.id == id
    &&& sorted_order(n.attrs(), rec.attrs@)
    &&& rec.edges@.len() == n.edges().len()
    &&& forall|j: int| 0 <= j < rec.edges@.len() ==> {
        &&& (#[trigger] rec.edges@[j]).sink == n.edges()[j].0
        &&& sorted_order(n.edges()[j].1.attributes, rec.edges@[j].attrs@)
    }
}

/// Whether `recs` renders the graph `g`: one record per node, in arena order.
pub open spec fn renders_graph(g: Graph, recs: Seq<NodeRecord>) -> bool {
    &&& recs.len() == g.nodes().len()
    &&& forall|i: int| 0 <= i < recs.len() ==> renders_node(g.nodes()[i], i, #[trigger] recs[i])
}

impl Attributes {
    /// The positions of the entries in order of name, as a rendering lists them.
    pub fn ordered(&self) -> (r: Vec<usize>)
        requires
            self.wf(),
        ensures
            sorted_order(*self, r@),
    {
        self.sorted_positions()
    }
}

impl Graph {
    /// The structured rendering of this graph: nodes in arena order, each node's edges in order
    /// of sink, and each attribute set in order of name.
    pub fn records(&self) -> (r: Vec<NodeRecord>)
        requires
            self.wf(),
        ensures
            renders_graph(*self, r@),
    {
        let mut r: Vec<NodeRecord> = Vec::new();
        let n = self.node_count();
        let mut i: usize = 0;
        while i < n
            invariant
                self.wf(),
                n == self.nodes().len(),
                i <= n,
                r@.len() == i,
                forall|k: int| 0 <= k < i ==> renders_node(self.nodes()[k], k, #[trigger] r@[k]),
            decreases n - i,
        {
            let node = self.node(crate::value::GraphNodeRef(i as u32));
            let rec = node_record(node, i);
            r.push(rec);
            i = i + 1;
        }
        r
    }
}

/// The structured rendering of the node `node` with index `id`.
fn node_record(node: &GraphNode, id: usize) -> (r: NodeRecord)
    requires
        node.wf(),
    ensures
        renders_node(*node, id as int, r),
{
    let mut edges: Vec<EdgeRecord> = Vec::new();
    let m = node.edge_count();
    let mut j: usize = 0;
    while j < m
        invariant
            node.wf(),
            m == node.edges().len(),
            j <= m,
            edges@.len() == j,
            forall|k: int| 0 <= k < j ==> {
                &&& (#[trigger] edges@[k]).sink == node.edges()[k].0
                &&& sorted_order(node.edges()[k].1.attributes, edges@[k].attrs@)
            },
        decreases m - j,
    {
        let entry = node.edge_at(j);
        let attrs = entry.1.attributes.ordered();
        edges.push(EdgeRecord { sink: entry.0, attrs });
        j = j + 1;
    }
    NodeRecord { id, edges, attrs: node.attribute_set().ordered() }
}

/// The line that a text dump writes for one attribute.
pub open spec fn attr_line(e: (String, Value)) -> Seq<char> {
    "  "@ + e.0@ + ": "@ + display_of(e.1) + "\n"@
}

/// The lines of the attributes of `a` at the positions `o`, in that order.
pub open spec fn attr_lines(a: Attributes, o: Seq<usize>) -> Seq<char>
    decreases o.len(),
{
    if o.len() == 0 {
        Seq::empty()
    } else {
        attr_lines(a, o.drop_last()) + attr_line(a.entries()[o.last() as int])
    }
}

/// The text of the first `m` edges of the node `n` with index `id`: a line `edge id -> sink`,
/// then the edge's attributes.
pub open spec fn edges_text(n: GraphNode, id: int, rec: NodeRecord, m: int) -> Seq<char>
    decreases m,
{
    if m <= 0 {
        Seq::empty()
    } else {
        edges_text(n, id, rec, m - 1) + "edge "@ + decimal(id as nat) + " -> "@ + decimal(
            n.edges()[m - 1].0 as nat) + "\n"@ + attr_lines(n.edges()[m - 1].1.attributes, rec.edges@[m - 1].attrs@)
    }
}

/// The text of the node `n` with index `id`: a line `node id`, its attributes, then its edges.
pub open spec fn node_text(n: GraphNode, id: int, rec: NodeRecord) -> Seq<char> {
    "node "@ + decimal(id as nat) + "\n"@ + attr_lines(n.attrs(), rec.attrs@) + edges_text(n, id, rec, n.edges().len() as int)
}

/// The text of the first `m` nodes of `g`.
pub open spec fn graph_text(g: Graph, recs: Seq<NodeRecord>, m: int) -> Seq<char>
    decreases m,
{
    if m <= 0 {
        Seq::empty()
    } else {
        graph_text(g, recs, m - 1) + node_text(g.nodes()[m - 1], m - 1, recs[m - 1])
    }
}

/// Appends the lines of the attributes of `a` at the positions `o`.
fn push_attr_lines(out: &mut String, a: &Attributes, o: &Vec<usize>)
    requires
        forall|i: int| 0 <= i < o@.len() ==> o@[i] < a.entries().len(),
    ensures
        final(out)@ == old(out)@ + attr_lines(*a, o@),
{
    let entries = a.iter();
    let mut i: usize = 0;
    while i < o.len()
        invariant
            entries@ == a.entries(),
            forall|k: int| 0 <= k < o@.len() ==> o@[k] < a.entries().len(),
            i <= o@.len(),
            out@ == old(out)@ + attr_lines(*a, o@.subrange(0, i as int)),
        decreases o@.len() - i,
    {
        let e = &entries[o[i]];
        out.append("  ");
        out.append(e.0.as_str());
        out.append(": ");
        let t = e.1.display();
        out.append(t.as_str());
        out.append("\n");
        proof {
            assert(o@.subrange(0, i + 1).drop_last() =~= o@.subrange(0, i as int));
        }
        i = i + 1;
    }
    proof {
        assert(o@.subrange(0, o@.len() as int) =~= o@);
    }
}

/// Appends the lines of the edges of the node `node` with index `id`, whose text is `t`.
fn push_edge_lines(out: &mut String, node: &GraphNode, rec: &NodeRecord, id: usize, t: &String)
    requires
        node.wf(),
        renders_node(*node, id as int, *rec),
        t@ == decimal(id as nat),
    ensures
        final(out)@ == old(out)@ + edges_text(*node, id as int, *rec, node.edges().len() as int),
{
    let m = node.edge_count();
    let mut j: usize = 0;
    while j < m
        invariant
            node.wf(),
            renders_node(*node, id as int, *rec),
            m == node.edges().len(),
            t@ == decimal(id as nat),
            j <= m,
            out@ == old(out)@ + edges_text(*node, id as int, *rec, j as int),
        decreases m - j,
    {
        let entry = node.edge_at(j);
        assert(rec.edges@[j as int].sink == entry.0);
        let ghost mid = out@;
        out.append("edge ");
        out.append(t.as_str());
        out.append(" -> ");
        let u = decimal_text(entry.0 as u128);
        out.append(u.as_str());
        out.append("\n");
        push_attr_lines(out, &entry.1.attributes, &rec.edges[j].attrs);
        proof {
            assert(out@ =~= mid + ("edge "@ + decimal(id as nat) + " -> "@ + decimal(entry.0 as nat) + "\n"@
                + attr_lines(entry.1.attributes, rec.edges@[j as int].attrs@)));
            assert(edges_text(*node, id as int, *rec, j + 1) =~= edges_text(*node, id as int, *rec, j as int)
                + ("edge "@ + decimal(id as nat) + " -> "@ + decimal(entry.0 as nat) + "\n"@
                + attr_lines(entry.1.attributes, rec.edges@[j as int].attrs@)));
        }
        j = j + 1;
    }
}

impl Graph {
    /// A text dump of this graph: for each node in arena order, a line `node i`, its attributes
    /// in order of name, one per line as `  name: value`, then for each edge in order of sink a
    /// line `edge i -> sink` followed by the edge's attributes.
    pub fn pretty_print(&self) -> (r: String)
        requires
            self.wf(),
        ensures
            exists|recs: Seq<NodeRecord>| renders_graph(*self, recs),
            forall|recs: Seq<NodeRecord>| renders_graph(*self, recs) ==> r@ == graph_text(*self, recs, recs.len() as int),
    {
        let recs = self.records();
        let mut out = String::new();
        let n = recs.len();
        let mut i: usize = 0;
        while i < n
            invariant
                self.wf(),
                renders_graph(*self, recs@),
                n == recs@.len(),
                i <= n,
                out@ == graph_text(*self, recs@, i as int),
            decreases n - i,
        {
            let node = self.node(crate::value::GraphNodeRef(i as u32));
            let rec = &recs[i];
            assert(renders_node(self.nodes()[i as int], i as int, recs@[i as int]));
            let ghost before = out@;
            out.append("node ");
            let t = decimal_text(i as u128);
            out.append(t.as_str());
            out.append("\n");
            push_attr_lines(&mut out, node.attribute_set(), &rec.attrs);
            push_edge_lines(&mut out, node, rec, i, &t);
            proof {
                assert(out@ =~= before + node_text(*node, i as int, *rec));
            }
            i = i + 1;
        }
        proof {
            assert(renders_graph(*self, recs@));
            assert forall|other: Seq<NodeRecord>| renders_graph(*self, other) implies out@ == graph_text(
                *self, other, other.len() as int) by {
                lemma_graph_text_agree(*self, recs@, other, n as int);
            }
        }
        out
    }
}

/// Every position of the entries occurs in a sorted order of them.
proof fn lemma_sorted_order_covers(a: Attributes, o: Seq<usize>, x: int)
    requires
        sorted_order(a, o),
        0 <= x < a.entries().len(),
    ensures
        exists|i: int| 0 <= i < o.len() && o[i] == x,
{
    let n = a.entries().len() as int;
    let oi = o.map_values(|v: usize| v as int);
    assert forall|i: int, j: int| 0 <= i < oi.len() && 0 <= j < oi.len() && i != j implies oi[i] != oi[j] by {
        lemma_name_lt_total(a.name_at(o[i] as int), a.name_at(o[i] as int));
        if i < j {
            assert(name_lt(a.name_at(o[i] as int), a.name_at(o[j] as int)));
        } else {
            assert(name_lt(a.name_at(o[j] as int), a.name_at(o[i] as int)));
        }
    }
    assert(oi.no_duplicates());
    oi.unique_seq_to_set();
    vstd::set_lib::lemma_int_range(0, n);
    let range = vstd::set_lib::set_int_range(0, n);
    assert forall|v: int| oi.to_set().contains(v) implies range.contains(v) by {
        let i = choose|i: int| 0 <= i < oi.len() && oi[i] == v;
        assert(o[i] < n);
    }
    vstd::set_lib::lemma_len_subset(oi.to_set(), range);
    vstd::set_lib::lemma_subset_equality(oi.to_set(), range);
    assert(range.contains(x));
    assert(oi.to_set().contains(x));
    let i = choose|i: int| 0 <= i < oi.len() && oi[i] == x;
    assert(o[i] == x);
}

/// An attribute set has one sorted order: a rendering of it is determined.
pub proof fn lemma_sorted_order_unique(a: Attributes, o1: Seq<usize>, o2: Seq<usize>)
    requires
        sorted_order(a, o1),
        sorted_order(a, o2),
    ensures
        o1 == o2,
{
    assert forall|i: int| 0 <= i < o1.len() implies o1[i] == o2[i] by {
        lemma_sorted_orders_agree_upto(a, o1, o2, i + 1);
    }
    assert(o1 =~= o2);
}

proof fn lemma_sorted_orders_agree_upto(a: Attributes, o1: Seq<usize>, o2: Seq<usize>, m: int)
    requires
        sorted_order(a, o1),
        sorted_order(a, o2),
        0 <= m <= o1.len(),
    ensures
        forall|i: int| 0 <= i < m ==> o1[i] == o2[i],
    decreases m,
{
    if m > 0 {
        lemma_sorted_orders_agree_upto(a, o1, o2, m - 1);
        let i = m - 1;
        let x = o1[i] as int;
        let y = o2[i] as int;
        if x != y {
            lemma_sorted_order_covers(a, o2, x);
            lemma_sorted_order_covers(a, o1, y);
            let j = choose|j: int| 0 <= j < o2.len() && o2[j] == x;
            let k = choose|k: int| 0 <= k < o1.len() && o1[k] == y;
            let nx = a.name_at(x);
            let ny = a.name_at(y);
            lemma_name_lt_total(nx, nx);
            lemma_name_lt_total(ny, ny);
            if j < i {
                assert(o1[j] == o2[j]);
                assert(name_lt(a.name_at(o1[j] as int), a.name_at(o1[i] as int)));
            } else if k < i {
                assert(o1[k] == o2[k]);
                assert(name_lt(a.name_at(o2[k] as int), a.name_at(o2[i] as int)));
            } else {
                assert(j != i && k != i);
                assert(name_lt(ny, nx));
                assert(name_lt(nx, ny));
                lemma_name_lt_transitive(nx, ny, nx);
            }
        }
    }
}

proof fn lemma_edges_text_agree(n: GraphNode, id: int, r1: NodeRecord, r2: NodeRecord, m: int)
    requires
        renders_node(n, id, r1),
        renders_node(n, id, r2),
        m <= n.edges().len(),
    ensures
        edges_text(n, id, r1, m) == edges_text(n, id, r2, m),
    decreases m,
{
    if m > 0 {
        lemma_edges_text_agree(n, id, r1, r2, m - 1);
        assert(sorted_order(n.edges()[m - 1].1.attributes, r1.edges@[m - 1].attrs@));
        assert(sorted_order(n.edges()[m - 1].1.attributes, r2.edges@[m - 1].attrs@));
        lemma_sorted_order_unique(n.edges()[m - 1].1.attributes, r1.edges@[m - 1].attrs@, r2.edges@[m - 1].attrs@);
    }
}

proof fn lemma_graph_text_agree(g: Graph, recs1: Seq<NodeRecord>, recs2: Seq<NodeRecord>, m: int)
    requires
        renders_graph(g, recs1),
        renders_graph(g, recs2),
        m <= recs1.len(),
    ensures
        graph_text(g, recs1, m) == graph_text(g, recs2, m),
    decreases m,
{
    if m > 0 {
        lemma_graph_text_agree(g, recs1, recs2, m - 1);
        let n = g.nodes()[m - 1];
        assert(renders_node(n, m - 1, recs1[m - 1]));
        assert(renders_node(n, m - 1, recs2[m - 1]));
        lemma_sorted_order_unique(n.attrs(), recs1[m - 1].attrs@, recs2[m - 1].attrs@);
        lemma_edges_text_agree(n, m - 1, recs1[m - 1], recs2[m - 1], n.edges().len() as int);
    }
}

} // verus!
