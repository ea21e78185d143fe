//! Graph-node identity by content: the node named by a syntax node and a tag path is created
//! on first use, and the same node is returned on every later use.
use vstd::prelude::*;
use crate::attributes::str_eq;
use crate::graph::Graph;
use crate::value::{ExecutionError, GraphNodeRef, Value};

verus! {

/// The graph nodes named so far, keyed by syntax-node identity and tag path.
pub struct NodeIdentities {
    entries: Vec<(u32, String, GraphNodeRef)>,
}

impl View for NodeIdentities {
    type V = Map<(u32, Seq<char>), GraphNodeRef>;

    closed spec fn view(&self) -> Map<(u32, Seq<char>), GraphNodeRef> {
        Map::new(
            |k: (u32, Seq<char>)| exists|i: int| 0 <= i < self.entries@.len() && self.key_at(i) == k,
            |k: (u32, Seq<char>)| self.entries@[choose|i: int| 0 <= i < self.entries@.len() && self.key_at(i) == k].2,
        )
    }
}

/// What resolving the key `k` does: a key seen before gives its node and changes nothing;
/// a new key gets a new node at the end of the arena, recorded under the key.
pub open spec fn resolved(
    m0: NodeIdentities,
    g0: Graph,
    m1: NodeIdentities,
    g1: Graph,
    k: (u32, Seq<char>),
    r: GraphNodeRef,
) -> bool {
    &&& m0@.contains_key(k) ==> r == m0@[k] && m1@ == m0@ && g1 == g0
    &&& !m0@.contains_key(k) ==> {
        &&& r.0 == g0.nodes().len()
        &&& g1.nodes().len() == g0.nodes().len() + 1
        &&& g1.nodes().subrange(0, r.0 as int) == g0.nodes()
        &&& g1.nodes()[r.0 as int].edges().len() == 0
        &&& g1.nodes()[r.0 as int].attrs()@ == Map::<Seq<char>, crate::value::Value>::empty()
        &&& g1.syntax() == g0.syntax()
        &&& m1@ == m0@.insert(k, r)
    }
}

/// Resolving a key a second time gives the node of the first time and does not grow the arena.
pub proof fn lemma_resolve_twice(
    m0: NodeIdentities,
    g0: Graph,
    m1: NodeIdentities,
    g1: Graph,
    m2: NodeIdentities,
    g2: Graph,
    k: (u32, Seq<char>),
    r1: GraphNodeRef,
    r2: GraphNodeRef,
)
    requires
        resolved(m0, g0, m1, g1, k, r1),
        resolved(m1, g1, m2, g2, k, r2),
    ensures
        r2 == r1,
        g2.nodes().len() == g1.nodes().len(),
        g2 == g1,
        m2@ == m1@,
{
}

impl NodeIdentities {
    spec fn key_at(&self, i: int) -> (u32, Seq<char>) {
        (self.entries@[i].0, self.entries@[i].1@)
    }

    /// No key occurs twice.
    pub closed spec fn keys_unique(&self) -> bool {
        forall|i: int, j: int| 0 <= i < self.entries@.len() && 0 <= j < self.entries@.len() && i != j
            ==> #[trigger] self.key_at(i) != #[trigger] self.key_at(j)
    }

    /// Keys are unique, no node is named twice, and every node lies below `bound`.
    pub closed spec fn wf(&self, bound: nat) -> bool {
        &&& self.keys_unique()
        &&& forall|i: int, j: int| 0 <= i < self.entries@.len() && 0 <= j < self.entries@.len() && i != j
            ==> #[trigger] self.entries@[i].2 != #[trigger] self.entries@[j].2
        &&& forall|i: int| 0 <= i < self.entries@.len() ==> (#[trigger] self.entries@[i]).2.0 < bound
    }

    /// A table with no names.
    pub fn new() -> (r: NodeIdentities)
        ensures
            r@ == Map::<(u32, Seq<char>), GraphNodeRef>::empty(),
            forall|b: nat| r.wf(b),
            r.keys_unique(),
    {
        let r = NodeIdentities { entries: Vec::new() };
        assert(r@ =~= Map::<(u32, Seq<char>), GraphNodeRef>::empty());
        r
    }

    /// The node named by the syntax node `syntax` and the tag path `path`, if there is one.
    pub fn lookup(&self, syntax: u32, path: &str) -> (r: Option<GraphNodeRef>)
        requires
            self.keys_unique(),
        ensures
            self@.contains_key((syntax, path@)) ==> r == Some(self@[(syntax, path@)]),
            !self@.contains_key((syntax, path@)) ==> r is None,
    {
        let mut i: usize = 0;
        while i < self.entries.len()
            invariant
                self.keys_unique(),
                i <= self.entries@.len(),
                forall|j: int| 0 <= j < i ==> self.key_at(j) != (syntax, path@),
            decreases self.entries@.len() - i,
        {
            let e = &self.entries[i];
            if e.0 == syntax && str_eq(e.1.as_str(), path) {
                proof {
                    assert(self.key_at(i as int) == (syntax, path@));
                    let j = choose|j: int| 0 <= j < self.entries@.len() && self.key_at(j) == (syntax, path@);
                    assert(j == i);
                }
                return Some(e.2);
            }
            i = i + 1;
        }
        None
    }

    /// The graph node named by the syntax node `syntax` and the tag path `path`.  The first use
    /// of a name adds a new node to `graph` and records it; every later use returns that node.
    pub fn resolve(&mut self, graph: &mut Graph, syntax: u32, path: &str) -> (r: GraphNodeRef)
        requires
            old(self).wf(old(graph).nodes().len()),
            old(graph).wf(),
            old(graph).nodes().len() < u32::MAX,
        ensures
            final(self).wf(final(graph).nodes().len()),
            final(graph).wf(),
            resolved(*old(self), *old(graph), *final(self), *final(graph), (syntax, path@), r),
            r.0 < final(graph).nodes().len(),
    {
        match self.lookup(syntax, path) {
            Some(r) => {
                proof {
                    let k = (syntax, path@);
                    let i = choose|i: int| 0 <= i < self.entries@.len() && self.key_at(i) == k;
                    assert(self.entries@[i].2.0 < graph.nodes().len());
                }
                r
            },
            None => {
                let r = graph.add_graph_node();
                let ghost m0 = self@;
                let ghost s0 = self.entries@;
                let owned = path.to_owned();
                self.entries.push((syntax, owned, r));
                proof {
                    let k = (syntax, path@);
                    let s1 = self.entries@;
                    assert(s1 == s0.push((syntax, owned, r)));
                    assert(self.key_at(s0.len() as int) == k);
                    assert forall|i: int| 0 <= i < s0.len() implies self.key_at(i) == (s0[i].0, s0[i].1@) by {
                        assert(s1[i] == s0[i]);
                    }
                    assert forall|i: int| 0 <= i < s0.len() implies (s0[i].0, s0[i].1@) != k by {
                        if (s0[i].0, s0[i].1@) == k {
                            assert(old(self).key_at(i) == k);
                        }
                    }
                    assert forall|i: int, j: int| 0 <= i < s1.len() && 0 <= j < s1.len() && i != j
                        implies #[trigger] self.key_at(i) != #[trigger] self.key_at(j) by {
                        if i < s0.len() && j < s0.len() {
                            assert(old(self).key_at(i) != old(self).key_at(j));
                        }
                    }
                    assert forall|x: (u32, Seq<char>)| #[trigger] self@.contains_key(x) == (m0.contains_key(x) || x == k) by {
                        if m0.contains_key(x) {
                            let i = choose|i: int| 0 <= i < s0.len() && old(self).key_at(i) == x;
                            assert(self.key_at(i) == x);
                        }
                        if x == k {
                            assert(self.key_at(s0.len() as int) == x);
                        }
                        if self@.contains_key(x) && x != k {
                            let i = choose|i: int| 0 <= i < s1.len() && self.key_at(i) == x;
                            assert(i < s0.len());
                            assert(old(self).key_at(i) == x);
                        }
                    }
                    assert forall|x: (u32, Seq<char>)| #[trigger] self@.contains_key(x) implies self@[x] == m0.insert(k, r)[x] by {
                        let i1 = choose|i: int| 0 <= i < s1.len() && self.key_at(i) == x;
                        if x == k {
                            assert(i1 == s0.len());
                        } else {
                            let i0 = choose|i: int| 0 <= i < s0.len() && old(self).key_at(i) == x;
                            assert(self.key_at(i0) == x);
                            assert(i1 == i0);
                        }
                    }
                    assert(self@ =~= m0.insert(k, r));
                    assert forall|i: int, j: int| 0 <= i < s1.len() && 0 <= j < s1.len() && i != j
                        implies #[trigger] s1[i].2 != #[trigger] s1[j].2 by {
                        if i < s0.len() && j < s0.len() {
                            assert(s1[i] == s0[i] && s1[j] == s0[j]);
                        } else if i < s0.len() {
                            assert(s1[i] == s0[i]);
                        } else if j < s0.len() {
                            assert(s1[j] == s0[j]);
                        }
                    }
                    assert forall|i: int| 0 <= i < s1.len() implies (#[trigger] s1[i]).2.0 < graph.nodes().len() by {
                        if i < s0.len() {
                            assert(s1[i] == s0[i]);
                        }
                    }
                }
                r
            },
        }
    }
    /// The syntax node and tag path that name the node `node`, if a name does.
    pub open spec fn names(&self, node: GraphNodeRef, k: (u32, Seq<char>)) -> bool {
        self@.contains_key(k) && self@[k] == node
    }

    /// The graph node named by the name of `base` with `suffix` appended to its tag path.  A
    /// node that no name gives is an error.
    pub fn extend(&mut self, graph: &mut Graph, base: GraphNodeRef, suffix: &str) -> (r: Result<GraphNodeRef, ExecutionError>)
        requires
            old(self).wf(old(graph).nodes().len()),
            old(graph).wf(),
            old(graph).nodes().len() < u32::MAX,
        ensures
            final(self).wf(final(graph).nodes().len()),
            final(graph).wf(),
            (forall|k: (u32, Seq<char>)| !old(self).names(base, k)) ==> (r matches Err(ExecutionError::UndefinedGraphNode(_)))
                && *final(self) == *old(self) && *final(graph) == *old(graph),
            forall|k: (u32, Seq<char>)| old(self).names(base, k) ==> (r matches Ok(n) && resolved(
                *old(self), *old(graph), *final(self), *final(graph), (k.0, k.1 + suffix@), n)),
            r matches Ok(n) ==> n.0 < final(graph).nodes().len(),
    {
        let mut i: usize = 0;
        while i < self.entries.len()
            invariant
                *self == *old(self),
                *graph == *old(graph),
                self.wf(graph.nodes().len()),
                graph.wf(),
                graph.nodes().len() < u32::MAX,
                i <= self.entries@.len(),
                forall|j: int| 0 <= j < i ==> self.entries@[j].2 != base,
            decreases self.entries@.len() - i,
        {
            if self.entries[i].2.0 == base.0 {
                let syntax = self.entries[i].0;
                let mut path = self.entries[i].1.clone();
                path.append(suffix);
                proof {
                    let k0 = self.key_at(i as int);
                    assert(self@.contains_key(k0));
                    let c = choose|j: int| 0 <= j < self.entries@.len() && self.key_at(j) == k0;
                    assert(c == i);
                    assert(self.names(base, k0));
                    assert(path@ == k0.1 + suffix@);
                    assert forall|k: (u32, Seq<char>)| self.names(base, k) implies k == k0 by {
                        let j = choose|j: int| 0 <= j < self.entries@.len() && self.key_at(j) == k;
                        assert(self.entries@[j].2 == base);
                        assert(j == i);
                    }
                }
                let n = self.resolve(graph, syntax, path.as_str());
                return Ok(n);
            }
            i = i + 1;
        }
        proof {
            assert forall|k: (u32, Seq<char>)| !self.names(base, k) by {
                if self@.contains_key(k) {
                    let j = choose|j: int| 0 <= j < self.entries@.len() && self.key_at(j) == k;
                    assert(self.entries@[j].2 != base);
                }
            }
        }
        Err(ExecutionError::UndefinedGraphNode(Value::GraphNode(base).display()))
    }
}

} // verus!
