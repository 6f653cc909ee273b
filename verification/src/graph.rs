//! The per-block message-propagation graph.
//!
//! Vertices are network participants, interned as small indices with their
//! string tags kept alongside; a directed edge records an observed hop with
//! its latency in microseconds.  Whole-graph analyses (cycle detection,
//! connected components) are delegated to petgraph behind trusted wrappers
//! whose contracts state the graph-theoretic meaning over this module's own
//! specification functions.

use vstd::prelude::*;

verus! {

/// A directed hop `from -> to` observed with latency `weight` (microseconds).
#[derive(Debug, Clone, Copy, PartialEq, Eq, Structural)]
pub struct GraphEdge {
    pub from: usize,
    pub to: usize,
    pub weight: u64,
}

/// Whether some edge goes from `a` to `b`.
pub open spec fn edge_between(edges: Seq<GraphEdge>, a: int, b: int) -> bool {
    exists|i: int| 0 <= i < edges.len() && edges[i].from == a && edges[i].to == b
}

/// Whether `p` witnesses a directed cycle: at least one edge, consecutive
/// vertices joined by edges, and the walk returns to its starting vertex.
pub open spec fn is_cycle(edges: Seq<GraphEdge>, p: Seq<int>) -> bool {
    &&& p.len() >= 2
    &&& forall|i: int| 0 <= i < p.len() - 1 ==> edge_between(edges, #[trigger] p[i], p[i + 1])
    &&& p[0] == p.last()
}

/// Whether the directed graph spanned by `edges` contains a cycle.
pub open spec fn has_cycle(edges: Seq<GraphEdge>) -> bool {
    exists|p: Seq<int>| is_cycle(edges, p)
}

/// Whether `a` and `b` are joined by an edge in either direction.
pub open spec fn adjacent(edges: Seq<GraphEdge>, a: int, b: int) -> bool {
    edge_between(edges, a, b) || edge_between(edges, b, a)
}

/// Whether `p` is a walk in the undirected view of the graph.
pub open spec fn is_walk(edges: Seq<GraphEdge>, p: Seq<int>) -> bool {
    &&& p.len() >= 1
    &&& forall|i: int| 0 <= i < p.len() - 1 ==> adjacent(edges, #[trigger] p[i], p[i + 1])
}

/// Whether `a` and `b` lie in the same weakly connected component.
pub open spec fn connected(edges: Seq<GraphEdge>, a: int, b: int) -> bool {
    exists|p: Seq<int>| is_walk(edges, p) && p[0] == a && p.last() == b
}

/// Number of weakly connected components among vertices `0..n`: the count of
/// vertices that are the smallest in their component.
pub open spec fn component_count(n: nat, edges: Seq<GraphEdge>) -> nat {
    Set::new(
        |v: int| 0 <= v < n && forall|u: int| 0 <= u < v ==> !connected(edges, u, v),
    ).len()
}

/// Index of the first edge `from -> to` in `edges`, or `-1` if there is none.
pub open spec fn find_edge(edges: Seq<GraphEdge>, from: int, to: int) -> int
    decreases edges.len(),
{
    if edges.len() == 0 {
        -1
    } else if edges[0].from == from && edges[0].to == to {
        0
    } else {
        let r = find_edge(edges.drop_first(), from, to);
        if r < 0 {
            -1
        } else {
            r + 1
        }
    }
}

/// `find_edge` returns `-1` exactly when no such edge exists, and otherwise
/// the first position of such an edge.
pub proof fn lemma_find_edge(edges: Seq<GraphEdge>, from: int, to: int)
    ensures
        edge_between(edges, from, to) <==> 0 <= find_edge(edges, from, to) < edges.len(),
        edge_between(edges, from, to) ==> edges[find_edge(edges, from, to)].from == from
            && edges[find_edge(edges, from, to)].to == to,
        forall|i: int|
            0 <= i < find_edge(edges, from, to) ==> !(edges[i].from == from && edges[i].to == to),
        !edge_between(edges, from, to) ==> find_edge(edges, from, to) == -1,
    decreases edges.len(),
{
    if edges.len() > 0 && !(edges[0].from == from && edges[0].to == to) {
        lemma_find_edge(edges.drop_first(), from, to);
        let rest = edges.drop_first();
        assert forall|i: int|
            0 <= i < edges.len() && edges[i].from == from && edges[i].to == to implies 0
            <= find_edge(edges, from, to) by {
            if i > 0 {
                assert(rest[i - 1].from == from && rest[i - 1].to == to);
                assert(edge_between(rest, from, to));
            }
        }
        if edge_between(edges, from, to) {
            let j = choose|j: int|
                0 <= j < edges.len() && edges[j].from == from && edges[j].to == to;
            assert(rest[j - 1].from == from && rest[j - 1].to == to);
            assert(edge_between(rest, from, to));
        }
        assert forall|i: int| 0 <= i < find_edge(edges, from, to) implies !(edges[i].from == from
            && edges[i].to == to) by {
            if i > 0 {
                assert(!(rest[i - 1].from == from && rest[i - 1].to == to));
            }
        }
        if edge_between(rest, from, to) {
            assert(edge_between(edges, from, to)) by {
                let j = choose|j: int|
                    0 <= j < rest.len() && rest[j].from == from && rest[j].to == to;
                assert(edges[j + 1].from == from && edges[j + 1].to == to);
            }
        }
    }
}

/// Along a walk whose every edge strictly increases `rank`, the rank grows by
/// at least the number of edges taken.
proof fn lemma_path_rank(edges: Seq<GraphEdge>, rank: spec_fn(int) -> int, p: Seq<int>)
    requires
        forall|i: int|
            0 <= i < edges.len() ==> rank(#[trigger] edges[i].from as int) < rank(
                edges[i].to as int,
            ),
        p.len() >= 1,
        forall|i: int| 0 <= i < p.len() - 1 ==> edge_between(edges, #[trigger] p[i], p[i + 1]),
    ensures
        rank(p[0]) + p.len() - 1 <= rank(p.last()),
    decreases p.len(),
{
    if p.len() >= 2 {
        let q = p.drop_last();
        assert(forall|i: int|
            0 <= i < q.len() - 1 ==> edge_between(edges, #[trigger] q[i], q[i + 1]));
        lemma_path_rank(edges, rank, q);
        assert(edge_between(edges, p[p.len() - 2], p[p.len() - 1]));
        let e = choose|i: int|
            0 <= i < edges.len() && edges[i].from == p[p.len() - 2] && edges[i].to == p[p.len()
                - 1];
        assert(rank(p[p.len() - 2]) < rank(p.last()));
    }
}

/// A graph every edge of which strictly increases some rank has no cycle.
pub proof fn lemma_rank_acyclic(edges: Seq<GraphEdge>, rank: spec_fn(int) -> int)
    requires
        forall|i: int|
            0 <= i < edges.len() ==> rank(#[trigger] edges[i].from as int) < rank(
                edges[i].to as int,
            ),
    ensures
        !has_cycle(edges),
{
    if has_cycle(edges) {
        let p = choose|p: Seq<int>| is_cycle(edges, p);
        lemma_path_rank(edges, rank, p);
    }
}

/// The propagation graph of one block: interned vertex tags and directed,
/// latency-weighted hop edges.
#[derive(Debug, Clone)]
pub struct PropagationGraph {
    pub tags: Vec<String>,
    pub edges: Vec<GraphEdge>,
}

impl PropagationGraph {
    /// Well-formedness: every edge endpoint is a vertex.
    pub open spec fn wf(&self) -> bool {
        forall|i: int|
            0 <= i < self.edges@.len() ==> (#[trigger] self.edges@[i]).from < self.tags@.len()
                && self.edges@[i].to < self.tags@.len()
    }

    /// The vertex tags, as character sequences, in vertex order.
    pub open spec fn tags_view(&self) -> Seq<Seq<char>> {
        self.tags@.map_values(|t: String| t@)
    }

    /// Creates a graph with no vertices and no edges.
    pub fn new() -> (r: Self)
        ensures
            r.wf(),
            r.tags@ == Seq::<String>::empty(),
            r.edges@ == Seq::<GraphEdge>::empty(),
    {
        PropagationGraph { tags: Vec::new(), edges: Vec::new() }
    }

    /// Number of vertices.
    pub fn node_count(&self) -> (r: usize)
        ensures
            r == self.tags@.len(),
    {
        self.tags.len()
    }

    /// Adds a vertex with the given tag and returns its index.
    pub fn add_node(&mut self, tag: String) -> (r: usize)
        requires
            old(self).wf(),
        ensures
            final(self).wf(),
            r == old(self).tags@.len(),
            final(self).tags@ == old(self).tags@.push(tag),
            final(self).edges@ == old(self).edges@,
    {
        let r = self.tags.len();
        self.tags.push(tag);
        r
    }

    /// Adds the edge `from -> to` with the given weight, or updates the
    /// weight of the first such edge if one is already present.
    pub fn update_edge(&mut self, from: usize, to: usize, weight: u64)
        requires
            old(self).wf(),
            from < old(self).tags@.len(),
            to < old(self).tags@.len(),
        ensures
            final(self).wf(),
            final(self).tags@ == old(self).tags@,
            edge_between(old(self).edges@, from as int, to as int) ==> final(self).edges@ == old(
                self,
            ).edges@.update(
                find_edge(old(self).edges@, from as int, to as int),
                GraphEdge { from, to, weight },
            ),
            !edge_between(old(self).edges@, from as int, to as int) ==> final(self).edges@ == old(
                self,
            ).edges@.push(GraphEdge { from, to, weight }),
    {
        proof {
            lemma_find_edge(self.edges@, from as int, to as int);
        }
        let n = self.edges.len();
        let mut i: usize = 0;
        while i < n
            invariant
                *self == *old(self),
                old(self).wf(),
                from < old(self).tags@.len(),
                to < old(self).tags@.len(),
                n == old(self).edges@.len(),
                i <= n,
                forall|j: int|
                    0 <= j < i ==> !((#[trigger] old(self).edges@[j]).from == from && old(self).edges@[j].to
                        == to),
                edge_between(old(self).edges@, from as int, to as int) <==> 0 <= find_edge(
                    old(self).edges@,
                    from as int,
                    to as int,
                ) < n,
                edge_between(old(self).edges@, from as int, to as int) ==> old(self).edges@[find_edge(
                    old(self).edges@,
                    from as int,
                    to as int,
                )].from == from && old(self).edges@[find_edge(old(self).edges@, from as int, to as int)].to
                    == to,
                forall|j: int|
                    0 <= j < find_edge(old(self).edges@, from as int, to as int) ==> !((
                    #[trigger] old(self).edges@[j]).from == from && old(self).edges@[j].to == to),
                !edge_between(old(self).edges@, from as int, to as int) ==> find_edge(
                    old(self).edges@,
                    from as int,
                    to as int,
                ) == -1,
            decreases n - i,
        {
            if self.edges[i].from == from && self.edges[i].to == to {
                proof {
                    assert(old(self).edges@[i as int].from == from && old(self).edges@[i as int].to == to);
                    assert(edge_between(old(self).edges@, from as int, to as int));
                    assert(find_edge(old(self).edges@, from as int, to as int) == i);
                }
                self.edges[i] = GraphEdge { from, to, weight };
                return ;
            }
            i = i + 1;
        }
        proof {
            if edge_between(old(self).edges@, from as int, to as int) {
                let j = choose|j: int|
                    0 <= j < old(self).edges@.len() && old(self).edges@[j].from == from && old(self).edges@[j].to
                        == to;
                assert(!(old(self).edges@[j].from == from && old(self).edges@[j].to == to));
            }
        }
        self.edges.push(GraphEdge { from, to, weight });
    }

    /// The index of the vertex with the given tag, adding a new vertex if no
    /// vertex carries it yet.  The tag vector is the intern table: each tag
    /// appears at most once when vertices are only added through here.
    pub fn find_or_add_node(&mut self, tag: &String) -> (r: usize)
        requires
            old(self).wf(),
        ensures
            final(self).wf(),
            final(self).edges@ == old(self).edges@,
            r < final(self).tags@.len(),
            old(self).tags_view().contains(tag@) ==> final(self).tags@ == old(self).tags@ && r
                == crate::maps::find_first(old(self).tags_view(), tag@),
            !old(self).tags_view().contains(tag@) ==> final(self).tags_view() == old(
                self,
            ).tags_view().push(tag@) && r == old(self).tags@.len(),
    {
        proof {
            crate::maps::lemma_find_first(self.tags_view(), tag@);
        }
        let n = self.tags.len();
        let mut i: usize = 0;
        while i < n
            invariant
                *self == *old(self),
                old(self).wf(),
                n == self.tags@.len(),
                i <= n,
                forall|j: int| 0 <= j < i ==> self.tags_view()[j] != tag@,
                self.tags_view().contains(tag@) <==> 0 <= crate::maps::find_first(
                    self.tags_view(),
                    tag@,
                ) < n,
                self.tags_view().contains(tag@) ==> self.tags_view()[crate::maps::find_first(
                    self.tags_view(),
                    tag@,
                )] == tag@,
                forall|j: int|
                    0 <= j < crate::maps::find_first(self.tags_view(), tag@)
                        ==> self.tags_view()[j] != tag@,
                !self.tags_view().contains(tag@) ==> crate::maps::find_first(
                    self.tags_view(),
                    tag@,
                ) == -1,
            decreases n - i,
        {
            if self.tags[i].eq(tag) {
                proof {
                    assert(self.tags_view()[i as int] == tag@);
                    assert(self.tags_view().contains(tag@));
                }
                return i;
            }
            i = i + 1;
        }
        proof {
            if self.tags_view().contains(tag@) {
                let j = choose|j: int| 0 <= j < n && self.tags_view()[j] == tag@;
                assert(self.tags_view()[j] != tag@);
            }
        }
        let r = self.tags.len();
        self.tags.push(tag.clone());
        proof {
            assert(final(self).tags_view() =~= old(self).tags_view().push(tag@));
        }
        r
    }

    /// The tags of all source vertices: vertices with no incoming edge, in
    /// vertex order.  A healthy propagation graph has exactly one, the
    /// publisher.
    pub fn source_nodes(&self) -> (r: Vec<String>)
        requires
            self.wf(),
        ensures
            r@.map_values(|t: String| t@) == source_tags(self.tags_view(), self.edges@),
    {
        let n = self.tags.len();
        let m = self.edges.len();
        let mut out: Vec<String> = Vec::new();
        let mut v: usize = 0;
        while v < n
            invariant
                self.wf(),
                n == self.tags@.len(),
                m == self.edges@.len(),
                v <= n,
                out@.map_values(|t: String| t@) == sources_upto(
                    self.tags_view(),
                    self.edges@,
                    v as nat,
                ),
            decreases n - v,
        {
            let mut has_incoming = false;
            let mut j: usize = 0;
            while j < m
                invariant
                    self.wf(),
                    m == self.edges@.len(),
                    j <= m,
                    has_incoming <==> exists|i: int|
                        0 <= i < j && (#[trigger] self.edges@[i]).to == v,
                decreases m - j,
            {
                if self.edges[j].to == v {
                    has_incoming = true;
                }
                j = j + 1;
            }
            let ghost prev = out@.map_values(|t: String| t@);
            if !has_incoming {
                proof {
                    assert(no_incoming(self.edges@, v as int));
                }
                out.push(self.tags[v].clone());
                proof {
                    assert(out@.map_values(|t: String| t@) =~= prev.push(
                        self.tags_view()[v as int],
                    ));
                }
            } else {
                proof {
                    let i = choose|i: int| 0 <= i < m && (#[trigger] self.edges@[i]).to == v;
                    assert(!no_incoming(self.edges@, v as int));
                }
            }
            proof {
                reveal_with_fuel(sources_upto, 2);
                assert(out@.map_values(|t: String| t@) == sources_upto(
                    self.tags_view(),
                    self.edges@,
                    (v + 1) as nat,
                ));
            }
            v = v + 1;
        }
        out
    }
}

/// Whether vertex `v` has no incoming edge.
pub open spec fn no_incoming(edges: Seq<GraphEdge>, v: int) -> bool {
    forall|i: int| 0 <= i < edges.len() ==> (#[trigger] edges[i]).to != v
}

/// The tags of source vertices among the first `k` vertices, in vertex order.
pub open spec fn sources_upto(tags: Seq<Seq<char>>, edges: Seq<GraphEdge>, k: nat) -> Seq<
    Seq<char>,
>
    decreases k,
{
    if k == 0 {
        Seq::empty()
    } else if no_incoming(edges, k - 1) {
        sources_upto(tags, edges, (k - 1) as nat).push(tags[k - 1])
    } else {
        sources_upto(tags, edges, (k - 1) as nat)
    }
}

/// The tags of all source vertices, in vertex order.
pub open spec fn source_tags(tags: Seq<Seq<char>>, edges: Seq<GraphEdge>) -> Seq<Seq<char>> {
    sources_upto(tags, edges, tags.len())
}

/// Relies on petgraph's `algo::is_cyclic_directed`, whose documentation and
/// source (a depth-first search reporting a back edge) say that it returns
/// true exactly when the directed graph contains a cycle.
#[verifier::external_body]
pub(crate) fn petgraph_is_cyclic_directed(edges: &Vec<GraphEdge>) -> (r: bool)
    ensures
        r == has_cycle(edges@),
{
    let g = petgraph::graph::Graph::<(), (), petgraph::Directed, usize>::from_edges(
        edges.iter().map(|e| (e.from, e.to)),
    );
    petgraph::algo::is_cyclic_directed(&g)
}

/// Relies on petgraph's `algo::connected_components`, whose documentation and
/// source (a union-find over the edges, ignoring direction) say that it
/// returns the number of weakly connected components.
#[verifier::external_body]
pub(crate) fn petgraph_connected_components(node_count: usize, edges: &Vec<GraphEdge>) -> (r:
    usize)
    requires
        forall|i: int|
            0 <= i < edges@.len() ==> (#[trigger] edges@[i]).from < node_count && edges@[i].to
                < node_count,
    ensures
        r == component_count(node_count as nat, edges@),
{
    let mut g = petgraph::graph::Graph::<(), (), petgraph::Directed, usize>::with_capacity(
        node_count,
        edges.len(),
    );
    for _ in 0..node_count {
        g.add_node(());
    }
    for e in edges.iter() {
        g.add_edge(
            petgraph::graph::NodeIndex::new(e.from),
            petgraph::graph::NodeIndex::new(e.to),
            (),
        );
    }
    petgraph::algo::connected_components(&g)
}

} // verus!
