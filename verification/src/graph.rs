//! The component/seam dependency graph: one node per component, one edge
//! per seam record from its `side_a` to its `side_b`, labelled with the
//! record's id; and its JSON and DOT renderings.
use vstd::prelude::*;
use crate::error::SeamError;
use crate::jsonout::{JsonOut, JsonOutV, out_view, pretty_json, pretty_text, str_array, string_array};
use crate::model::SeamRecord;
use crate::policy::push_text;
use crate::text::{concat3, str_eq};

verus! {

/// `petgraph::graph::Graph`; its contents are known through
/// `graph_nodes` and `graph_edges`.
#[verifier::external_type_specification]
#[verifier::external_body]
#[verifier::reject_recursive_types(N)]
#[verifier::reject_recursive_types(E)]
#[verifier::reject_recursive_types(Ty)]
#[verifier::reject_recursive_types(Ix)]
pub struct ExGraph<N, E, Ty, Ix>(petgraph::graph::Graph<N, E, Ty, Ix>);

/// `petgraph::Directed`, the edge-type marker of directed graphs.
#[verifier::external_type_specification]
#[verifier::external_body]
pub struct ExDirected(petgraph::Directed);

/// Name for the node weights of a graph, in node-index order.
pub uninterp spec fn graph_nodes(g: petgraph::graph::Graph<String, String, petgraph::Directed, u32>) -> Seq<Seq<char>>;

/// Name for the edges of a graph, in edge-index order: source index,
/// target index and weight.
pub uninterp spec fn graph_edges(g: petgraph::graph::Graph<String, String, petgraph::Directed, u32>) -> Seq<(nat, nat, Seq<char>)>;

/// `petgraph::graph::DiGraph::new`: a graph without nodes and edges.
#[verifier::external_body]
fn new_digraph() -> (g: petgraph::graph::Graph<String, String, petgraph::Directed, u32>)
    ensures
        graph_nodes(g) == Seq::<Seq<char>>::empty(),
        graph_edges(g) == Seq::<(nat, nat, Seq<char>)>::empty(),
{
    petgraph::graph::DiGraph::new()
}

/// `Graph::add_node`: appends a node with `weight` and returns its index,
/// which is the old node count. The edges are unchanged. It panics when the
/// graph already holds `u32::MAX` nodes, which `requires` leaves out.
#[verifier::external_body]
fn add_node(g: &mut petgraph::graph::Graph<String, String, petgraph::Directed, u32>, weight: String) -> (i: usize)
    requires
        graph_nodes(*old(g)).len() < u32::MAX,
    ensures
        graph_nodes(*final(g)) == graph_nodes(*old(g)).push(weight@),
        graph_edges(*final(g)) == graph_edges(*old(g)),
        i == graph_nodes(*old(g)).len(),
{
    g.add_node(weight).index()
}

/// `Graph::add_edge`: appends an edge from node `a` to node `b` with
/// `weight`. The nodes are unchanged. It panics when an endpoint is not a
/// node or the graph already holds `u32::MAX` edges, which `requires`
/// leaves out.
#[verifier::external_body]
fn add_edge(g: &mut petgraph::graph::Graph<String, String, petgraph::Directed, u32>, a: usize, b: usize, weight: String)
    requires
        a < graph_nodes(*old(g)).len(),
        b < graph_nodes(*old(g)).len(),
        a < u32::MAX,
        b < u32::MAX,
        graph_edges(*old(g)).len() < u32::MAX,
    ensures
        graph_nodes(*final(g)) == graph_nodes(*old(g)),
        graph_edges(*final(g)) == graph_edges(*old(g)).push((a as nat, b as nat, weight@)),
{
    g.add_edge(petgraph::graph::NodeIndex::new(a), petgraph::graph::NodeIndex::new(b), weight);
}

/// `Graph::node_weights`: the node weights in node-index order.
#[verifier::external_body]
fn node_weights(g: &petgraph::graph::Graph<String, String, petgraph::Directed, u32>) -> (ws: Vec<String>)
    ensures
        ws.deep_view() == graph_nodes(*g),
{
    g.node_weights().cloned().collect()
}

/// `Graph::edge_count`: the number of edges.
#[verifier::external_body]
fn edge_count(g: &petgraph::graph::Graph<String, String, petgraph::Directed, u32>) -> (n: usize)
    ensures
        n == graph_edges(*g).len(),
{
    g.edge_count()
}

/// `Graph::edge_endpoints`: the source and target indices of edge `i`, or
/// `None` when there is no such edge.
#[verifier::external_body]
fn edge_endpoints(g: &petgraph::graph::Graph<String, String, petgraph::Directed, u32>, i: usize) -> (r: Option<(usize, usize)>)
    requires
        i < u32::MAX,
    ensures
        r is Some <==> i < graph_edges(*g).len(),
        r matches Some(p) ==> p.0 == graph_edges(*g)[i as int].0 && p.1 == graph_edges(*g)[i as int].1,
{
    g.edge_endpoints(petgraph::graph::EdgeIndex::new(i)).map(|(a, b)| (a.index(), b.index()))
}

/// `Graph::edge_weight`: the weight of edge `i`, or `None` when there is no
/// such edge.
#[verifier::external_body]
fn edge_weight(g: &petgraph::graph::Graph<String, String, petgraph::Directed, u32>, i: usize) -> (r: Option<String>)
    requires
        i < u32::MAX,
    ensures
        r is Some <==> i < graph_edges(*g).len(),
        r matches Some(w) ==> w@ == graph_edges(*g)[i as int].2,
{
    g.edge_weight(petgraph::graph::EdgeIndex::new(i)).cloned()
}

// ---------------------------------------------------------------------------
// The graph of a sequence of records.
// ---------------------------------------------------------------------------

/// `side_a`, `side_b` and `id` of every record, in order.
pub open spec fn record_sides(recs: Seq<SeamRecord>) -> Seq<(Seq<char>, Seq<char>, Seq<char>)> {
    Seq::new(recs.len(), |i: int| (recs[i].side_a@, recs[i].side_b@, recs[i].id@))
}

/// The ids of the records, in order.
pub open spec fn record_ids(recs: Seq<SeamRecord>) -> Seq<Seq<char>> {
    Seq::new(recs.len(), |i: int| recs[i].id@)
}

/// `nodes` with `name` appended unless it is already there.
pub open spec fn with_node(nodes: Seq<Seq<char>>, name: Seq<char>) -> Seq<Seq<char>> {
    if nodes.contains(name) {
        nodes
    } else {
        nodes.push(name)
    }
}

/// The components named by the records, each once, in order of first
/// mention (a record mentions its `side_a` before its `side_b`).
pub open spec fn component_order(sides: Seq<(Seq<char>, Seq<char>, Seq<char>)>) -> Seq<Seq<char>>
    decreases sides.len(),
{
    if sides.len() == 0 {
        seq![]
    } else {
        let s = sides.last();
        with_node(with_node(component_order(sides.drop_last()), s.0), s.1)
    }
}

/// Edges given by node indices, read as component names.
pub open spec fn named_edges(nodes: Seq<Seq<char>>, edges: Seq<(nat, nat, Seq<char>)>) -> Seq<(Seq<char>, Seq<char>, Seq<char>)> {
    Seq::new(edges.len(), |k: int| (nodes[edges[k].0 as int], nodes[edges[k].1 as int], edges[k].2))
}

/// The dependency graph of a set of seam records.
pub struct SeamGraph {
    graph: petgraph::graph::Graph<String, String, petgraph::Directed, u32>,
    /// The node weights again, to look a component up by name.
    names: Vec<String>,
    seams: Vec<String>,
}

impl SeamGraph {
    /// The components, in node-index order.
    pub closed spec fn nodes(&self) -> Seq<Seq<char>> {
        graph_nodes(self.graph)
    }

    /// The edges, by node index, in edge-index order.
    pub closed spec fn edges(&self) -> Seq<(nat, nat, Seq<char>)> {
        graph_edges(self.graph)
    }

    /// The JSON document of the graph.
    pub open spec fn payload(&self) -> JsonOutV {
        graph_payload(self.nodes(), self.edge_triples(), self.seam_ids())
    }

    /// The edges as (from component, to component, seam id).
    pub open spec fn edge_triples(&self) -> Seq<(Seq<char>, Seq<char>, Seq<char>)> {
        named_edges(self.nodes(), self.edges())
    }

    /// The seam ids, in order.
    pub closed spec fn seam_ids(&self) -> Seq<Seq<char>> {
        self.seams.deep_view()
    }

    /// Every component occurs once and every edge joins two components.
    pub open spec fn wf(&self) -> bool {
        &&& self.nodes().no_duplicates()
        &&& self.nodes().len() < u32::MAX
        &&& self.edges().len() < u32::MAX
        &&& forall|k: int|
            0 <= k < self.edges().len() ==> (#[trigger] self.edges()[k]).0 < self.nodes().len()
                && self.edges()[k].1 < self.nodes().len()
    }

    /// The graph is well formed and its lookup table of component names
    /// agrees with it.
    #[verifier::type_invariant]
    spec fn inv(&self) -> bool {
        &&& self.wf()
        &&& self.names.deep_view() == graph_nodes(self.graph)
    }
}

/// A dependency graph while it is being built.
struct GraphBuilder {
    graph: petgraph::graph::Graph<String, String, petgraph::Directed, u32>,
    /// The node weights again, to look a component up by name.
    names: Vec<String>,
    seams: Vec<String>,
}

impl GraphBuilder {
    /// The components, in node-index order.
    spec fn nodes(&self) -> Seq<Seq<char>> {
        graph_nodes(self.graph)
    }

    /// The edges, by node index, in edge-index order.
    spec fn edges(&self) -> Seq<(nat, nat, Seq<char>)> {
        graph_edges(self.graph)
    }

    /// The edges as (from component, to component, seam id).
    spec fn edge_triples(&self) -> Seq<(Seq<char>, Seq<char>, Seq<char>)> {
        named_edges(self.nodes(), self.edges())
    }

    /// The seam ids, in order.
    spec fn seam_ids(&self) -> Seq<Seq<char>> {
        self.seams.deep_view()
    }

    /// Every component occurs once and every edge joins two components.
    spec fn wf(&self) -> bool {
        &&& self.nodes().no_duplicates()
        &&& self.nodes().len() < u32::MAX
        &&& self.edges().len() < u32::MAX
        &&& forall|k: int|
            0 <= k < self.edges().len() ==> (#[trigger] self.edges()[k]).0 < self.nodes().len()
                && self.edges()[k].1 < self.nodes().len()
    }

    /// The lookup table of component names agrees with the graph.
    spec fn tables_agree(&self) -> bool {
        self.names.deep_view() == graph_nodes(self.graph)
    }

    /// The index of the component `name`, added as a new node when the
    /// graph does not hold it yet.
    fn find_or_add(&mut self, name: &String) -> (idx: usize)
        requires
            old(self).wf(),
            old(self).tables_agree(),
            !old(self).nodes().contains(name@) ==> old(self).nodes().len() + 1 < u32::MAX,
        ensures
            final(self).wf(),
            final(self).tables_agree(),
            final(self).nodes() == with_node(old(self).nodes(), name@),
            final(self).edges() == old(self).edges(),
            final(self).seams == old(self).seams,
            idx < final(self).nodes().len(),
            final(self).nodes()[idx as int] == name@,
    {
        let n = self.names.len();
        let ghost nodes = self.nodes();
        let mut i: usize = 0;
        while i < n
            invariant
                n == self.names.len(),
                *self == *old(self),
                self.wf(),
                self.tables_agree(),
                self.nodes() == nodes,
                self.names.deep_view() == nodes,
                i <= n,
                forall|j: int| 0 <= j < i ==> nodes[j] != name@,
            decreases n - i,
        {
            if self.names[i] == *name {
                assert(nodes[i as int] == name@);
                return i;
            }
            i = i + 1;
        }
        assert(!nodes.contains(name@));
        let idx = add_node(&mut self.graph, name.clone());
        self.names.push(name.clone());
        assert(self.names.deep_view() =~= nodes.push(name@));
        let ghost nn = self.nodes();
        assert forall|a: int, b: int| 0 <= a < nn.len() && 0 <= b < nn.len() && a != b implies nn[a] != nn[b] by {
            if a < nodes.len() && b < nodes.len() {
            }
        }
        idx
    }
}

proof fn lemma_with_node_prefix(nodes: Seq<Seq<char>>, name: Seq<char>)
    ensures
        with_node(nodes, name).len() >= nodes.len(),
        with_node(nodes, name).subrange(0, nodes.len() as int) == nodes,
        with_node(nodes, name).contains(name),
{
    if !nodes.contains(name) {
        assert(nodes.push(name)[nodes.len() as int] == name);
        assert(nodes.push(name).subrange(0, nodes.len() as int) =~= nodes);
    } else {
        assert(nodes.subrange(0, nodes.len() as int) =~= nodes);
    }
}

/// The components of a prefix of the records are a prefix of the
/// components of all of them.
proof fn lemma_component_order_prefix(sides: Seq<(Seq<char>, Seq<char>, Seq<char>)>, i: int)
    requires
        0 <= i <= sides.len(),
    ensures
        component_order(sides.take(i)).len() <= component_order(sides).len(),
        component_order(sides).subrange(0, component_order(sides.take(i)).len() as int)
            == component_order(sides.take(i)),
    decreases sides.len() - i,
{
    if i == sides.len() {
        assert(sides.take(i) =~= sides);
        assert(component_order(sides).subrange(0, component_order(sides).len() as int) =~= component_order(sides));
    } else {
        lemma_component_order_prefix(sides, i + 1);
        let s = sides.take(i + 1);
        assert(s.drop_last() =~= sides.take(i));
        let c0 = component_order(sides.take(i));
        let c1 = with_node(c0, s.last().0);
        lemma_with_node_prefix(c0, s.last().0);
        lemma_with_node_prefix(c1, s.last().1);
        let c2 = component_order(s);
        let call = component_order(sides);
        assert(c2.subrange(0, c1.len() as int) =~= c1);
        assert(call.subrange(0, c0.len() as int) =~= c0) by {
            assert forall|k: int| 0 <= k < c0.len() implies call[k] == c0[k] by {
                assert(call.subrange(0, c2.len() as int)[k] == c2[k]);
                assert(c2.subrange(0, c1.len() as int)[k] == c1[k]);
                assert(c1.subrange(0, c0.len() as int)[k] == c0[k]);
            }
        }
    }
}

/// The components of a set of records are exactly the sides of the
/// records, each named once.
pub proof fn lemma_components_are_the_sides(sides: Seq<(Seq<char>, Seq<char>, Seq<char>)>)
    ensures
        component_order(sides).no_duplicates(),
        forall|k: int|
            0 <= k < sides.len() ==> component_order(sides).contains(#[trigger] sides[k].0)
                && component_order(sides).contains(sides[k].1),
        forall|i: int|
            0 <= i < component_order(sides).len() ==> exists|k: int|
                0 <= k < sides.len() && (#[trigger] component_order(sides)[i] == sides[k].0
                    || component_order(sides)[i] == sides[k].1),
    decreases sides.len(),
{
    if sides.len() > 0 {
        let prev = sides.drop_last();
        lemma_components_are_the_sides(prev);
        let s = sides.last();
        let c0 = component_order(prev);
        let c1 = with_node(c0, s.0);
        let c2 = with_node(c1, s.1);
        lemma_with_node_prefix(c0, s.0);
        lemma_with_node_prefix(c1, s.1);
        assert(c2 == component_order(sides));
        assert forall|k: int| 0 <= k < sides.len() implies c2.contains(#[trigger] sides[k].0) && c2.contains(sides[k].1) by {
            if k < prev.len() {
                assert(prev[k] == sides[k]);
                let a = choose|j: int| 0 <= j < c0.len() && c0[j] == sides[k].0;
                let b = choose|j: int| 0 <= j < c0.len() && c0[j] == sides[k].1;
                assert(c2.subrange(0, c1.len() as int)[a] == c1[a]);
                assert(c1.subrange(0, c0.len() as int)[a] == c0[a]);
                assert(c2.subrange(0, c1.len() as int)[b] == c1[b]);
                assert(c1.subrange(0, c0.len() as int)[b] == c0[b]);
            } else {
                let a = choose|j: int| 0 <= j < c1.len() && c1[j] == s.0;
                assert(c2.subrange(0, c1.len() as int)[a] == c1[a]);
            }
        }
        assert forall|i: int| 0 <= i < c2.len() implies exists|k: int|
            0 <= k < sides.len() && (#[trigger] c2[i] == sides[k].0 || c2[i] == sides[k].1) by {
            if i < c0.len() {
                assert(c2.subrange(0, c1.len() as int)[i] == c1[i]);
                assert(c1.subrange(0, c0.len() as int)[i] == c0[i]);
                let k = choose|k: int| 0 <= k < prev.len() && (c0[i] == prev[k].0 || c0[i] == prev[k].1);
                assert(prev[k] == sides[k]);
            } else if i < c1.len() {
                assert(c2.subrange(0, c1.len() as int)[i] == c1[i]);
                assert(c1[i] == s.0);
                assert(sides[sides.len() - 1] == s);
            } else {
                assert(c2[i] == s.1);
                assert(sides[sides.len() - 1] == s);
            }
        }
        assert forall|a: int, b: int| 0 <= a < c2.len() && 0 <= b < c2.len() && a != b implies c2[a] != c2[b] by {
            assert forall|x: int, y: int| 0 <= x < c1.len() && 0 <= y < c1.len() && x != y implies c1[x] != c1[y] by {
                if x < c0.len() && y < c0.len() {
                    assert(c1.subrange(0, c0.len() as int)[x] == c0[x]);
                    assert(c1.subrange(0, c0.len() as int)[y] == c0[y]);
                } else if x < c0.len() {
                    assert(c1.subrange(0, c0.len() as int)[x] == c0[x]);
                } else if y < c0.len() {
                    assert(c1.subrange(0, c0.len() as int)[y] == c0[y]);
                }
            }
            if a < c1.len() && b < c1.len() {
                assert(c2.subrange(0, c1.len() as int)[a] == c1[a]);
                assert(c2.subrange(0, c1.len() as int)[b] == c1[b]);
            } else if a < c1.len() {
                assert(c2.subrange(0, c1.len() as int)[a] == c1[a]);
            } else if b < c1.len() {
                assert(c2.subrange(0, c1.len() as int)[b] == c1[b]);
            }
        }
    }
}

/// `names` with `name` appended unless it is already there.
fn add_name(names: &mut Vec<String>, name: &String)
    ensures
        final(names).deep_view() == with_node(old(names).deep_view(), name@),
{
    let ghost start = names.deep_view();
    let n = names.len();
    let mut i: usize = 0;
    while i < n
        invariant
            n == names.len(),
            names.deep_view() == start,
            i <= n,
            forall|j: int| 0 <= j < i ==> start[j] != name@,
        decreases n - i,
    {
        if names[i] == *name {
            assert(start[i as int] == name@);
            return;
        }
        i = i + 1;
    }
    push_text(names, name.clone());
}

/// Whether the graph of `records` fits in `petgraph`'s `u32` indices, which
/// `build_graph` requires: fewer than `u32::MAX` components and seams.
pub fn fits_in_graph(records: &Vec<SeamRecord>) -> (r: bool)
    ensures
        r == (component_order(record_sides(records@)).len() < u32::MAX && records.len() < u32::MAX),
{
    let ghost sides = record_sides(records@);
    let mut names: Vec<String> = Vec::new();
    assert(names.deep_view() =~= Seq::<Seq<char>>::empty());
    assert(sides.take(0) =~= Seq::<(Seq<char>, Seq<char>, Seq<char>)>::empty());
    let n = records.len();
    let mut i: usize = 0;
    while i < n
        invariant
            n == records.len(),
            sides == record_sides(records@),
            i <= n,
            names.deep_view() == component_order(sides.take(i as int)),
        decreases n - i,
    {
        proof {
            assert(sides.take(i + 1).drop_last() =~= sides.take(i as int));
            assert(sides.take(i + 1).last() == sides[i as int]);
        }
        add_name(&mut names, &records[i].side_a);
        add_name(&mut names, &records[i].side_b);
        i = i + 1;
    }
    assert(sides.take(n as int) =~= sides);
    names.len() < 4294967295usize && n < 4294967295usize
}

/// Builds the dependency graph of `records`: for each record, in order,
/// its two sides become nodes unless they already are, and an edge from
/// `side_a` to `side_b` labelled with its id is added.
///
/// `petgraph` indexes nodes and edges with `u32`; the graph cannot hold
/// `u32::MAX` components or seams.
pub fn build_graph(records: &Vec<SeamRecord>) -> (g: SeamGraph)
    requires
        component_order(record_sides(records@)).len() < u32::MAX,
        records.len() < u32::MAX,
    ensures
        g.wf(),
        g.nodes() == component_order(record_sides(records@)),
        g.edge_triples() == record_sides(records@),
        g.seam_ids() == record_ids(records@),
{
    let ghost sides = record_sides(records@);
    let mut g = GraphBuilder { graph: new_digraph(), names: Vec::new(), seams: Vec::new() };
    assert(g.names.deep_view() =~= Seq::<Seq<char>>::empty());
    assert(g.seams.deep_view() =~= Seq::<Seq<char>>::empty());
    assert(sides.take(0) =~= Seq::<(Seq<char>, Seq<char>, Seq<char>)>::empty());
    let n = records.len();
    let mut i: usize = 0;
    while i < n
        invariant
            n == records.len(),
            sides == record_sides(records@),
            component_order(sides).len() < u32::MAX,
            n < u32::MAX,
            i <= n,
            g.wf(),
            g.tables_agree(),
            g.nodes() == component_order(sides.take(i as int)),
            g.edge_triples() == sides.take(i as int),
            g.seams.deep_view() == record_ids(records@).take(i as int),
        decreases n - i,
    {
        let rec = &records[i];
        let ghost c0 = g.nodes();
        let ghost e0 = g.edges();
        let ghost t = sides.take(i + 1);
        proof {
            assert(t.drop_last() =~= sides.take(i as int));
            assert(t.last() == sides[i as int]);
            lemma_component_order_prefix(sides, i + 1);
            lemma_with_node_prefix(c0, rec.side_a@);
            lemma_with_node_prefix(with_node(c0, rec.side_a@), rec.side_b@);
        }
        let ia = g.find_or_add(&rec.side_a);
        let ghost c1 = g.nodes();
        let ib = g.find_or_add(&rec.side_b);
        let ghost c2 = g.nodes();
        proof {
            assert(c2.subrange(0, c1.len() as int)[ia as int] == c1[ia as int]);
        }
        add_edge(&mut g.graph, ia, ib, rec.id.clone());
        push_text(&mut g.seams, rec.id.clone());
        proof {
            let e2 = g.edges();
            assert(e2 == e0.push((ia as nat, ib as nat, rec.id@)));
            assert forall|k: int| 0 <= k < e2.len() implies (#[trigger] e2[k]).0 < c2.len() && e2[k].1 < c2.len() by {
                if k < e0.len() {
                    assert(e0[k].0 < c0.len());
                }
            }
            assert forall|k: int| 0 <= k < e0.len() implies #[trigger] named_edges(c2, e2)[k] == named_edges(c0, e0)[k] by {
                assert(e2[k] == e0[k]);
                assert(e0[k].0 < c0.len() && e0[k].1 < c0.len());
                assert(c2.subrange(0, c1.len() as int)[e0[k].0 as int] == c1[e0[k].0 as int]);
                assert(c1.subrange(0, c0.len() as int)[e0[k].0 as int] == c0[e0[k].0 as int]);
                assert(c2.subrange(0, c1.len() as int)[e0[k].1 as int] == c1[e0[k].1 as int]);
                assert(c1.subrange(0, c0.len() as int)[e0[k].1 as int] == c0[e0[k].1 as int]);
            }
            assert(named_edges(c2, e2) =~= t);
            assert(g.seams.deep_view() =~= record_ids(records@).take(i + 1));
        }
        i = i + 1;
    }
    proof {
        assert(sides.take(n as int) =~= sides);
        assert(record_ids(records@).take(n as int) =~= record_ids(records@));
    }
    SeamGraph { graph: g.graph, names: g.names, seams: g.seams }
}


// ---------------------------------------------------------------------------
// Renderings.
// ---------------------------------------------------------------------------

/// The DOT statement of one edge.
pub open spec fn dot_edge_line(e: (Seq<char>, Seq<char>, Seq<char>)) -> Seq<char> {
    "  \""@ + e.0 + "\" -> \""@ + e.1 + "\" [label=\""@ + e.2 + "\"];\n"@
}

/// The DOT statements of the first `n` edges, in order.
pub open spec fn dot_lines(edges: Seq<(Seq<char>, Seq<char>, Seq<char>)>, n: int) -> Seq<char>
    decreases n,
{
    if n <= 0 {
        seq![]
    } else {
        dot_lines(edges, n - 1) + dot_edge_line(edges[n - 1])
    }
}

/// The DOT document of a graph with these edges.
pub open spec fn dot_text(edges: Seq<(Seq<char>, Seq<char>, Seq<char>)>) -> Seq<char> {
    "digraph seams {\n"@ + dot_lines(edges, edges.len() as int) + "}\n"@
}

/// The DOT document of a graph holds, between its header and its closing
/// brace, one statement per edge, in edge order: `"from" -> "to"` labelled
/// with the seam id.
pub proof fn lemma_dot_has_one_statement_per_edge(edges: Seq<(Seq<char>, Seq<char>, Seq<char>)>)
    ensures
        dot_text(edges) == "digraph seams {\n"@ + Seq::new(
            edges.len(),
            |k: int| "  \""@ + edges[k].0 + "\" -> \""@ + edges[k].1 + "\" [label=\""@ + edges[k].2 + "\"];\n"@,
        ).flatten() + "}\n"@,
{
    lemma_dot_lines_flatten(edges, edges.len() as int);
}

/// The DOT document of the graph built from `recs` holds one statement per
/// record, in record order: `"side_a" -> "side_b"` labelled with its id.
pub proof fn lemma_dot_has_one_statement_per_record(recs: Seq<SeamRecord>)
    ensures
        dot_text(record_sides(recs)) == "digraph seams {\n"@ + Seq::new(
            recs.len(),
            |k: int|
                "  \""@ + recs[k].side_a@ + "\" -> \""@ + recs[k].side_b@ + "\" [label=\""@ + recs[k].id@
                    + "\"];\n"@,
        ).flatten() + "}\n"@,
{
    let e = record_sides(recs);
    lemma_dot_has_one_statement_per_edge(e);
    let f = |k: int| "  \""@ + e[k].0 + "\" -> \""@ + e[k].1 + "\" [label=\""@ + e[k].2 + "\"];\n"@;
    let g = |k: int|
        "  \""@ + recs[k].side_a@ + "\" -> \""@ + recs[k].side_b@ + "\" [label=\""@ + recs[k].id@ + "\"];\n"@;
    assert(Seq::new(e.len(), f) =~= Seq::new(recs.len(), g));
}

proof fn lemma_dot_lines_flatten(edges: Seq<(Seq<char>, Seq<char>, Seq<char>)>, n: int)
    requires
        0 <= n <= edges.len(),
    ensures
        dot_lines(edges, n) == Seq::new(
            n as nat,
            |k: int| "  \""@ + edges[k].0 + "\" -> \""@ + edges[k].1 + "\" [label=\""@ + edges[k].2 + "\"];\n"@,
        ).flatten(),
    decreases n,
{
    let f = |k: int| "  \""@ + edges[k].0 + "\" -> \""@ + edges[k].1 + "\" [label=\""@ + edges[k].2 + "\"];\n"@;
    if n == 0 {
        assert(Seq::new(0, f) =~= Seq::<Seq<char>>::empty());
    } else {
        lemma_dot_lines_flatten(edges, n - 1);
        assert(Seq::new(n as nat, f) =~= Seq::new((n - 1) as nat, f).push(f(n - 1)));
        Seq::new((n - 1) as nat, f).lemma_flatten_push(f(n - 1));
        assert(dot_edge_line(edges[n - 1]) == f(n - 1));
    }
}

/// The DOT document of a graph with `edges` (from, to, seam id).
pub fn render_dot(edges: &Vec<(String, String, String)>) -> (r: String)
    ensures
        r@ == dot_text(edges.deep_view()),
{
    let ghost ev = edges.deep_view();
    let mut out = String::from_str("digraph seams {\n");
    let n = edges.len();
    let mut i: usize = 0;
    while i < n
        invariant
            n == edges.len(),
            ev == edges.deep_view(),
            i <= n,
            out@ == "digraph seams {\n"@ + dot_lines(ev, i as int),
        decreases n - i,
    {
        let e = &edges[i];
        out.append("  \"");
        out.append(e.0.as_str());
        out.append("\" -> \"");
        out.append(e.1.as_str());
        out.append("\" [label=\"");
        out.append(e.2.as_str());
        out.append("\"];\n");
        proof {
            assert(ev[i as int] == (e.0@, e.1@, e.2@));
            assert(out@ =~= "digraph seams {\n"@ + dot_lines(ev, i + 1));
        }
        i = i + 1;
    }
    out.append("}\n");
    out
}

/// The JSON object of one edge.
pub open spec fn edge_object(e: (Seq<char>, Seq<char>, Seq<char>)) -> JsonOutV {
    JsonOutV::Object(seq![("from"@, JsonOutV::Str(e.0)), ("to"@, JsonOutV::Str(e.1)), ("seam"@, JsonOutV::Str(e.2))])
}

/// The JSON document of a graph: its components, its edges as
/// `{"from", "to", "seam"}` objects, and its seam ids.
pub open spec fn graph_payload(
    components: Seq<Seq<char>>,
    edges: Seq<(Seq<char>, Seq<char>, Seq<char>)>,
    seams: Seq<Seq<char>>,
) -> JsonOutV {
    JsonOutV::Object(
        seq![
            ("components"@, str_array(components)),
            ("edges"@, JsonOutV::Array(Seq::new(edges.len(), |i: int| edge_object(edges[i])))),
            ("seams"@, str_array(seams)),
        ],
    )
}

/// The JSON document of a graph lists each component, then one
/// `{"from", "to", "seam"}` object per edge in edge order, then each seam
/// id, as strings.
pub proof fn lemma_payload_lists_every_edge(
    components: Seq<Seq<char>>,
    edges: Seq<(Seq<char>, Seq<char>, Seq<char>)>,
    seams: Seq<Seq<char>>,
)
    ensures
        graph_payload(components, edges, seams) == JsonOutV::Object(
            seq![
                ("components"@, JsonOutV::Array(Seq::new(components.len(), |i: int| JsonOutV::Str(components[i])))),
                ("edges"@, JsonOutV::Array(
                    Seq::new(
                        edges.len(),
                        |k: int|
                            JsonOutV::Object(
                                seq![
                                    ("from"@, JsonOutV::Str(edges[k].0)),
                                    ("to"@, JsonOutV::Str(edges[k].1)),
                                    ("seam"@, JsonOutV::Str(edges[k].2)),
                                ],
                            ),
                    ),
                )),
                ("seams"@, JsonOutV::Array(Seq::new(seams.len(), |i: int| JsonOutV::Str(seams[i])))),
            ],
        ),
{
    let f = |k: int| edge_object(edges[k]);
    let g = |k: int|
        JsonOutV::Object(
            seq![
                ("from"@, JsonOutV::Str(edges[k].0)),
                ("to"@, JsonOutV::Str(edges[k].1)),
                ("seam"@, JsonOutV::Str(edges[k].2)),
            ],
        );
    assert(Seq::new(edges.len(), f) =~= Seq::new(edges.len(), g));
}

/// A graph built from records has one edge per record, from its `side_a`
/// to its `side_b`, and one seam id per record, in record order.
pub proof fn lemma_one_edge_and_seam_per_record(recs: Seq<SeamRecord>)
    ensures
        record_sides(recs).len() == recs.len(),
        record_ids(recs).len() == recs.len(),
        forall|k: int|
            0 <= k < recs.len() ==> #[trigger] record_sides(recs)[k] == (recs[k].side_a@, recs[k].side_b@, recs[k].id@)
                && record_ids(recs)[k] == recs[k].id@,
{
}

fn edge_value(e: &(String, String, String)) -> (r: JsonOut)
    ensures
        r@ == edge_object((e.0@, e.1@, e.2@)),
{
    let mut entries: Vec<(String, JsonOut)> = Vec::new();
    entries.push((String::from_str("from"), JsonOut::Str(e.0.clone())));
    entries.push((String::from_str("to"), JsonOut::Str(e.1.clone())));
    entries.push((String::from_str("seam"), JsonOut::Str(e.2.clone())));
    let r = JsonOut::Object(entries);
    proof {
        assert(r@ is Object);
        assert(out_view(entries@[0].1) == JsonOutV::Str(e.0@));
        assert(out_view(entries@[1].1) == JsonOutV::Str(e.1@));
        assert(out_view(entries@[2].1) == JsonOutV::Str(e.2@));
        assert(r@->Object_0 =~= edge_object((e.0@, e.1@, e.2@))->Object_0);
    }
    r
}

/// The JSON document of a graph with these components, edges and seams.
pub fn payload_value(
    components: &Vec<String>,
    edges: &Vec<(String, String, String)>,
    seams: &Vec<String>,
) -> (r: JsonOut)
    ensures
        r@ == graph_payload(components.deep_view(), edges.deep_view(), seams.deep_view()),
{
    let ghost ev = edges.deep_view();
    let mut items: Vec<JsonOut> = Vec::new();
    let n = edges.len();
    let mut i: usize = 0;
    while i < n
        invariant
            n == edges.len(),
            ev == edges.deep_view(),
            i <= n,
            items@.len() == i,
            forall|k: int| 0 <= k < i ==> out_view(#[trigger] items@[k]) == edge_object(ev[k]),
        decreases n - i,
    {
        items.push(edge_value(&edges[i]));
        i = i + 1;
    }
    let edge_array = JsonOut::Array(items);
    proof {
        assert(edge_array@ is Array);
        assert forall|k: int| 0 <= k < n implies edge_array@->Array_0[k] == edge_object(ev[k]) by {
            assert(out_view(items@[k]) == edge_object(ev[k]));
        }
        assert(edge_array@->Array_0 =~= Seq::new(ev.len(), |k: int| edge_object(ev[k])));
    }
    let mut entries: Vec<(String, JsonOut)> = Vec::new();
    entries.push((String::from_str("components"), string_array(components)));
    entries.push((String::from_str("edges"), edge_array));
    entries.push((String::from_str("seams"), string_array(seams)));
    let r = JsonOut::Object(entries);
    proof {
        assert(r@ is Object);
        assert(r@->Object_0 =~= graph_payload(components.deep_view(), ev, seams.deep_view())->Object_0);
    }
    r
}

impl SeamGraph {
    /// The components, in node-index order.
    pub fn components(&self) -> (r: Vec<String>)
        ensures
            r.deep_view() == self.nodes(),
    {
        node_weights(&self.graph)
    }

    /// The seam ids, in the order their records were read.
    pub fn seams(&self) -> (r: &Vec<String>)
        ensures
            r.deep_view() == self.seam_ids(),
    {
        &self.seams
    }

    /// The edges as (from component, to component, seam id), in edge order.
    pub fn edge_list(&self) -> (r: Vec<(String, String, String)>)
        ensures
            r.deep_view() == self.edge_triples(),
    {
        proof {
            use_type_invariant(self);
        }
        let ghost want = self.edge_triples();
        let n = edge_count(&self.graph);
        let mut out: Vec<(String, String, String)> = Vec::new();
        let mut k: usize = 0;
        while k < n
            invariant
                n == self.edges().len(),
                self.inv(),
                want == self.edge_triples(),
                k <= n,
                out.deep_view() == want.take(k as int),
            decreases n - k,
        {
            let ends = edge_endpoints(&self.graph, k);
            let label = edge_weight(&self.graph, k);
            match (ends, label) {
                (Some((a, b)), Some(w)) => {
                    proof {
                        assert(self.edges()[k as int].0 < self.nodes().len());
                    }
                    let ghost before = out.deep_view();
                    let triple = (self.names[a].clone(), self.names[b].clone(), w);
                    out.push(triple);
                    proof {
                        assert(out.deep_view() =~= before.push(want[k as int]));
                        assert(want.take(k + 1) =~= want.take(k as int).push(want[k as int]));
                    }
                },
                _ => {
                    proof {
                        assert(false);
                    }
                },
            }
            k = k + 1;
        }
        assert(want.take(n as int) =~= want);
        out
    }

    /// The graph in the output `format`: `json` or `dot`; any other format
    /// is refused.
    pub fn render(&self, format: &str) -> (r: Result<String, SeamError>)
        ensures
            format@ == "json"@ ==> (r matches Ok(t) && t@ == pretty_json(self.payload())),
            format@ == "dot"@ ==> (r matches Ok(t) && t@ == dot_text(self.edge_triples())),
            format@ != "json"@ && format@ != "dot"@ ==> (r matches Err(SeamError::UnsupportedFormat(f)) && f@ == format@),
    {
        if str_eq(format, "json") {
            proof {
                reveal_strlit("json");
                reveal_strlit("dot");
                assert("json"@[0] != "dot"@[0]);
            }
            let components = self.components();
            let edges = self.edge_list();
            let payload = payload_value(&components, &edges, &self.seams);
            Ok(pretty_text(&payload))
        } else if str_eq(format, "dot") {
            let edges = self.edge_list();
            Ok(render_dot(&edges))
        } else {
            Err(SeamError::UnsupportedFormat(String::from_str(format)))
        }
    }
}

/// `graph` needs at least one seam record file.
pub fn require_records(files: &Vec<String>) -> (r: Result<(), SeamError>)
    ensures
        files.len() == 0 <==> r is Err,
        r matches Err(e) ==> e is NoSeamRecords,
{
    if files.len() == 0 {
        Err(SeamError::NoSeamRecords)
    } else {
        Ok(())
    }
}

} // verus!
