use crate::errors::GraphError;
use crate::exec::{base_offset, calls_arity_sum, DynLinearExec};
use crate::node::DynCall;
use vstd::prelude::*;

verus! {

/// One named connection into a node: which node it comes from, which of
/// that node's output ports, and which input port it feeds here.
#[derive(Clone, Debug, PartialEq, Eq)]
pub struct Connection {
    pub from_id: String,
    pub from_port: String,
    pub to_port: String,
}

/// One authoring-graph node: an identity, a kind tag, its incoming
/// connections, and an optional payload.
#[derive(Clone, Debug, PartialEq, Eq)]
pub struct Node {
    pub id: String,
    pub kind: String,
    pub incoming_connections: Vec<Connection>,
    pub data: Option<String>,
}

/// The plain, serializable authoring graph: a list of nodes whose edges are
/// the nodes' incoming connections.
#[derive(Debug, PartialEq, Eq)]
pub struct PODGraph {
    pub nodes: Vec<Node>,
}

impl Default for PODGraph {
    fn default() -> (r: Self)
        ensures r.nodes@.len() == 0,
    {
        PODGraph { nodes: Vec::new() }
    }
}

/// The value `v` occurs somewhere in the sequence of positions.
pub open spec fn appears(order: Seq<usize>, v: usize) -> bool {
    exists|p: int| 0 <= p < order.len() && (#[trigger] order[p]) == v
}

/// Node `j` is the first node carrying the identity `id`.
pub open spec fn is_first_id_match(nodes: Seq<Node>, id: Seq<char>, j: int) -> bool {
    &&& 0 <= j < nodes.len()
    &&& nodes[j].id@ == id
    &&& forall|q: int| 0 <= q < j ==> (#[trigger] nodes[q].id@) != id
}

/// Some node carries the identity `id`.
pub open spec fn id_resolves(nodes: Seq<Node>, id: Seq<char>) -> bool {
    exists|j: int| 0 <= j < nodes.len() && (#[trigger] nodes[j].id@) == id
}

/// Every connection of every node names an identity the graph holds.
pub open spec fn all_sources_resolve(nodes: Seq<Node>) -> bool {
    forall|i: int, k: int|
        0 <= i < nodes.len() && 0 <= k < nodes[i].incoming_connections@.len() ==> id_resolves(
            nodes,
            (#[trigger] nodes[i].incoming_connections@[k]).from_id@,
        )
}

/// The dependency edge relation of the authoring graph: `u -> v` when some
/// incoming connection of node `v` names the identity whose first carrier
/// is node `u`.
pub open spec fn graph_edge(nodes: Seq<Node>, u: int, v: int) -> bool {
    &&& 0 <= v < nodes.len()
    &&& exists|k: int|
        0 <= k < nodes[v].incoming_connections@.len() && is_first_id_match(
            nodes,
            (#[trigger] nodes[v].incoming_connections@[k]).from_id@,
            u,
        )
}

/// A closed walk along dependency edges.
pub open spec fn is_graph_cycle(nodes: Seq<Node>, path: Seq<usize>) -> bool {
    &&& path.len() >= 2
    &&& path[0] == path[path.len() - 1]
    &&& forall|i: int|
        0 <= i < path.len() - 1 ==> graph_edge(nodes, #[trigger] path[i] as int, path[i + 1] as int)
}

/// The authoring graph has no dependency cycle.
pub open spec fn graph_acyclic(nodes: Seq<Node>) -> bool {
    !exists|path: Seq<usize>| is_graph_cycle(nodes, path)
}

/// A closed walk along the edges of a plain edge list.
pub open spec fn is_list_cycle(edges: Seq<(usize, usize)>, path: Seq<usize>) -> bool {
    &&& path.len() >= 2
    &&& path[0] == path[path.len() - 1]
    &&& forall|i: int| 0 <= i < path.len() - 1 ==> edges.contains((#[trigger] path[i], path[i + 1]))
}

/// The edge list describes a graph with no cycle.
pub open spec fn list_acyclic(edges: Seq<(usize, usize)>) -> bool {
    !exists|path: Seq<usize>| is_list_cycle(edges, path)
}

/// The total number of incoming connections over the first `i` nodes.
pub open spec fn total_connections(nodes: Seq<Node>, i: int) -> int
    decreases i,
{
    if i <= 0 {
        0
    } else {
        total_connections(nodes, i - 1) + nodes[i - 1].incoming_connections@.len()
    }
}

impl PODGraph {
    /// The position of the first node carrying `id`, or `NodeNotFound`.
    pub fn node_index(&self, id: &String) -> (r: Result<usize, GraphError>)
        ensures
            match r {
                Ok(j) => is_first_id_match(self.nodes@, id@, j as int),
                Err(e) => e == GraphError::NodeNotFound && !id_resolves(self.nodes@, id@),
            },
    {
        let n = self.nodes.len();
        let mut j: usize = 0;
        while j < n
            invariant
                j <= n,
                n == self.nodes@.len(),
                forall|q: int| 0 <= q < j ==> (#[trigger] self.nodes@[q].id@) != id@,
            decreases n - j,
        {
            if self.nodes[j].id.eq(id) {
                return Ok(j);
            }
            j += 1;
        }
        Err(GraphError::NodeNotFound)
    }
}

/// A topologically sorted view of an authoring graph: the graph itself
/// together with a permutation of its node positions in which every
/// dependency edge points forward.
pub struct SortedGraph<'a> {
    pub sort: Vec<usize>,
    pub graph: &'a PODGraph,
}

impl<'a> SortedGraph<'a> {
    /// The sorted view is a dependency-respecting permutation.
    pub open spec fn wf(&self) -> bool {
        &&& self.sort@.len() == self.graph.nodes@.len()
        &&& (forall|p: int|
            0 <= p < self.sort@.len() ==> (#[trigger] self.sort@[p]) < self.graph.nodes@.len())
        &&& (forall|p: int, q: int|
            0 <= p < self.sort@.len() && 0 <= q < self.sort@.len() && p != q ==> (
            #[trigger] self.sort@[p]) != #[trigger] self.sort@[q])
        &&& (forall|v: usize| v < self.graph.nodes@.len() ==> #[trigger] appears(self.sort@, v))
        &&& (forall|p: int, q: int|
            0 <= p < self.sort@.len() && 0 <= q < self.sort@.len() && graph_edge(
                self.graph.nodes@,
                #[trigger] self.sort@[p] as int,
                #[trigger] self.sort@[q] as int,
            ) ==> p < q)
    }

    /// Number of nodes in the sorted view.
    pub fn len(&self) -> (r: usize)
        ensures r == self.sort@.len(),
    {
        self.sort.len()
    }

    /// The sorted node positions, first to run first.
    pub fn order(&self) -> (r: &Vec<usize>)
        ensures r == &self.sort,
    {
        &self.sort
    }

    /// The node at sorted position `p`.
    pub fn node_at(&self, p: usize) -> (r: &'a Node)
        requires
            p < self.sort@.len(),
            self.sort@[p as int] < self.graph.nodes@.len(),
        ensures
            *r == self.graph.nodes@[self.sort@[p as int] as int],
    {
        &self.graph.nodes[self.sort[p]]
    }
}

/// Relies on petgraph's `toposort` over a `Graph` holding `n` unit nodes
/// and the given edges: it returns every node exactly once, in an order
/// where every edge points forward, and it returns an error exactly when
/// the edges contain a cycle.
#[verifier::external_body]
fn toposort_indices(n: usize, edges: &Vec<(usize, usize)>) -> (r: Result<Vec<usize>, GraphError>)
    requires
        n < 0xffff_ffffusize,
        edges@.len() < 0xffff_ffffusize,
        forall|k: int|
            0 <= k < edges@.len() ==> (#[trigger] edges@[k]).0 < n && edges@[k].1 < n,
    ensures
        match r {
            Ok(order) => {
                &&& order@.len() == n
                &&& (forall|p: int| 0 <= p < order@.len() ==> (#[trigger] order@[p]) < n)
                &&& (forall|p: int, q: int|
                    0 <= p < order@.len() && 0 <= q < order@.len() && p != q ==> (
                    #[trigger] order@[p]) != #[trigger] order@[q])
                &&& (forall|v: usize| v < n ==> #[trigger] appears(order@, v))
                &&& (forall|p: int, q: int|
                    0 <= p < order@.len() && 0 <= q < order@.len() && edges@.contains(
                        ((#[trigger] order@[p], #[trigger] order@[q])),
                    ) ==> p < q)
                &&& list_acyclic(edges@)
            },
            Err(e) => e == GraphError::CycleDetected && !list_acyclic(edges@),
        },
{
    let mut g = petgraph::graph::Graph::<(), ()>::new();
    let mut handles = Vec::new();
    for _ in 0..n {
        handles.push(g.add_node(()));
    }
    for e in edges.iter() {
        g.add_edge(handles[e.0], handles[e.1], ());
    }
    match petgraph::algo::toposort(&g, None) {
        Ok(order) => Ok(order.iter().map(|h| h.index()).collect()),
        Err(_) => Err(GraphError::CycleDetected),
    }
}

/// Relies on uuid's `Uuid::new_v4` for a practically unique random node
/// identity; nothing is assumed of the returned text.
#[verifier::external_body]
fn fresh_node_id() -> (r: String) {
    uuid::Uuid::new_v4().to_string()
}

/// Topologically sort an authoring graph: resolve every connection's source
/// identity to its first carrier, fail with `NodeNotFound` when one is
/// missing, and otherwise sort; a dependency cycle fails with
/// `CycleDetected` and produces no sorted view.
pub fn pod_to_sorted<'a>(graph: &'a PODGraph) -> (r: Result<SortedGraph<'a>, GraphError>)
    requires
        graph.nodes@.len() < 0xffff_ffffusize,
        total_connections(graph.nodes@, graph.nodes@.len() as int) < 0xffff_ffff,
    ensures
        match r {
            Ok(sg) => {
                &&& sg.graph == graph
                &&& all_sources_resolve(graph.nodes@)
                &&& graph_acyclic(graph.nodes@)
                &&& sg.wf()
            },
            Err(e) => (e == GraphError::NodeNotFound && !all_sources_resolve(graph.nodes@)) || (e
                == GraphError::CycleDetected && all_sources_resolve(graph.nodes@)
                && !graph_acyclic(graph.nodes@)),
        },
{
    let n = graph.nodes.len();
    let mut edges: Vec<(usize, usize)> = Vec::new();
    let mut i: usize = 0;
    while i < n
        invariant
            i <= n,
            n == graph.nodes@.len(),
            n < 0xffff_ffffusize,
            total_connections(graph.nodes@, n as int) < 0xffff_ffff,
            edges@.len() == total_connections(graph.nodes@, i as int),
            forall|e: int|
                0 <= e < edges@.len() ==> (#[trigger] edges@[e]).0 < n && edges@[e].1 < n,
            forall|u: usize, v: usize|
                edges@.contains((u, v)) ==> graph_edge(graph.nodes@, u as int, v as int),
            forall|v: int, k: int|
                0 <= v < i as int && 0 <= k < graph.nodes@[v].incoming_connections@.len()
                    ==> id_resolves(
                    graph.nodes@,
                    (#[trigger] graph.nodes@[v].incoming_connections@[k]).from_id@,
                ),
            forall|u: int, v: int|
                0 <= v < i as int && graph_edge(graph.nodes@, u, v) ==> edges@.contains(
                    ((u as usize, v as usize)),
                ),
        decreases n - i,
    {
        let nconn = graph.nodes[i].incoming_connections.len();
        let mut k: usize = 0;
        while k < nconn
            invariant
                k <= nconn,
                i < n,
                n == graph.nodes@.len(),
                nconn == graph.nodes@[i as int].incoming_connections@.len(),
                total_connections(graph.nodes@, n as int) < 0xffff_ffff,
                edges@.len() == total_connections(graph.nodes@, i as int) + k as int,
                forall|e: int|
                    0 <= e < edges@.len() ==> (#[trigger] edges@[e]).0 < n && edges@[e].1 < n,
                forall|u: usize, v: usize|
                    edges@.contains((u, v)) ==> graph_edge(graph.nodes@, u as int, v as int),
                forall|v: int, k2: int|
                    0 <= v < i as int && 0 <= k2 < graph.nodes@[v].incoming_connections@.len()
                        ==> id_resolves(
                        graph.nodes@,
                        (#[trigger] graph.nodes@[v].incoming_connections@[k2]).from_id@,
                    ),
                forall|k2: int|
                    0 <= k2 < k as int ==> id_resolves(
                        graph.nodes@,
                        (#[trigger] graph.nodes@[i as int].incoming_connections@[k2]).from_id@,
                    ),
                forall|u: int, v: int|
                    0 <= v < i as int && graph_edge(graph.nodes@, u, v) ==> edges@.contains(
                        ((u as usize, v as usize)),
                    ),
                forall|k2: int|
                    0 <= k2 < k as int ==> exists|e: int|
                        0 <= e < edges@.len() && (#[trigger] edges@[e]).1 == i && is_first_id_match(
                            graph.nodes@,
                            (#[trigger] graph.nodes@[i as int].incoming_connections@[k2]).from_id@,
                            edges@[e].0 as int,
                        ),
            decreases nconn - k,
        {
            proof {
                lemma_total_connections_monotonic(graph.nodes@, i as int + 1, n as int);
                assert(total_connections(graph.nodes@, i as int + 1) == total_connections(
                    graph.nodes@,
                    i as int,
                ) + nconn as int);
            }
            let from_index = match graph.node_index(&graph.nodes[i].incoming_connections[k].from_id)
                {
                Ok(j) => j,
                Err(e) => {
                    return Err(e);
                }
            };
            let ghost pre = edges@;
            edges.push((from_index, i));
            proof {
                let conn = graph.nodes@[i as int].incoming_connections@[k as int];
                assert(is_first_id_match(graph.nodes@, conn.from_id@, from_index as int));
                assert(graph_edge(graph.nodes@, from_index as int, i as int));
                assert forall|u: usize, v: usize| pre.contains((u, v)) implies edges@.contains(
                    (u, v),
                ) by {
                    let e = choose|e: int| 0 <= e < pre.len() && pre[e] == (u, v);
                    assert(edges@[e] == (u, v));
                }
                assert(edges@[pre.len() as int] == (from_index, i));
                assert(edges@.contains((from_index, i)));
                assert forall|u: usize, v: usize| edges@.contains((u, v)) implies graph_edge(
                    graph.nodes@,
                    u as int,
                    v as int,
                ) by {
                    let e = choose|e: int| 0 <= e < edges@.len() && edges@[e] == (u, v);
                    if e < pre.len() {
                        assert(pre[e] == (u, v));
                        assert(pre.contains((u, v)));
                    } else {
                        assert((u, v) == (from_index, i));
                    }
                }
                assert forall|k2: int| 0 <= k2 < k as int + 1 implies exists|e: int|
                    0 <= e < edges@.len() && (#[trigger] edges@[e]).1 == i && is_first_id_match(
                        graph.nodes@,
                        (#[trigger] graph.nodes@[i as int].incoming_connections@[k2]).from_id@,
                        edges@[e].0 as int,
                    ) by {
                    if k2 < k as int {
                        let e = choose|e: int|
                            0 <= e < pre.len() && (#[trigger] pre[e]).1 == i && is_first_id_match(
                                graph.nodes@,
                                graph.nodes@[i as int].incoming_connections@[k2].from_id@,
                                pre[e].0 as int,
                            );
                        assert(edges@[e] == pre[e]);
                    } else {
                        assert(edges@[pre.len() as int].1 == i && is_first_id_match(
                            graph.nodes@,
                            graph.nodes@[i as int].incoming_connections@[k2].from_id@,
                            edges@[pre.len() as int].0 as int,
                        ));
                    }
                }
            }
            k += 1;
        }
        proof {
            assert(total_connections(graph.nodes@, i as int + 1) == total_connections(
                graph.nodes@,
                i as int,
            ) + nconn as int);
            assert forall|u: int, v: int|
                0 <= v < i as int + 1 && graph_edge(graph.nodes@, u, v) implies edges@.contains(
                ((u as usize, v as usize)),
            ) by {
                if v == i as int {
                    let k2 = choose|k2: int|
                        0 <= k2 < graph.nodes@[v].incoming_connections@.len()
                            && is_first_id_match(
                            graph.nodes@,
                            (#[trigger] graph.nodes@[v].incoming_connections@[k2]).from_id@,
                            u,
                        );
                    let e = choose|e: int|
                        0 <= e < edges@.len() && (#[trigger] edges@[e]).1 == i
                            && is_first_id_match(
                            graph.nodes@,
                            graph.nodes@[i as int].incoming_connections@[k2].from_id@,
                            edges@[e].0 as int,
                        );
                    // first matches of one identity coincide
                    assert(edges@[e].0 as int == u);
                    assert(edges@.contains(((u as usize, i))));
                }
            }
        }
        i += 1;
    }

    let sort = match toposort_indices(n, &edges) {
        Ok(order) => order,
        Err(e) => {
            proof {
                lemma_cycle_transfer(edges@, graph.nodes@);
            }
            return Err(e);
        }
    };
    proof {
        lemma_cycle_transfer(edges@, graph.nodes@);
    }
    Ok(SortedGraph { sort, graph })
}

pub proof fn lemma_total_connections_monotonic(nodes: Seq<Node>, i: int, j: int)
    requires
        i <= j,
    ensures
        total_connections(nodes, i) <= total_connections(nodes, j),
    decreases j - i,
{
    if i < j {
        lemma_total_connections_monotonic(nodes, i, j - 1);
    }
}

/// When the edge list holds exactly the dependency edges of the graph, a
/// cycle in one is a cycle in the other.
proof fn lemma_cycle_transfer(edges: Seq<(usize, usize)>, nodes: Seq<Node>)
    requires
        forall|u: usize, v: usize|
            edges.contains((u, v)) ==> graph_edge(nodes, u as int, v as int),
        forall|u: int, v: int|
            0 <= v < nodes.len() && graph_edge(nodes, u, v) ==> edges.contains(
                ((u as usize, v as usize)),
            ),
    ensures
        list_acyclic(edges) == graph_acyclic(nodes),
{
    if !list_acyclic(edges) {
        let path = choose|path: Seq<usize>| is_list_cycle(edges, path);
        assert forall|i: int| 0 <= i < path.len() - 1 implies graph_edge(
            nodes,
            #[trigger] path[i] as int,
            path[i + 1] as int,
        ) by {
            assert(edges.contains((path[i], path[i + 1])));
        }
        assert(is_graph_cycle(nodes, path));
        assert(!graph_acyclic(nodes));
    }
    if !graph_acyclic(nodes) {
        let path = choose|path: Seq<usize>| is_graph_cycle(nodes, path);
        assert forall|i: int| 0 <= i < path.len() - 1 implies edges.contains(
            (#[trigger] path[i], path[i + 1]),
        ) by {
            assert(graph_edge(nodes, path[i] as int, path[i + 1] as int));
        }
        assert(is_list_cycle(edges, path));
        assert(!list_acyclic(edges));
    }
}


/// A handle on one output port of an authoring node.
#[derive(Clone, Debug, PartialEq, Eq)]
pub struct PortBuilder {
    pub index: usize,
    pub port: String,
}

/// A handle on one input port of an authoring node.
#[derive(Clone, Debug, PartialEq, Eq)]
pub struct InPort {
    pub index: usize,
    pub port: String,
}

/// A handle on one authoring node inside a `GraphBuilder`.
#[derive(Clone, Debug, PartialEq, Eq)]
pub struct NodeBuilder {
    pub index: usize,
}

impl NodeBuilder {
    /// Name one of this node's input ports.
    pub fn in_port(&self, port: &str) -> (r: InPort)
        ensures
            r.index == self.index,
            r.port@ == port@,
    {
        InPort { index: self.index, port: port.to_owned() }
    }

    /// Name one of this node's output ports.
    pub fn out_port(&self, port: &str) -> (r: PortBuilder)
        ensures
            r.index == self.index,
            r.port@ == port@,
    {
        PortBuilder { index: self.index, port: port.to_owned() }
    }
}

/// Incremental construction of an authoring graph: add nodes by kind, then
/// wire named output ports to named input ports.
#[derive(Debug)]
pub struct GraphBuilder {
    pub dag: PODGraph,
}

impl GraphBuilder {
    /// An empty graph under construction.
    pub fn new() -> (r: Self)
        ensures
            r.dag.nodes@.len() == 0,
    {
        GraphBuilder { dag: PODGraph { nodes: Vec::new() } }
    }

    /// Add one node of the given kind, under a fresh identity, and return a
    /// handle to wire its ports.
    pub fn add_node(&mut self, kind: &str) -> (r: NodeBuilder)
        ensures
            final(self).dag.nodes@.len() == old(self).dag.nodes@.len() + 1,
            forall|j: int|
                0 <= j < old(self).dag.nodes@.len() ==> #[trigger] final(self).dag.nodes@[j]
                    == old(self).dag.nodes@[j],
            final(self).dag.nodes@.last().kind@ == kind@,
            final(self).dag.nodes@.last().incoming_connections@.len() == 0,
            final(self).dag.nodes@.last().data is None,
            r.index == old(self).dag.nodes@.len(),
    {
        let index = self.dag.nodes.len();
        let node = Node {
            id: fresh_node_id(),
            kind: kind.to_owned(),
            incoming_connections: Vec::new(),
            data: None,
        };
        self.dag.nodes.push(node);
        NodeBuilder { index }
    }

    /// Wire an output port to an input port: record on the consumer a named
    /// connection from the producer's identity.
    pub fn connect(&mut self, from: &PortBuilder, to: &InPort)
        requires
            from.index < old(self).dag.nodes@.len(),
            to.index < old(self).dag.nodes@.len(),
        ensures
            final(self).dag.nodes@.len() == old(self).dag.nodes@.len(),
            forall|j: int|
                0 <= j < old(self).dag.nodes@.len() && j != to.index as int
                    ==> (#[trigger] final(self).dag.nodes@[j]) == old(self).dag.nodes@[j],
            ({
                let before = old(self).dag.nodes@[to.index as int];
                let after = final(self).dag.nodes@[to.index as int];
                &&& after.id == before.id
                &&& after.kind == before.kind
                &&& after.data == before.data
                &&& after.incoming_connections@.len() == before.incoming_connections@.len() + 1
                &&& forall|c: int|
                    0 <= c < before.incoming_connections@.len()
                        ==> #[trigger] after.incoming_connections@[c]
                        == before.incoming_connections@[c]
                &&& after.incoming_connections@.last().from_id@
                    == old(self).dag.nodes@[from.index as int].id@
                &&& after.incoming_connections@.last().from_port@ == from.port@
                &&& after.incoming_connections@.last().to_port@ == to.port@
            }),
    {
        let from_id = self.dag.nodes[from.index].id.clone();
        let connection = Connection {
            from_id,
            from_port: from.port.clone(),
            to_port: to.port.clone(),
        };
        let node = &mut self.dag.nodes[to.index];
        node.incoming_connections.push(connection);
    }

    /// Hand back the finished plain graph.
    pub fn build(self) -> (r: PODGraph)
        ensures
            r == self.dag,
    {
        self.dag
    }
}

/// The embedding application's mapping from a node's kind tag to a concrete
/// node-contract instance; looked up once per authoring node during
/// linearization.
pub trait NodeFactory<C: DynCall> {
    /// Create the node-contract instance for one authoring node.
    fn create(&self, node: &Node) -> Result<C, GraphError>;
}

/// Instantiate every node of a sorted graph through the factory, in sorted
/// order, and build a fresh, unwired executor over the instances.  Fails
/// with the factory's error on an unknown kind, or with `GraphTooLarge`
/// when the output arities demand more store slots than the machine can
/// index.
pub fn sorted_to_exec<C: DynCall, F: NodeFactory<C>>(
    sorted: &SortedGraph<'_>,
    factory: &F,
) -> (r: Result<DynLinearExec<C>, GraphError>)
    requires
        sorted.wf(),
    ensures
        r matches Ok(exec) ==> {
            &&& exec.nodes@.len() == sorted.sort@.len()
            &&& exec.dirty.state@.len() == sorted.sort@.len()
            &&& (forall|i: int|
                0 <= i < sorted.sort@.len() ==> exec.dirty.state@[i]
                    == crate::dirty::DirtyEnum::NeedCompute)
            &&& (forall|i: int|
                0 <= i < sorted.sort@.len() ==> (#[trigger] exec.nodes@[i]).input_indices@.len()
                    == 0 && exec.nodes@[i].children@.len() == 0)
            &&& exec.store.values@.len() == base_offset(exec.nodes@, exec.nodes@.len() as int)
            &&& (forall|t: int|
                0 <= t < exec.store.values@.len() ==> exec.store.values@[t] is None)
        },
        sorted.sort@.len() == 0 ==> r is Ok,
{
    let n = sorted.len();
    let mut calls: Vec<C> = Vec::new();
    let mut p: usize = 0;
    while p < n
        invariant
            p <= n,
            n == sorted.sort@.len(),
            sorted.wf(),
            calls@.len() == p,
        decreases n - p,
    {
        let node = sorted.node_at(p);
        let call = match factory.create(node) {
            Ok(c) => c,
            Err(e) => {
                return Err(e);
            }
        };
        calls.push(call);
        p += 1;
    }
    let mut size: usize = 0;
    let mut i: usize = 0;
    while i < n
        invariant
            i <= n,
            n == calls@.len(),
            n == sorted.sort@.len(),
            size as int == calls_arity_sum(calls@, i as int),
        decreases n - i,
    {
        let a = calls[i].output_len();
        size = match size.checked_add(a) {
            Some(x) => x,
            None => {
                return Err(GraphError::GraphTooLarge);
            }
        };
        i += 1;
    }
    Ok(DynLinearExec::new(calls))
}

} // verus!
