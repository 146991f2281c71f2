use crate::dirty::DirtyEnum;
use crate::errors::GraphError;
use crate::exec::{base_offset, wired, DynLinearExec, ExecNode};
use crate::graph::{
    graph_edge, is_first_id_match, Connection, Node, SortedGraph,
};
use crate::node::DynCall;
use vstd::prelude::*;

verus! {

/// Static port metadata for one node kind: the names of its declared
/// inputs and outputs, in declared order.
#[derive(Clone, Debug, PartialEq, Eq)]
pub struct NodeDesc {
    pub inputs: Vec<String>,
    pub outputs: Vec<String>,
}

/// The embedding application's catalogue of node kinds: port metadata by
/// kind tag, looked up once per node during linearization.
pub trait NodeDatabase {
    /// The port metadata of one node kind, or `UnknownKind`.
    fn lookup(&self, kind: &String) -> Result<NodeDesc, GraphError>;
}

/// The store offset where the outputs of the node at sorted position `i`
/// begin: the sum of the output arities of all earlier sorted nodes.
pub open spec fn desc_offset(descs: Seq<NodeDesc>, i: int) -> int
    decreases i,
{
    if i <= 0 {
        0
    } else {
        desc_offset(descs, i - 1) + descs[i - 1].outputs@.len()
    }
}

pub proof fn lemma_desc_offset_monotonic(descs: Seq<NodeDesc>, i: int, j: int)
    requires
        i <= j,
    ensures
        desc_offset(descs, i) <= desc_offset(descs, j),
    decreases j - i,
{
    if i < j {
        lemma_desc_offset_monotonic(descs, i, j - 1);
    }
}

/// Connection `c` is the first one wired to the input port named `port`.
pub open spec fn is_first_conn(conns: Seq<Connection>, port: Seq<char>, c: int) -> bool {
    &&& 0 <= c < conns.len()
    &&& conns[c].to_port@ == port
    &&& forall|q: int| 0 <= q < c ==> (#[trigger] conns[q].to_port@) != port
}

/// Sorted position `p` is the first one whose node carries the identity
/// `id`.
pub open spec fn is_first_sorted_pos(
    nodes: Seq<Node>,
    sort: Seq<usize>,
    id: Seq<char>,
    p: int,
) -> bool {
    &&& 0 <= p < sort.len()
    &&& nodes[sort[p] as int].id@ == id
    &&& forall|q: int| 0 <= q < p ==> (#[trigger] nodes[sort[q] as int].id@) != id
}

/// Output index `oi` is the first output port named `port`.
pub open spec fn is_first_out(outputs: Seq<String>, port: Seq<char>, oi: int) -> bool {
    &&& 0 <= oi < outputs.len()
    &&& outputs[oi]@ == port
    &&& forall|q: int| 0 <= q < oi ==> (#[trigger] outputs[q]@) != port
}

/// The incoming connections of the node at sorted position `i`.
pub open spec fn conns_of(nodes: Seq<Node>, sort: Seq<usize>, i: int) -> Seq<Connection> {
    nodes[sort[i] as int].incoming_connections@
}

/// Why resolving declared input `k` of the node at sorted position `i`
/// fails, or `None` when it resolves: the input port must have a matching
/// incoming connection, the connection's source identity must occur among
/// the sorted nodes, and the source's description must declare the named
/// output port.
pub open spec fn fails_at(
    nodes: Seq<Node>,
    sort: Seq<usize>,
    descs: Seq<NodeDesc>,
    i: int,
    k: int,
) -> Option<GraphError> {
    let conns = conns_of(nodes, sort, i);
    let port = descs[i].inputs@[k]@;
    if !(exists|c: int| is_first_conn(conns, port, c)) {
        Some(GraphError::MissingConnection)
    } else {
        let c = choose|c: int| is_first_conn(conns, port, c);
        if !(exists|p: int| is_first_sorted_pos(nodes, sort, conns[c].from_id@, p)) {
            Some(GraphError::NodeNotFound)
        } else {
            let p = choose|p: int| is_first_sorted_pos(nodes, sort, conns[c].from_id@, p);
            if !(exists|oi: int| is_first_out(descs[p].outputs@, conns[c].from_port@, oi)) {
                Some(GraphError::MissingPort)
            } else {
                None
            }
        }
    }
}

/// The absolute store offset that input `k` of the node at sorted position
/// `i` resolves to, defined when `fails_at` is `None`.
pub open spec fn resolved_offset(
    nodes: Seq<Node>,
    sort: Seq<usize>,
    descs: Seq<NodeDesc>,
    i: int,
    k: int,
) -> int {
    let conns = conns_of(nodes, sort, i);
    let port = descs[i].inputs@[k]@;
    let c = choose|c: int| is_first_conn(conns, port, c);
    let p = choose|p: int| is_first_sorted_pos(nodes, sort, conns[c].from_id@, p);
    let oi = choose|oi: int| is_first_out(descs[p].outputs@, conns[c].from_port@, oi);
    desc_offset(descs, p) + oi
}

/// One pair of sorted position and input index comes strictly before
/// another in resolution order.
pub open spec fn lex_before(i1: int, k1: int, i2: int, k2: int) -> bool {
    i1 < i2 || (i1 == i2 && k1 < k2)
}

/// If any index of `nodes` carries `id`, a first such index exists.
pub proof fn lemma_first_id_match_exists(nodes: Seq<Node>, id: Seq<char>, j: int)
    requires
        0 <= j < nodes.len(),
        nodes[j].id@ == id,
    ensures
        exists|u: int| is_first_id_match(nodes, id, u),
    decreases j,
{
    if exists|q: int| 0 <= q < j && (#[trigger] nodes[q].id@) == id {
        let q = choose|q: int| 0 <= q < j && (#[trigger] nodes[q].id@) == id;
        lemma_first_id_match_exists(nodes, id, q);
    } else {
        assert(is_first_id_match(nodes, id, j));
    }
}

fn find_connection(conns: &Vec<Connection>, port: &String) -> (r: Result<usize, GraphError>)
    ensures
        match r {
            Ok(c) => is_first_conn(conns@, port@, c as int),
            Err(e) => e == GraphError::MissingConnection && !(exists|c: int|
                is_first_conn(conns@, port@, c)),
        },
{
    let n = conns.len();
    let mut c: usize = 0;
    while c < n
        invariant
            c <= n,
            n == conns@.len(),
            forall|q: int| 0 <= q < c ==> (#[trigger] conns@[q].to_port@) != port@,
        decreases n - c,
    {
        if conns[c].to_port.eq(port) {
            return Ok(c);
        }
        c += 1;
    }
    Err(GraphError::MissingConnection)
}

fn sorted_position(sorted: &SortedGraph<'_>, id: &String) -> (r: Result<usize, GraphError>)
    requires
        sorted.wf(),
    ensures
        match r {
            Ok(p) => is_first_sorted_pos(sorted.graph.nodes@, sorted.sort@, id@, p as int),
            Err(e) => e == GraphError::NodeNotFound && !(exists|p: int|
                is_first_sorted_pos(sorted.graph.nodes@, sorted.sort@, id@, p)),
        },
{
    let n = sorted.len();
    let mut p: usize = 0;
    while p < n
        invariant
            p <= n,
            n == sorted.sort@.len(),
            sorted.wf(),
            forall|q: int|
                0 <= q < p ==> (#[trigger] sorted.graph.nodes@[sorted.sort@[q] as int].id@) != id@,
        decreases n - p,
    {
        let node = sorted.node_at(p);
        if node.id.eq(id) {
            return Ok(p);
        }
        p += 1;
    }
    Err(GraphError::NodeNotFound)
}

fn find_output(outputs: &Vec<String>, port: &String) -> (r: Result<usize, GraphError>)
    ensures
        match r {
            Ok(oi) => is_first_out(outputs@, port@, oi as int),
            Err(e) => e == GraphError::MissingPort && !(exists|oi: int|
                is_first_out(outputs@, port@, oi)),
        },
{
    let n = outputs.len();
    let mut oi: usize = 0;
    while oi < n
        invariant
            oi <= n,
            n == outputs@.len(),
            forall|q: int| 0 <= q < oi ==> (#[trigger] outputs@[q]@) != port@,
        decreases n - oi,
    {
        if outputs[oi].eq(port) {
            return Ok(oi);
        }
        oi += 1;
    }
    Err(GraphError::MissingPort)
}

/// Resolve every declared input of every sorted node to an absolute store
/// offset.  On success, each offset is the source node's allocation offset
/// plus its output port index, and every resolved offset lies strictly
/// below the consuming node's own allocation offset, because a connection's
/// source always sorts earlier than its consumer.  On failure, the returned
/// error names the first input, in resolution order, that does not resolve.
pub fn resolve_mappings(sorted: &SortedGraph<'_>, descs: &Vec<NodeDesc>) -> (r: Result<
    Vec<Vec<usize>>,
    GraphError,
>)
    requires
        sorted.wf(),
        descs@.len() == sorted.sort@.len(),
        desc_offset(descs@, descs@.len() as int) <= usize::MAX,
    ensures
        match r {
            Ok(mapping) => {
                &&& mapping@.len() == descs@.len()
                &&& (forall|i: int|
                    0 <= i < descs@.len() ==> (#[trigger] mapping@[i])@.len()
                        == descs@[i].inputs@.len())
                &&& (forall|i: int, k: int|
                    0 <= i < descs@.len() && 0 <= k < descs@[i].inputs@.len() ==> #[trigger]
                    fails_at(sorted.graph.nodes@, sorted.sort@, descs@, i, k) is None)
                &&& (forall|i: int, k: int|
                    0 <= i < descs@.len() && 0 <= k < descs@[i].inputs@.len()
                        ==> (#[trigger] mapping@[i]@[k]) as int == resolved_offset(
                        sorted.graph.nodes@,
                        sorted.sort@,
                        descs@,
                        i,
                        k,
                    ))
                &&& (forall|i: int, k: int|
                    0 <= i < descs@.len() && 0 <= k < descs@[i].inputs@.len()
                        ==> (#[trigger] mapping@[i]@[k]) < desc_offset(descs@, i))
            },
            Err(e) => exists|i: int, k: int|
                {
                    &&& 0 <= i < descs@.len()
                    &&& 0 <= k < descs@[i].inputs@.len()
                    &&& #[trigger] fails_at(sorted.graph.nodes@, sorted.sort@, descs@, i, k)
                        == Some(e)
                    &&& forall|i2: int, k2: int|
                        0 <= i2 < descs@.len() && 0 <= k2 < descs@[i2].inputs@.len() && lex_before(
                            i2,
                            k2,
                            i,
                            k,
                        ) ==> #[trigger] fails_at(
                            sorted.graph.nodes@,
                            sorted.sort@,
                            descs@,
                            i2,
                            k2,
                        ) is None
                },
        },
{
    let ghost nodes = sorted.graph.nodes@;
    let ghost sortv = sorted.sort@;
    let n = descs.len();

    // allocation offsets of each sorted node, by accumulating output arities
    let mut offsets: Vec<usize> = Vec::new();
    let mut acc: usize = 0;
    let mut p: usize = 0;
    while p < n
        invariant
            p <= n,
            n == descs@.len(),
            desc_offset(descs@, n as int) <= usize::MAX,
            offsets@.len() == p,
            acc as int == desc_offset(descs@, p as int),
            forall|q: int| 0 <= q < p ==> (#[trigger] offsets@[q]) as int == desc_offset(descs@, q),
        decreases n - p,
    {
        proof {
            lemma_desc_offset_monotonic(descs@, p as int + 1, n as int);
        }
        offsets.push(acc);
        acc = acc + descs[p].outputs.len();
        p += 1;
    }

    let mut mapping: Vec<Vec<usize>> = Vec::new();
    let mut i: usize = 0;
    while i < n
        invariant
            i <= n,
            n == descs@.len(),
            nodes == sorted.graph.nodes@,
            sortv == sorted.sort@,
            sorted.wf(),
            descs@.len() == sorted.sort@.len(),
            desc_offset(descs@, n as int) <= usize::MAX,
            offsets@.len() == n,
            forall|q: int| 0 <= q < n ==> (#[trigger] offsets@[q]) as int == desc_offset(descs@, q),
            mapping@.len() == i,
            forall|i2: int|
                0 <= i2 < i as int ==> (#[trigger] mapping@[i2])@.len()
                    == descs@[i2].inputs@.len(),
            forall|i2: int, k2: int|
                0 <= i2 < i as int && 0 <= k2 < descs@[i2].inputs@.len() ==> #[trigger] fails_at(
                    nodes,
                    sortv,
                    descs@,
                    i2,
                    k2,
                ) is None,
            forall|i2: int, k2: int|
                0 <= i2 < i as int && 0 <= k2 < descs@[i2].inputs@.len()
                    ==> (#[trigger] mapping@[i2]@[k2]) as int == resolved_offset(
                    nodes,
                    sortv,
                    descs@,
                    i2,
                    k2,
                ),
            forall|i2: int, k2: int|
                0 <= i2 < i as int && 0 <= k2 < descs@[i2].inputs@.len()
                    ==> (#[trigger] mapping@[i2]@[k2]) < desc_offset(descs@, i2),
        decreases n - i,
    {
        let node = sorted.node_at(i);
        let ninputs = descs[i].inputs.len();
        let mut row: Vec<usize> = Vec::new();
        let mut k: usize = 0;
        while k < ninputs
            invariant
                k <= ninputs,
                i < n,
                n == descs@.len(),
                nodes == sorted.graph.nodes@,
                sortv == sorted.sort@,
                sorted.wf(),
                descs@.len() == sorted.sort@.len(),
                desc_offset(descs@, n as int) <= usize::MAX,
                offsets@.len() == n,
                forall|q: int|
                    0 <= q < n ==> (#[trigger] offsets@[q]) as int == desc_offset(descs@, q),
                ninputs == descs@[i as int].inputs@.len(),
                *node == nodes[sortv[i as int] as int],
                mapping@.len() == i,
                forall|i2: int|
                    0 <= i2 < i as int ==> (#[trigger] mapping@[i2])@.len()
                        == descs@[i2].inputs@.len(),
                forall|i2: int, k2: int|
                    0 <= i2 < i as int && 0 <= k2 < descs@[i2].inputs@.len()
                        ==> #[trigger] fails_at(nodes, sortv, descs@, i2, k2) is None,
                forall|i2: int, k2: int|
                    0 <= i2 < i as int && 0 <= k2 < descs@[i2].inputs@.len()
                        ==> (#[trigger] mapping@[i2]@[k2]) as int == resolved_offset(
                        nodes,
                        sortv,
                        descs@,
                        i2,
                        k2,
                    ),
                forall|i2: int, k2: int|
                    0 <= i2 < i as int && 0 <= k2 < descs@[i2].inputs@.len()
                        ==> (#[trigger] mapping@[i2]@[k2]) < desc_offset(descs@, i2),
                row@.len() == k,
                forall|k2: int|
                    0 <= k2 < k as int ==> #[trigger] fails_at(nodes, sortv, descs@, i as int, k2)
                        is None,
                forall|k2: int|
                    0 <= k2 < k as int ==> (#[trigger] row@[k2]) as int == resolved_offset(
                        nodes,
                        sortv,
                        descs@,
                        i as int,
                        k2,
                    ),
                forall|k2: int|
                    0 <= k2 < k as int ==> (#[trigger] row@[k2]) < desc_offset(descs@, i as int),
            decreases ninputs - k,
        {
            let c = match find_connection(&node.incoming_connections, &descs[i].inputs[k]) {
                Ok(c) => c,
                Err(e) => {
                    proof {
                        assert(fails_at(nodes, sortv, descs@, i as int, k as int) == Some(e));
                    }
                    return Err(e);
                }
            };
            let src = match sorted_position(sorted, &node.incoming_connections[c].from_id) {
                Ok(p2) => p2,
                Err(e) => {
                    proof {
                        let cc = choose|cc: int|
                            is_first_conn(
                                conns_of(nodes, sortv, i as int),
                                descs@[i as int].inputs@[k as int]@,
                                cc,
                            );
                        assert(cc == c as int);
                        assert(fails_at(nodes, sortv, descs@, i as int, k as int) == Some(e));
                    }
                    return Err(e);
                }
            };
            let oi = match find_output(&descs[src].outputs, &node.incoming_connections[c].from_port)
                {
                Ok(oi) => oi,
                Err(e) => {
                    proof {
                        let cc = choose|cc: int|
                            is_first_conn(
                                conns_of(nodes, sortv, i as int),
                                descs@[i as int].inputs@[k as int]@,
                                cc,
                            );
                        assert(cc == c as int);
                        let pp = choose|pp: int|
                            is_first_sorted_pos(
                                nodes,
                                sortv,
                                conns_of(nodes, sortv, i as int)[cc].from_id@,
                                pp,
                            );
                        assert(pp == src as int);
                        assert(fails_at(nodes, sortv, descs@, i as int, k as int) == Some(e));
                    }
                    return Err(e);
                }
            };
            proof {
                let cc = choose|cc: int|
                    is_first_conn(
                        conns_of(nodes, sortv, i as int),
                        descs@[i as int].inputs@[k as int]@,
                        cc,
                    );
                assert(cc == c as int);
                let pp = choose|pp: int|
                    is_first_sorted_pos(
                        nodes,
                        sortv,
                        conns_of(nodes, sortv, i as int)[cc].from_id@,
                        pp,
                    );
                assert(pp == src as int);
                let oo = choose|oo: int|
                    is_first_out(
                        descs@[pp].outputs@,
                        conns_of(nodes, sortv, i as int)[cc].from_port@,
                        oo,
                    );
                assert(oo == oi as int);
                assert(fails_at(nodes, sortv, descs@, i as int, k as int) is None);
                assert(resolved_offset(nodes, sortv, descs@, i as int, k as int) == desc_offset(
                    descs@,
                    src as int,
                ) + oi as int);

                // the source sorts strictly earlier than the consumer
                let id = conns_of(nodes, sortv, i as int)[cc].from_id@;
                lemma_first_id_match_exists(nodes, id, sortv[src as int] as int);
                let u = choose|u: int| is_first_id_match(nodes, id, u);
                assert(graph_edge(nodes, u, sortv[i as int] as int));
                assert(crate::graph::appears(sortv, u as usize));
                let pu = choose|q: int| 0 <= q < sortv.len() && (#[trigger] sortv[q]) == u as usize;
                assert(graph_edge(nodes, sortv[pu] as int, sortv[i as int] as int));
                assert(pu < i as int);
                assert(nodes[sortv[pu] as int].id@ == id);
                assert(src as int <= pu);
                assert((src as int) < i as int);
                lemma_desc_offset_monotonic(descs@, src as int + 1, i as int);
                lemma_desc_offset_monotonic(descs@, i as int, n as int);
                lemma_desc_offset_monotonic(descs@, 0, src as int);
            }
            let offset = offsets[src] + oi;
            row.push(offset);
            k += 1;
        }
        mapping.push(row);
        i += 1;
    }
    Ok(mapping)
}

/// The linear execution description: per-node port metadata in sorted
/// order, and every declared input resolved to an absolute store offset.
#[derive(Debug)]
pub struct LinearExecutionDesc {
    pub description: Vec<NodeDesc>,
    pub input_mapping: Vec<Vec<usize>>,
}

impl LinearExecutionDesc {
    /// Look up every sorted node's kind in the database and resolve every
    /// declared input to an absolute store offset.  Whatever descriptions
    /// the database returned, every resolved offset lies strictly below the
    /// consuming node's own allocation offset.
    pub fn new<DB: NodeDatabase>(sorted: &SortedGraph<'_>, db: &DB) -> (r: Result<
        LinearExecutionDesc,
        GraphError,
    >)
        requires
            sorted.wf(),
        ensures
            r matches Ok(led) ==> {
                &&& led.description@.len() == sorted.sort@.len()
                &&& led.input_mapping@.len() == led.description@.len()
                &&& (forall|i: int|
                    0 <= i < led.description@.len() ==> (#[trigger] led.input_mapping@[i])@.len()
                        == led.description@[i].inputs@.len())
                &&& (forall|i: int, k: int|
                    0 <= i < led.description@.len() && 0 <= k
                        < led.description@[i].inputs@.len() ==> #[trigger] fails_at(
                        sorted.graph.nodes@,
                        sorted.sort@,
                        led.description@,
                        i,
                        k,
                    ) is None)
                &&& (forall|i: int, k: int|
                    0 <= i < led.description@.len() && 0 <= k
                        < led.description@[i].inputs@.len()
                        ==> (#[trigger] led.input_mapping@[i]@[k]) as int == resolved_offset(
                        sorted.graph.nodes@,
                        sorted.sort@,
                        led.description@,
                        i,
                        k,
                    ))
                &&& (forall|i: int, k: int|
                    0 <= i < led.description@.len() && 0 <= k
                        < led.description@[i].inputs@.len() ==> (
                    #[trigger] led.input_mapping@[i]@[k]) < desc_offset(led.description@, i))
            },
            sorted.sort@.len() == 0 ==> r is Ok,
    {
        let n = sorted.len();
        let mut descs: Vec<NodeDesc> = Vec::new();
        let mut p: usize = 0;
        while p < n
            invariant
                p <= n,
                n == sorted.sort@.len(),
                sorted.wf(),
                descs@.len() == p,
            decreases n - p,
        {
            let node = sorted.node_at(p);
            let desc = match db.lookup(&node.kind) {
                Ok(d) => d,
                Err(e) => {
                    return Err(e);
                }
            };
            descs.push(desc);
            p += 1;
        }
        let total = {
            let mut acc: usize = 0;
            let mut q: usize = 0;
            while q < n
                invariant
                    q <= n,
                    n == descs@.len(),
                    n == sorted.sort@.len(),
                    acc as int == desc_offset(descs@, q as int),
                decreases n - q,
            {
                acc = match acc.checked_add(descs[q].outputs.len()) {
                    Some(x) => x,
                    None => {
                        return Err(GraphError::GraphTooLarge);
                    }
                };
                q += 1;
            }
            acc
        };
        proof {
            assert(desc_offset(descs@, descs@.len() as int) <= usize::MAX);
        }
        let input_mapping = match resolve_mappings(sorted, &descs) {
            Ok(m) => m,
            Err(e) => {
                return Err(e);
            }
        };
        Ok(LinearExecutionDesc { description: descs, input_mapping })
    }
}


/// Node `consumer` reads at least one of node `producer`'s output slots:
/// one of its resolved input offsets falls inside the producer's allocated
/// output range.
pub open spec fn consumes(
    mapping: Seq<Vec<usize>>,
    descs: Seq<NodeDesc>,
    producer: int,
    consumer: int,
) -> bool {
    &&& 0 <= consumer < mapping.len()
    &&& exists|k: int|
        0 <= k < mapping[consumer]@.len() && desc_offset(descs, producer) <= (
        #[trigger] mapping[consumer]@[k]) < desc_offset(descs, producer)
            + descs[producer].outputs@.len()
}

/// When node arities agree with the descriptions, the executor's base
/// offsets coincide with the descriptions' allocation offsets.
pub proof fn lemma_desc_base_agree<C: DynCall>(
    descs: Seq<NodeDesc>,
    nodes: Seq<ExecNode<C>>,
    i: int,
)
    requires
        forall|j: int|
            0 <= j < i ==> (#[trigger] nodes[j]).call.spec_output_len()
                == descs[j].outputs@.len(),
    ensures
        base_offset(nodes, i) == desc_offset(descs, i),
    decreases i,
{
    if i > 0 {
        lemma_desc_base_agree(descs, nodes, i - 1);
    }
}

impl LinearExecutionDesc {
    /// Assemble the resolved description into a fully wired executor over
    /// the given node instances, one per sorted position: each node's input
    /// offsets come from the mapping, and its recorded children are exactly
    /// the nodes that consume one of its outputs, in ascending position
    /// order.  The result is well-formed and fresh: every flag
    /// `NeedCompute`, every store slot empty.
    pub fn wire<C: DynCall>(&self, calls: Vec<C>) -> (r: DynLinearExec<C>)
        requires
            calls@.len() == self.description@.len(),
            self.input_mapping@.len() == self.description@.len(),
            forall|i: int|
                0 <= i < calls@.len() ==> (#[trigger] calls@[i]).spec_input_len()
                    == self.description@[i].inputs@.len() && calls@[i].spec_output_len()
                    == self.description@[i].outputs@.len(),
            forall|i: int|
                0 <= i < self.input_mapping@.len() ==> (#[trigger] self.input_mapping@[i])@.len()
                    == self.description@[i].inputs@.len(),
            forall|i: int, k: int|
                0 <= i < self.input_mapping@.len() && 0 <= k < self.input_mapping@[i]@.len()
                    ==> (#[trigger] self.input_mapping@[i]@[k]) < desc_offset(
                    self.description@,
                    i,
                ),
            desc_offset(self.description@, self.description@.len() as int) <= usize::MAX,
        ensures
            r.wf(),
            r.nodes@.len() == calls@.len(),
            forall|i: int| 0 <= i < calls@.len() ==> (#[trigger] r.nodes@[i]).call == calls@[i],
            forall|i: int|
                0 <= i < calls@.len() ==> (#[trigger] r.nodes@[i]).input_indices@
                    == self.input_mapping@[i]@,
            forall|i: int, x: usize|
                0 <= i < calls@.len() ==> ((#[trigger] r.nodes@[i].children@.contains(x))
                    <==> consumes(self.input_mapping@, self.description@, i, x as int)),
            forall|i: int, a: int, b: int|
                #![trigger r.nodes@[i].children@[a], r.nodes@[i].children@[b]]
                0 <= i < calls@.len() && 0 <= a < b < r.nodes@[i].children@.len()
                    ==> r.nodes@[i].children@[a] < r.nodes@[i].children@[b],
            forall|i: int|
                0 <= i < calls@.len() ==> r.dirty.state@[i] == DirtyEnum::NeedCompute,
            forall|t: int| 0 <= t < r.store.values@.len() ==> r.store.values@[t] is None,
            r.store.values@.len() == base_offset(r.nodes@, r.nodes@.len() as int),
    {
        let ghost calls0 = calls@;
        let ghost descs = self.description@;
        let ghost mapping = self.input_mapping@;
        let n = calls.len();

        // allocation offsets of each sorted position
        let mut offsets: Vec<usize> = Vec::new();
        let mut acc: usize = 0;
        let mut p: usize = 0;
        while p < n
            invariant
                p <= n,
                n == descs.len(),
                descs == self.description@,
                desc_offset(descs, n as int) <= usize::MAX,
                offsets@.len() == p,
                acc as int == desc_offset(descs, p as int),
                forall|q: int|
                    0 <= q < p ==> (#[trigger] offsets@[q]) as int == desc_offset(descs, q),
            decreases n - p,
        {
            proof {
                lemma_desc_offset_monotonic(descs, p as int + 1, n as int);
            }
            offsets.push(acc);
            acc = acc + self.description[p].outputs.len();
            p += 1;
        }

        let mut rest = calls;
        let mut nodes: Vec<ExecNode<C>> = Vec::new();
        let mut i: usize = 0;
        while i < n
            invariant
                i <= n,
                n == calls0.len(),
                n == descs.len(),
                n == mapping.len(),
                descs == self.description@,
                mapping == self.input_mapping@,
                desc_offset(descs, n as int) <= usize::MAX,
                offsets@.len() == n,
                forall|q: int|
                    0 <= q < n ==> (#[trigger] offsets@[q]) as int == desc_offset(descs, q),
                forall|i2: int|
                    0 <= i2 < n ==> (#[trigger] mapping[i2])@.len() == descs[i2].inputs@.len(),
                forall|i2: int, k: int|
                    0 <= i2 < n && 0 <= k < mapping[i2]@.len() ==> (#[trigger] mapping[i2]@[k])
                        < desc_offset(descs, i2),
                rest@ == calls0.subrange(i as int, n as int),
                nodes@.len() == i,
                forall|i2: int|
                    0 <= i2 < i as int ==> (#[trigger] nodes@[i2]).call == calls0[i2],
                forall|i2: int|
                    0 <= i2 < i as int ==> (#[trigger] nodes@[i2]).input_indices@
                        == mapping[i2]@,
                forall|i2: int, x: usize|
                    0 <= i2 < i as int ==> ((#[trigger] nodes@[i2].children@.contains(x))
                        <==> consumes(mapping, descs, i2, x as int)),
                forall|i2: int, a: int, b: int|
                    #![trigger nodes@[i2].children@[a], nodes@[i2].children@[b]]
                    0 <= i2 < i as int && 0 <= a < b < nodes@[i2].children@.len()
                        ==> nodes@[i2].children@[a] < nodes@[i2].children@[b],
                forall|i2: int, q: int|
                    0 <= i2 < i as int && 0 <= q < nodes@[i2].children@.len()
                        ==> i2 < ((#[trigger] nodes@[i2].children@[q]) as int) < n as int,
            decreases n - i,
        {
            let call = rest.remove(0);

            let mut inputs_i: Vec<usize> = Vec::new();
            let ml = self.input_mapping[i].len();
            let mut k: usize = 0;
            while k < ml
                invariant
                    k <= ml,
                    i < n,
                    n == mapping.len(),
                    mapping == self.input_mapping@,
                    ml == mapping[i as int]@.len(),
                    inputs_i@ == mapping[i as int]@.subrange(0, k as int),
                decreases ml - k,
            {
                inputs_i.push(self.input_mapping[i][k]);
                k += 1;
            }
            proof {
                assert(inputs_i@ =~= mapping[i as int]@);
            }

            let mut children_i: Vec<usize> = Vec::new();
            let mut j: usize = i + 1;
            while j < n
                invariant
                    i < j,
                    j <= n,
                    i < n,
                    n == descs.len(),
                    n == mapping.len(),
                    descs == self.description@,
                    mapping == self.input_mapping@,
                    desc_offset(descs, n as int) <= usize::MAX,
                    offsets@.len() == n,
                    forall|q: int|
                        0 <= q < n ==> (#[trigger] offsets@[q]) as int == desc_offset(descs, q),
                    forall|x: usize|
                        (#[trigger] children_i@.contains(x)) ==> i < (x as int) < j as int
                            && consumes(mapping, descs, i as int, x as int),
                    forall|x: int|
                        i < x < j as int && consumes(mapping, descs, i as int, x)
                            ==> children_i@.contains(x as usize),
                    forall|a: int, b: int|
                        0 <= a < b < children_i@.len() ==> (#[trigger] children_i@[a])
                            < #[trigger] children_i@[b],
                    forall|q: int|
                        0 <= q < children_i@.len() ==> i < (#[trigger] children_i@[q] as int)
                            < j as int,
                decreases n - j,
            {
                proof {
                    lemma_desc_offset_monotonic(descs, i as int + 1, n as int);
                }
                let lo = offsets[i];
                let hi = lo + self.description[i].outputs.len();
                let mlen = self.input_mapping[j].len();
                let mut found = false;
                let mut k2: usize = 0;
                while k2 < mlen
                    invariant
                        k2 <= mlen,
                        i < n,
                        j < n,
                        n == mapping.len(),
                        n == descs.len(),
                        mapping == self.input_mapping@,
                        descs == self.description@,
                        mlen == mapping[j as int]@.len(),
                        lo as int == desc_offset(descs, i as int),
                        hi as int == desc_offset(descs, i as int) + descs[i as int].outputs@.len(),
                        found <==> exists|k3: int|
                            0 <= k3 < k2 as int && lo <= (#[trigger] mapping[j as int]@[k3]) < hi,
                    decreases mlen - k2,
                {
                    let off = self.input_mapping[j][k2];
                    if lo <= off && off < hi {
                        found = true;
                        proof {
                            assert(lo <= mapping[j as int]@[k2 as int] < hi);
                        }
                    }
                    k2 += 1;
                }
                if found {
                    let ghost pre = children_i@;
                    children_i.push(j);
                    proof {
                        assert(consumes(mapping, descs, i as int, j as int));
                        assert forall|x: usize| (#[trigger] children_i@.contains(x))
                            implies i < (x as int) < j as int + 1 && consumes(
                            mapping,
                            descs,
                            i as int,
                            x as int,
                        ) by {
                            let q = choose|q: int|
                                0 <= q < children_i@.len() && children_i@[q] == x;
                            if q < pre.len() {
                                assert(pre[q] == x);
                                assert(pre.contains(x));
                            } else {
                                assert(x == j);
                            }
                        }
                        assert forall|x: int|
                            i < x < j as int + 1 && consumes(mapping, descs, i as int, x)
                            implies children_i@.contains(x as usize) by {
                            if x < j as int {
                                let q = choose|q: int|
                                    0 <= q < pre.len() && pre[q] == x as usize;
                                assert(children_i@[q] == x as usize);
                            } else {
                                assert(children_i@[pre.len() as int] == j);
                            }
                        }
                    }
                } else {
                    proof {
                        assert(!consumes(mapping, descs, i as int, j as int));
                    }
                }
                j += 1;
            }

            proof {
                // no node at or before `i` can consume one of `i`'s outputs:
                // its resolved offsets all lie below `i`'s allocation offset
                assert forall|x: int| i < x < n as int && consumes(mapping, descs, i as int, x)
                    implies children_i@.contains(x as usize) by {}
                assert forall|x: usize| consumes(mapping, descs, i as int, x as int)
                    implies children_i@.contains(x) by {
                    if (x as int) <= i as int {
                        let k3 = choose|k3: int|
                            0 <= k3 < mapping[x as int]@.len() && desc_offset(descs, i as int)
                                <= (#[trigger] mapping[x as int]@[k3]) < desc_offset(
                                descs,
                                i as int,
                            ) + descs[i as int].outputs@.len();
                        lemma_desc_offset_monotonic(descs, x as int, i as int);
                        assert(false);
                    }
                }
            }

            nodes.push(ExecNode { call, input_indices: inputs_i, children: children_i });
            i += 1;
        }

        proof {
            lemma_desc_base_agree(descs, nodes@, n as int);
        }
        let exec = DynLinearExec::build_execution_chain(nodes);
        proof {
            assert forall|i2: int| 0 <= i2 < n as int implies #[trigger] crate::exec::node_wired(
                exec.nodes@,
                i2,
            ) by {
                lemma_desc_base_agree(descs, exec.nodes@, i2);
                assert forall|q: int| 0 <= q < exec.nodes@[i2].children@.len()
                    implies i2 < (#[trigger] exec.nodes@[i2].children@[q]) < exec.nodes@.len() by {}
            }
            assert(wired(exec.nodes@));
        }
        exec
    }
}

} // verus!
