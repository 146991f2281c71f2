use crate::dirty::{DirtyEnum, DynDirty};
use crate::errors::ExecError;
use crate::node::{DynCall, InputGetter, OutputSetter};
use vstd::prelude::*;

verus! {

/// The linear value store: one optional type-erased cell per node output,
/// indexed by absolute offset.
pub struct DynStorage<V> {
    pub values: Vec<Option<V>>,
}

impl<V> DynStorage<V> {
    /// A store of `size` slots, all empty.
    pub fn new(size: usize) -> (r: Self)
        ensures
            r.values@.len() == size,
            forall|i: int| 0 <= i < size ==> r.values@[i] is None,
    {
        let mut values: Vec<Option<V>> = Vec::new();
        let mut i: usize = 0;
        while i < size
            invariant
                i <= size,
                values@.len() == i,
                forall|j: int| 0 <= j < i ==> values@[j] is None,
            decreases size - i,
        {
            values.push(None);
            i = i + 1;
        }
        DynStorage { values }
    }
}

/// One element of the execution graph: a node-contract instance together
/// with the absolute store offsets supplying its inputs and the node
/// positions to flag for recomputation once it has run.
pub struct ExecNode<C> {
    pub call: C,
    pub input_indices: Vec<usize>,
    pub children: Vec<usize>,
}

impl<C: DynCall> ExecNode<C> {
    /// Number of wired inputs.
    pub fn num_inputs(&self) -> (r: usize)
        ensures r == self.input_indices@.len(),
    {
        self.input_indices.len()
    }

    /// Declared output arity of the wrapped node.
    pub fn num_outputs(&self) -> (r: usize)
        ensures r == self.call.spec_output_len(),
    {
        self.call.output_len()
    }
}

/// The store offset where node `i`'s outputs begin: the sum of the output
/// arities of all earlier nodes.
pub open spec fn base_offset<C: DynCall>(nodes: Seq<ExecNode<C>>, i: int) -> int
    decreases i,
{
    if i <= 0 {
        0
    } else {
        base_offset(nodes, i - 1) + nodes[i - 1].call.spec_output_len()
    }
}

pub proof fn lemma_base_offset_monotonic<C: DynCall>(nodes: Seq<ExecNode<C>>, i: int, j: int)
    requires
        i <= j,
    ensures
        base_offset(nodes, i) <= base_offset(nodes, j),
    decreases j - i,
{
    if i < j {
        lemma_base_offset_monotonic(nodes, i, j - 1);
    }
}

/// Correct wiring of node `i`: as many input offsets as declared inputs,
/// every input offset strictly below the node's own output base, and every
/// child a strictly later node position.
pub open spec fn node_wired<C: DynCall>(nodes: Seq<ExecNode<C>>, i: int) -> bool {
    &&& nodes[i].input_indices@.len() == nodes[i].call.spec_input_len()
    &&& (forall|k: int|
        0 <= k < nodes[i].input_indices@.len()
            ==> (#[trigger] nodes[i].input_indices@[k]) < base_offset(nodes, i))
    &&& (forall|k: int|
        0 <= k < nodes[i].children@.len()
            ==> i < (#[trigger] nodes[i].children@[k]) < nodes.len())
}

/// Correct wiring of the whole execution graph.
pub open spec fn wired<C: DynCall>(nodes: Seq<ExecNode<C>>) -> bool {
    forall|i: int| 0 <= i < nodes.len() ==> #[trigger] node_wired(nodes, i)
}

/// Whether a tick starting from the dirty flags `d0` visits node `i`:
/// either it was flagged beforehand, or an earlier visited node lists it as
/// a child and so flags it during the same tick.
pub open spec fn acted<C: DynCall>(nodes: Seq<ExecNode<C>>, d0: Seq<DirtyEnum>, i: int) -> bool
    decreases i, 1int,
{
    if i < 0 || i >= nodes.len() {
        false
    } else if d0[i] == DirtyEnum::NeedCompute {
        true
    } else {
        marked(nodes, d0, i, i)
    }
}

/// Whether one of the first `upto` visited nodes lists `i` as a child and
/// so flags it during the tick.
pub open spec fn marked<C: DynCall>(
    nodes: Seq<ExecNode<C>>,
    d0: Seq<DirtyEnum>,
    i: int,
    upto: int,
) -> bool
    decreases upto, 0int,
{
    if upto <= 0 {
        false
    } else {
        (acted(nodes, d0, upto - 1) && nodes[upto - 1].children@.contains(i as usize)) || marked(
            nodes,
            d0,
            i,
            upto - 1,
        )
    }
}

/// All store slots wired as inputs of node `i` hold a value.
pub open spec fn inputs_present<C: DynCall>(
    nodes: Seq<ExecNode<C>>,
    store: Seq<Option<C::Value>>,
    i: int,
) -> bool {
    forall|k: int|
        0 <= k < nodes[i].input_indices@.len()
            ==> #[trigger] store[nodes[i].input_indices@[k] as int] is Some
}

/// The input values of node `i` in declared order, read from `store`.
pub open spec fn gathered<C: DynCall>(
    nodes: Seq<ExecNode<C>>,
    store: Seq<Option<C::Value>>,
    i: int,
) -> Seq<C::Value> {
    Seq::new(
        nodes[i].input_indices@.len(),
        |k: int| store[nodes[i].input_indices@[k] as int]->Some_0,
    )
}

/// The slice of `store` holding node `i`'s outputs.
pub open spec fn node_outputs<C: DynCall>(
    nodes: Seq<ExecNode<C>>,
    store: Seq<Option<C::Value>>,
    i: int,
) -> Seq<Option<C::Value>> {
    store.subrange(base_offset(nodes, i), base_offset(nodes, i) + nodes[i].call.spec_output_len())
}

/// Every slot in the sequence is empty.
pub open spec fn all_none<V>(s: Seq<Option<V>>) -> bool {
    forall|t: int| 0 <= t < s.len() ==> #[trigger] s[t] is None
}

/// Node `i` both gets visited this tick and finds all of its inputs.
pub open spec fn computed<C: DynCall>(
    nodes: Seq<ExecNode<C>>,
    d0: Seq<DirtyEnum>,
    store: Seq<Option<C::Value>>,
    i: int,
) -> bool {
    acted(nodes, d0, i) && inputs_present(nodes, store, i)
}

/// How many of the first `upto` nodes are recomputed this tick.
pub open spec fn count_computed<C: DynCall>(
    nodes: Seq<ExecNode<C>>,
    d0: Seq<DirtyEnum>,
    store: Seq<Option<C::Value>>,
    upto: int,
) -> int
    decreases upto,
{
    if upto <= 0 {
        0
    } else {
        count_computed(nodes, d0, store, upto - 1)
            + if computed(nodes, d0, store, upto - 1) { 1int } else { 0int }
    }
}

/// The per-node effect of a tick on the first `upto` nodes, the part of
/// the execution order a tick has settled once it reaches position `upto`.
/// Because each node's inputs lie strictly below its own output base and
/// each node's slots are written only when that node is visited, the inputs
/// a node saw during the tick equal the final store contents at its input
/// offsets, so everything can be described over `s1` alone.
pub open spec fn run_rel_prefix<C: DynCall>(
    nodes: Seq<ExecNode<C>>,
    d0: Seq<DirtyEnum>,
    s0: Seq<Option<C::Value>>,
    d1: Seq<DirtyEnum>,
    s1: Seq<Option<C::Value>>,
    upto: int,
) -> bool {
    &&& d0.len() == nodes.len()
    &&& d1.len() == nodes.len()
    &&& s1.len() == s0.len()
    // a node that is not visited keeps its flag ...
    &&& (forall|i: int| 0 <= i < upto && !acted(nodes, d0, i) ==> #[trigger] d1[i] == d0[i])
    // ... and its output slots
    &&& (forall|i: int|
        0 <= i < upto && !acted(nodes, d0, i) ==> #[trigger] node_outputs(nodes, s1, i)
            == node_outputs(nodes, s0, i))
    // a visited node with all inputs present recomputes: it becomes Clean
    // and its slots hold what its call produced from those inputs
    &&& (forall|i: int|
        0 <= i < upto && acted(nodes, d0, i) && #[trigger] inputs_present(nodes, s1, i)
            ==> d1[i] == DirtyEnum::Clean && nodes[i].call.call_ok(gathered(nodes, s1, i))
            && nodes[i].call.call_result(gathered(nodes, s1, i), node_outputs(nodes, s1, i)))
    // a visited node with a missing input goes Stale and clears its slots
    &&& (forall|i: int|
        0 <= i < upto && acted(nodes, d0, i) && !(#[trigger] inputs_present(nodes, s1, i))
            ==> d1[i] == DirtyEnum::Stale && all_none(node_outputs(nodes, s1, i)))
}

/// The full effect of one successful tick: `d0`/`s0` are the dirty flags
/// and store before, `d1`/`s1` after, and `count` the number of nodes that
/// recomputed.
pub open spec fn run_rel<C: DynCall>(
    nodes: Seq<ExecNode<C>>,
    d0: Seq<DirtyEnum>,
    s0: Seq<Option<C::Value>>,
    d1: Seq<DirtyEnum>,
    s1: Seq<Option<C::Value>>,
    count: int,
) -> bool {
    &&& run_rel_prefix(nodes, d0, s0, d1, s1, nodes.len() as int)
    &&& count == count_computed(nodes, d0, s1, nodes.len() as int)
}

/// `gathered` and `inputs_present` of node `i` read only slots below the
/// node's output base, so two stores that agree there agree on both.
pub proof fn lemma_inputs_agree<C: DynCall>(
    nodes: Seq<ExecNode<C>>,
    s1: Seq<Option<C::Value>>,
    s2: Seq<Option<C::Value>>,
    i: int,
)
    requires
        0 <= i < nodes.len(),
        node_wired(nodes, i),
        forall|t: int| 0 <= t < base_offset(nodes, i) ==> s1[t] == s2[t],
    ensures
        gathered(nodes, s1, i) =~= gathered(nodes, s2, i),
        inputs_present(nodes, s1, i) == inputs_present(nodes, s2, i),
{
    assert forall|k: int| 0 <= k < nodes[i].input_indices@.len()
        implies s1[nodes[i].input_indices@[k] as int] == s2[nodes[i].input_indices@[k] as int] by {
        assert(nodes[i].input_indices@[k] < base_offset(nodes, i));
    }
}

/// `count_computed` over the first `upto` nodes reads only slots below
/// `base_offset(upto)`.
pub proof fn lemma_count_agree<C: DynCall>(
    nodes: Seq<ExecNode<C>>,
    d0: Seq<DirtyEnum>,
    s1: Seq<Option<C::Value>>,
    s2: Seq<Option<C::Value>>,
    upto: int,
)
    requires
        0 <= upto <= nodes.len(),
        wired(nodes),
        forall|t: int| 0 <= t < base_offset(nodes, upto) ==> s1[t] == s2[t],
    ensures
        count_computed(nodes, d0, s1, upto) == count_computed(nodes, d0, s2, upto),
    decreases upto,
{
    if upto > 0 {
        lemma_base_offset_monotonic(nodes, upto - 1, upto);
        lemma_count_agree(nodes, d0, s1, s2, upto - 1);
        assert(node_wired(nodes, upto - 1));
        lemma_inputs_agree(nodes, s1, s2, upto - 1);
    }
}

/// The incremental dataflow executor: an ordered list of wired nodes, the
/// shared value store, and the per-node dirty flags.
pub struct DynLinearExec<C: DynCall> {
    pub store: DynStorage<C::Value>,
    pub dirty: DynDirty,
    pub nodes: Vec<ExecNode<C>>,
}

impl<C: DynCall> DynLinearExec<C> {
    /// Total number of store slots the nodes demand.
    pub open spec fn store_size(&self) -> int {
        base_offset(self.nodes@, self.nodes@.len() as int)
    }

    /// Structural well-formedness: one dirty flag per node, one store slot
    /// per declared output, and correct wiring throughout.
    pub open spec fn wf(&self) -> bool {
        &&& self.dirty.state@.len() == self.nodes@.len()
        &&& self.store.values@.len() == self.store_size()
        &&& wired(self.nodes@)
    }

    /// Whether the store slot at `index` holds a value.
    pub fn is_some(&self, index: usize) -> (r: bool)
        requires
            index < self.store.values@.len(),
        ensures
            r == (self.store.values@[index as int] is Some),
    {
        self.store.values[index].is_some()
    }

    /// Whether the store slot at `index` is empty.
    pub fn is_none(&self, index: usize) -> (r: bool)
        requires
            index < self.store.values@.len(),
        ensures
            r == (self.store.values@[index as int] is None),
    {
        self.store.values[index].is_none()
    }

    /// Direct reference to the optional cell at `index`.
    pub fn value_any(&self, index: usize) -> (r: &Option<C::Value>)
        requires
            index < self.store.values@.len(),
        ensures
            *r == self.store.values@[index as int],
    {
        &self.store.values[index]
    }

    /// The value at store offset `index`, or the error saying why there is
    /// none: `InputOutOfRange` past the end of the store, `ValueIsNone` for
    /// an empty slot.
    pub fn value(&self, index: usize) -> (r: Result<&C::Value, ExecError>)
        ensures
            match r {
                Ok(v) => index < self.store.values@.len()
                    && self.store.values@[index as int] == Some(*v),
                Err(e) => if index < self.store.values@.len() {
                    self.store.values@[index as int] is None && e == ExecError::ValueIsNone
                } else {
                    e == ExecError::InputOutOfRange
                },
            },
    {
        if index >= self.store.values.len() {
            return Err(ExecError::InputOutOfRange);
        }
        match &self.store.values[index] {
            Some(v) => Ok(v),
            None => Err(ExecError::ValueIsNone),
        }
    }

    /// The dirty flag of the node at `index`.
    pub fn run_state(&self, index: usize) -> (r: DirtyEnum)
        requires
            index < self.dirty.state@.len(),
        ensures
            r == self.dirty.state@[index as int],
    {
        self.dirty.state[index]
    }

    /// Force one node to recompute on the next tick, without touching its
    /// descendants; the next `run` re-cascades from there.
    pub fn set_runnable(&mut self, index: usize)
        requires
            index < old(self).dirty.state@.len(),
        ensures
            final(self).nodes == old(self).nodes,
            final(self).store == old(self).store,
            final(self).dirty.state@
                == old(self).dirty.state@.update(index as int, DirtyEnum::NeedCompute),
    {
        self.dirty.state[index] = DirtyEnum::NeedCompute;
    }
}


/// The sum of the declared output arities of the first `i` node contracts.
pub open spec fn calls_arity_sum<C: DynCall>(calls: Seq<C>, i: int) -> int
    decreases i,
{
    if i <= 0 {
        0
    } else {
        calls_arity_sum(calls, i - 1) + calls[i - 1].spec_output_len()
    }
}

pub proof fn lemma_arity_sum_eq<C: DynCall>(calls: Seq<C>, nodes: Seq<ExecNode<C>>, i: int)
    requires
        forall|j: int| 0 <= j < i ==> nodes[j].call == calls[j],
    ensures
        base_offset(nodes, i) == calls_arity_sum(calls, i),
    decreases i,
{
    if i > 0 {
        lemma_arity_sum_eq(calls, nodes, i - 1);
    }
}

/// With every earlier node producing at least one output, node `i`'s output
/// base lies at or above its own position.
pub proof fn lemma_base_at_least<C: DynCall>(nodes: Seq<ExecNode<C>>, i: int)
    requires
        forall|j: int| 0 <= j < i ==> #[trigger] nodes[j].call.spec_output_len() >= 1,
    ensures
        base_offset(nodes, i) >= i,
    decreases i,
{
    if i > 0 {
        lemma_base_at_least(nodes, i - 1);
    }
}

impl<C: DynCall> DynLinearExec<C> {
    /// A fresh, unwired executor over the given node contracts: empty input
    /// and child lists, every dirty flag `NeedCompute`, every store slot
    /// empty.  Wiring is supplied afterwards through `inputs` and
    /// `children`.
    pub fn new(calls: Vec<C>) -> (r: Self)
        requires
            calls_arity_sum(calls@, calls@.len() as int) <= usize::MAX,
        ensures
            r.nodes@.len() == calls@.len(),
            forall|i: int|
                0 <= i < calls@.len() ==> (#[trigger] r.nodes@[i]).call == calls@[i]
                    && r.nodes@[i].input_indices@.len() == 0 && r.nodes@[i].children@.len() == 0,
            r.dirty.state@.len() == calls@.len(),
            forall|i: int|
                0 <= i < calls@.len() ==> r.dirty.state@[i] == DirtyEnum::NeedCompute,
            r.store.values@.len() == base_offset(r.nodes@, r.nodes@.len() as int),
            forall|t: int| 0 <= t < r.store.values@.len() ==> r.store.values@[t] is None,
    {
        let ghost calls0 = calls@;
        let mut rest = calls;
        let mut nodes: Vec<ExecNode<C>> = Vec::new();
        while rest.len() > 0
            invariant
                nodes@.len() + rest@.len() == calls0.len(),
                rest@ =~= calls0.subrange(nodes@.len() as int, calls0.len() as int),
                forall|i: int|
                    0 <= i < nodes@.len() ==> (#[trigger] nodes@[i]).call == calls0[i]
                        && nodes@[i].input_indices@.len() == 0 && nodes@[i].children@.len() == 0,
            decreases rest@.len(),
        {
            let c = rest.remove(0);
            nodes.push(ExecNode { call: c, input_indices: Vec::new(), children: Vec::new() });
        }
        Self::build_execution_chain_inner(nodes, Ghost(calls0))
    }

    /// An executor over fully pre-wired execution nodes.
    pub fn build_execution_chain(desc: Vec<ExecNode<C>>) -> (r: Self)
        requires
            base_offset(desc@, desc@.len() as int) <= usize::MAX,
        ensures
            r.nodes@ == desc@,
            r.dirty.state@.len() == desc@.len(),
            forall|i: int|
                0 <= i < desc@.len() ==> r.dirty.state@[i] == DirtyEnum::NeedCompute,
            r.store.values@.len() == base_offset(desc@, desc@.len() as int),
            forall|t: int| 0 <= t < r.store.values@.len() ==> r.store.values@[t] is None,
            wired(desc@) ==> r.wf(),
    {
        let ghost calls0 = desc@.map_values(|e: ExecNode<C>| e.call);
        proof {
            lemma_arity_sum_eq(calls0, desc@, desc@.len() as int);
        }
        Self::build_execution_chain_inner(desc, Ghost(calls0))
    }

    fn build_execution_chain_inner(nodes: Vec<ExecNode<C>>, Ghost(calls0): Ghost<Seq<C>>) -> (r:
        Self)
        requires
            calls0.len() == nodes@.len(),
            forall|j: int| 0 <= j < nodes@.len() ==> (#[trigger] nodes@[j]).call == calls0[j],
            calls_arity_sum(calls0, calls0.len() as int) <= usize::MAX,
        ensures
            r.nodes@ == nodes@,
            r.dirty.state@.len() == nodes@.len(),
            forall|i: int|
                0 <= i < nodes@.len() ==> r.dirty.state@[i] == DirtyEnum::NeedCompute,
            r.store.values@.len() == base_offset(nodes@, nodes@.len() as int),
            forall|t: int| 0 <= t < r.store.values@.len() ==> r.store.values@[t] is None,
            wired(nodes@) ==> r.wf(),
    {
        let n = nodes.len();
        proof {
            lemma_arity_sum_eq(calls0, nodes@, n as int);
        }
        let mut size: usize = 0;
        let mut i: usize = 0;
        while i < n
            invariant
                i <= n,
                n == nodes@.len(),
                calls0.len() == n,
                forall|j: int| 0 <= j < n ==> (#[trigger] nodes@[j]).call == calls0[j],
                base_offset(nodes@, n as int) <= usize::MAX,
                size as int == base_offset(nodes@, i as int),
            decreases n - i,
        {
            proof {
                lemma_base_offset_monotonic(nodes@, i as int + 1, n as int);
            }
            let a = nodes[i].num_outputs();
            size = size + a;
            i = i + 1;
        }
        let store = DynStorage::new(size);
        let dirty = DynDirty::new(n);
        DynLinearExec { store, dirty, nodes }
    }

    /// A chain executor: node `i` reads the single output of node `i - 1`
    /// and flags node `i + 1` after running.  The first node must declare no
    /// inputs, every later node exactly one, and every node except possibly
    /// the last at least one output.
    pub fn new_linear_chain(calls: Vec<C>) -> (r: Self)
        requires
            calls_arity_sum(calls@, calls@.len() as int) <= usize::MAX,
            calls@.len() > 0 ==> calls@[0].spec_input_len() == 0,
            forall|i: int| 1 <= i < calls@.len() ==> #[trigger] calls@[i].spec_input_len() == 1,
            forall|i: int|
                0 <= i < calls@.len() - 1 ==> #[trigger] calls@[i].spec_output_len() >= 1,
        ensures
            r.wf(),
            r.nodes@.len() == calls@.len(),
            forall|i: int| 0 <= i < calls@.len() ==> (#[trigger] r.nodes@[i]).call == calls@[i],
            forall|i: int|
                1 <= i < calls@.len() ==> (#[trigger] r.nodes@[i]).input_indices@ =~= seq![
                    (i - 1) as usize,
                ],
            calls@.len() > 0 ==> r.nodes@[0].input_indices@.len() == 0,
            forall|i: int|
                0 <= i < calls@.len() - 1 ==> (#[trigger] r.nodes@[i]).children@ =~= seq![
                    (i + 1) as usize,
                ],
            calls@.len() > 0 ==> r.nodes@[calls@.len() - 1].children@.len() == 0,
            forall|i: int|
                0 <= i < calls@.len() ==> r.dirty.state@[i] == DirtyEnum::NeedCompute,
            forall|t: int| 0 <= t < r.store.values@.len() ==> r.store.values@[t] is None,
            r.store.values@.len() == base_offset(r.nodes@, r.nodes@.len() as int),
    {
        let ghost calls0 = calls@;
        let mut exec = Self::new(calls);
        proof {
            lemma_arity_sum_eq(calls0, exec.nodes@, calls0.len() as int);
        }
        let n = exec.nodes.len();
        let mut i: usize = 1;
        while i < n
            invariant
                1 <= i,
                i <= n || n == 0,
                n == exec.nodes@.len(),
                n == calls0.len(),
                calls0.len() > 0 ==> calls0[0].spec_input_len() == 0,
                forall|j: int| 1 <= j < n ==> #[trigger] calls0[j].spec_input_len() == 1,
                forall|j: int| 0 <= j < n - 1 ==> #[trigger] calls0[j].spec_output_len() >= 1,
                forall|j: int| 0 <= j < n ==> (#[trigger] exec.nodes@[j]).call == calls0[j],
                forall|j: int|
                    1 <= j < i && j < n ==> (#[trigger] exec.nodes@[j]).input_indices@ =~= seq![
                        (j - 1) as usize,
                    ],
                forall|j: int|
                    0 <= j < i - 1 ==> (#[trigger] exec.nodes@[j]).children@ =~= seq![
                        (j + 1) as usize,
                    ],
                forall|j: int|
                    (i <= j < n || (j == 0 && 0 < n)) ==> (
                    #[trigger] exec.nodes@[j]).input_indices@.len() == 0,
                forall|j: int|
                    i - 1 <= j < n ==> (#[trigger] exec.nodes@[j]).children@.len() == 0,
                exec.dirty.state@.len() == n,
                forall|j: int| 0 <= j < n ==> exec.dirty.state@[j] == DirtyEnum::NeedCompute,
                exec.store.values@.len() == calls_arity_sum(calls0, n as int),
                forall|t: int|
                    0 <= t < exec.store.values@.len() ==> exec.store.values@[t] is None,
            decreases n - i,
        {
            proof {
                lemma_arity_sum_eq(calls0, exec.nodes@, i as int);
                lemma_base_at_least(exec.nodes@, i as int);
            }
            let mut inp: Vec<usize> = Vec::new();
            inp.push(i - 1);
            exec.inputs(i, inp);
            let mut ch: Vec<usize> = Vec::new();
            ch.push(i);
            exec.children(i - 1, ch);
            i = i + 1;
        }
        proof {
            lemma_arity_sum_eq(calls0, exec.nodes@, n as int);
            assert forall|j: int| 0 <= j < n implies #[trigger] node_wired(exec.nodes@, j) by {
                if j >= 1 {
                    lemma_base_at_least(exec.nodes@, j);
                }
            }
        }
        exec
    }

    /// Replace the wired input offsets of one node.  Each offset must lie
    /// strictly below the node's own output base, and there must be exactly
    /// one offset per declared input.
    pub fn inputs(&mut self, node_index: usize, indices: Vec<usize>)
        requires
            node_index < old(self).nodes@.len(),
            indices@.len() == old(self).nodes@[node_index as int].call.spec_input_len(),
            forall|k: int|
                0 <= k < indices@.len() ==> (#[trigger] indices@[k]) < base_offset(
                    old(self).nodes@,
                    node_index as int,
                ),
        ensures
            final(self).dirty == old(self).dirty,
            final(self).store == old(self).store,
            final(self).nodes@ =~= old(self).nodes@.update(
                node_index as int,
                (ExecNode {
                    call: old(self).nodes@[node_index as int].call,
                    input_indices: indices,
                    children: old(self).nodes@[node_index as int].children,
                }),
            ),
    {
        let node = &mut self.nodes[node_index];
        node.input_indices = indices;
    }

    /// Replace the recorded children of one node.  Every child must be a
    /// strictly later node position.
    pub fn children(&mut self, node_index: usize, children: Vec<usize>)
        requires
            node_index < old(self).nodes@.len(),
            forall|k: int|
                0 <= k < children@.len() ==> node_index < (#[trigger] children@[k])
                    < old(self).nodes@.len(),
        ensures
            final(self).dirty == old(self).dirty,
            final(self).store == old(self).store,
            final(self).nodes@ =~= old(self).nodes@.update(
                node_index as int,
                (ExecNode {
                    call: old(self).nodes@[node_index as int].call,
                    input_indices: old(self).nodes@[node_index as int].input_indices,
                    children,
                }),
            ),
    {
        let node = &mut self.nodes[node_index];
        node.children = children;
    }
}


/// Splitting `marked` at its last candidate node.
pub proof fn lemma_marked_step<C: DynCall>(
    nodes: Seq<ExecNode<C>>,
    d0: Seq<DirtyEnum>,
    i: int,
    upto: int,
)
    requires
        upto >= 0,
    ensures
        marked(nodes, d0, i, upto + 1) == (marked(nodes, d0, i, upto) || (acted(nodes, d0, upto)
            && nodes[upto].children@.contains(i as usize))),
{
}

/// Unfolding of `acted` at node `i`: the node is visited exactly when it
/// was flagged beforehand or an earlier visited node flags it.
pub proof fn lemma_acted_unfold<C: DynCall>(nodes: Seq<ExecNode<C>>, d0: Seq<DirtyEnum>, i: int)
    requires
        0 <= i < nodes.len(),
    ensures
        acted(nodes, d0, i) == (d0[i] == DirtyEnum::NeedCompute || marked(nodes, d0, i, i)),
{
}

impl<C: DynCall> DynLinearExec<C> {
    /// One tick: walk the execution graph in ascending position, recompute
    /// every node flagged `NeedCompute` whose inputs are all present, mark a
    /// node `Stale` and clear its outputs when an input is missing, and flag
    /// the children of every visited node.  Returns the number of nodes that
    /// recomputed, so a caller can tell a fixpoint (`Ok(0)`) from real work.
    ///
    /// The tick fails only when a node's own `call` rejects the inputs it
    /// was handed: a failed tick exhibits such a node, with the execution
    /// order before it fully settled.  A tick that has nothing to visit
    /// always succeeds and does nothing.
    pub fn run(&mut self) -> (r: Result<usize, ExecError>)
        requires
            old(self).wf(),
        ensures
            final(self).wf(),
            final(self).nodes@ == old(self).nodes@,
            final(self).store.values@.len() == old(self).store.values@.len(),
            final(self).dirty.state@.len() == old(self).dirty.state@.len(),
            (r matches Ok(count) ==> run_rel(
                old(self).nodes@,
                old(self).dirty.state@,
                old(self).store.values@,
                final(self).dirty.state@,
                final(self).store.values@,
                count as int,
            )),
            (forall|j: int|
                0 <= j < old(self).dirty.state@.len() ==> old(self).dirty.state@[j]
                    != DirtyEnum::NeedCompute) ==> r == Ok::<usize, ExecError>(0),
            (r is Err ==> exists|i: int|
                {
                    &&& 0 <= i < old(self).nodes@.len()
                    &&& #[trigger] acted(old(self).nodes@, old(self).dirty.state@, i)
                    &&& run_rel_prefix(
                        old(self).nodes@,
                        old(self).dirty.state@,
                        old(self).store.values@,
                        final(self).dirty.state@,
                        final(self).store.values@,
                        i,
                    )
                    &&& inputs_present(old(self).nodes@, final(self).store.values@, i)
                    &&& !old(self).nodes@[i].call.call_ok(
                        gathered(old(self).nodes@, final(self).store.values@, i),
                    )
                }),
            (forall|i: int, ins: Seq<C::Value>|
                0 <= i < old(self).nodes@.len() ==> #[trigger] old(
                    self,
                ).nodes@[i].call.call_ok(ins)) ==> r is Ok,
    {
        let ghost nodes0 = old(self).nodes@;
        let ghost d0 = old(self).dirty.state@;
        let ghost s0 = old(self).store.values@;
        let ghost slen = s0.len() as int;

        let n = self.nodes.len();
        let sl: usize = self.store.values.len();
        let mut compute_count: usize = 0;
        let mut output_index: usize = 0;
        let mut run_index: usize = 0;

        while run_index < n
            invariant
                self.wf(),
                nodes0 == old(self).nodes@,
                d0 == old(self).dirty.state@,
                s0 == old(self).store.values@,
                n == nodes0.len(),
                self.nodes@ == nodes0,
                d0.len() == n,
                s0.len() == slen,
                self.dirty.state@.len() == n,
                self.store.values@.len() == slen,
                sl as int == slen,
                slen == base_offset(nodes0, n as int),
                run_index <= n,
                output_index as int == base_offset(nodes0, run_index as int),
                compute_count as int == count_computed(
                    nodes0,
                    d0,
                    self.store.values@,
                    run_index as int,
                ),
                compute_count <= run_index,
                forall|i: int|
                    0 <= i < run_index as int && !acted(nodes0, d0, i)
                        ==> #[trigger] self.dirty.state@[i] == d0[i],
                forall|i: int|
                    0 <= i < run_index as int && !acted(nodes0, d0, i)
                        ==> #[trigger] node_outputs(nodes0, self.store.values@, i)
                        == node_outputs(nodes0, s0, i),
                forall|i: int|
                    0 <= i < run_index as int && acted(nodes0, d0, i) && #[trigger] inputs_present(
                        nodes0,
                        self.store.values@,
                        i,
                    ) ==> self.dirty.state@[i] == DirtyEnum::Clean && nodes0[i].call.call_ok(
                        gathered(nodes0, self.store.values@, i),
                    ) && nodes0[i].call.call_result(
                        gathered(nodes0, self.store.values@, i),
                        node_outputs(nodes0, self.store.values@, i),
                    ),
                forall|i: int|
                    0 <= i < run_index as int && acted(nodes0, d0, i) && !(
                    #[trigger] inputs_present(nodes0, self.store.values@, i))
                        ==> self.dirty.state@[i] == DirtyEnum::Stale && all_none(
                        node_outputs(nodes0, self.store.values@, i),
                    ),
                forall|i: int|
                    run_index as int <= i < n ==> #[trigger] self.dirty.state@[i] == (if marked(
                        nodes0,
                        d0,
                        i,
                        run_index as int,
                    ) {
                        DirtyEnum::NeedCompute
                    } else {
                        d0[i]
                    }),
                forall|t: int|
                    base_offset(nodes0, run_index as int) <= t < slen
                        ==> #[trigger] self.store.values@[t] == s0[t],
            decreases n - run_index,
        {
            let ghost ri = run_index as int;
            let ghost snap_s = self.store.values@;
            let ghost snap_d = self.dirty.state@;
            proof {
                assert(node_wired(nodes0, ri));
                lemma_base_offset_monotonic(nodes0, 0, ri);
                lemma_base_offset_monotonic(nodes0, ri + 1, n as int);
            }
            let arity = self.nodes[run_index].num_outputs();
            assert(output_index as int + arity as int == base_offset(nodes0, ri + 1));

            let state_now = self.dirty.state[run_index];
            if state_now == DirtyEnum::NeedCompute {
                proof {
                    lemma_acted_unfold(nodes0, d0, ri);
                    assert(acted(nodes0, d0, ri));
                }
                let num_in = self.nodes[run_index].num_inputs();
                let mut missing = false;
                let mut k: usize = 0;
                while k < num_in
                    invariant
                        k <= num_in,
                        run_index < n,
                        n == nodes0.len(),
                        self.nodes@ == nodes0,
                        self.dirty.state@ == snap_d,
                        num_in == nodes0[ri].input_indices@.len(),
                        ri == run_index as int,
                        wired(nodes0),
                        self.store.values@ == snap_s,
                        snap_s.len() == slen,
                        slen == base_offset(nodes0, n as int),
                        output_index as int == base_offset(nodes0, ri),
                        missing <==> exists|k2: int|
                            0 <= k2 < k as int && snap_s[#[trigger] nodes0[ri].input_indices@[k2]
                                as int] is None,
                    decreases num_in - k,
                {
                    proof {
                        assert(node_wired(nodes0, ri));
                        assert(nodes0[ri].input_indices@[k as int] < base_offset(nodes0, ri));
                        lemma_base_offset_monotonic(nodes0, ri, n as int);
                    }
                    let idx = self.nodes[run_index].input_indices[k];
                    if idx >= output_index {
                        // unreachable under correct wiring: inputs precede outputs
                        proof {
                            assert(false);
                        }
                        return Err(ExecError::InputOutOfRange);
                    }
                    if self.store.values[idx].is_none() {
                        missing = true;
                        proof {
                            assert(snap_s[nodes0[ri].input_indices@[k as int] as int] is None);
                        }
                    }
                    k += 1;
                }
                proof {
                    if !missing {
                        assert forall|k2: int| 0 <= k2 < nodes0[ri].input_indices@.len()
                            implies #[trigger] snap_s[nodes0[ri].input_indices@[k2] as int]
                            is Some by {
                            assert(!(snap_s[nodes0[ri].input_indices@[k2] as int] is None));
                        }
                        assert(inputs_present(nodes0, snap_s, ri));
                    } else {
                        assert(!inputs_present(nodes0, snap_s, ri));
                    }
                }

                if !missing {
                    self.dirty.state[run_index] = DirtyEnum::Clean;
                    let ghost d_after = self.dirty.state@;
                    let mut setter = OutputSetter::new(arity);
                    let ghost gseq = gathered(nodes0, self.store.values@, ri);
                    let res = {
                        let getter = InputGetter::new(
                            &self.store.values,
                            &self.nodes[run_index].input_indices,
                        );
                        proof {
                            assert(node_wired(nodes0, ri));
                            lemma_base_offset_monotonic(nodes0, ri, n as int);
                            assert(getter.wf());
                            assert forall|k2: int| 0 <= k2 < getter.indices@.len()
                                implies #[trigger] getter.slot(k2) is Some by {
                                assert(snap_s[nodes0[ri].input_indices@[k2] as int] is Some);
                            }
                            assert(getter.input_seq() =~= gseq);
                        }
                        self.nodes[run_index].call.call(&getter, &mut setter)
                    };
                    match res {
                        Ok(()) => {}
                        Err(e) => {
                            proof {
                                assert(!nodes0[ri].call.call_ok(gseq));
                                let dnow = self.dirty.state@;
                                let snow = self.store.values@;
                                assert(snow == snap_s);
                                assert forall|i2: int|
                                    0 <= i2 < ri && !acted(nodes0, d0, i2)
                                    implies #[trigger] dnow[i2] == d0[i2] by {
                                    assert(snap_d[i2] == d0[i2]);
                                }
                                assert forall|i2: int|
                                    0 <= i2 < ri && acted(nodes0, d0, i2) && #[trigger]
                                inputs_present(nodes0, snow, i2) implies dnow[i2]
                                    == DirtyEnum::Clean && nodes0[i2].call.call_ok(
                                    gathered(nodes0, snow, i2),
                                ) && nodes0[i2].call.call_result(
                                    gathered(nodes0, snow, i2),
                                    node_outputs(nodes0, snow, i2),
                                ) by {
                                    assert(snap_d[i2] == DirtyEnum::Clean);
                                }
                                assert forall|i2: int|
                                    0 <= i2 < ri && acted(nodes0, d0, i2) && !(#[trigger]
                                inputs_present(nodes0, snow, i2)) implies dnow[i2]
                                    == DirtyEnum::Stale && all_none(
                                    node_outputs(nodes0, snow, i2),
                                ) by {
                                    assert(snap_d[i2] == DirtyEnum::Stale);
                                }
                                assert(run_rel_prefix(nodes0, d0, s0, dnow, snow, ri));
                                assert(inputs_present(nodes0, snow, ri));
                                assert(gathered(nodes0, snow, ri) =~= gseq);
                                if forall|j: int|
                                    0 <= j < n as int ==> d0[j] != DirtyEnum::NeedCompute {
                                    lemma_no_acted(nodes0, d0, ri);
                                }
                            }
                            return Err(e);
                        }
                    }
                    let mut outvec = setter.into_values();
                    let ghost outseq = outvec@;
                    let mut k2: usize = arity;
                    while k2 > 0
                        invariant
                            k2 <= arity,
                            outvec@ == outseq.subrange(0, k2 as int),
                            outseq.len() == arity,
                            self.nodes@ == nodes0,
                            self.dirty.state@ == d_after,
                            self.store.values@.len() == slen,
                            sl as int == slen,
                            snap_s.len() == slen,
                            output_index as int + arity as int <= slen,
                            forall|t: int|
                                0 <= t < slen && !(output_index as int + k2 as int <= t
                                    < output_index as int + arity as int)
                                    ==> #[trigger] self.store.values@[t] == snap_s[t],
                            forall|t: int|
                                output_index as int + k2 as int <= t < output_index as int
                                    + arity as int ==> #[trigger] self.store.values@[t]
                                    == outseq[t - output_index as int],
                        decreases k2,
                    {
                        k2 = k2 - 1;
                        let v = outvec.pop().unwrap();
                        self.store.values[output_index + k2] = v;
                    }
                    compute_count += 1;
                    proof {
                        assert(node_outputs(nodes0, self.store.values@, ri) =~= outseq);
                    }
                } else {
                    self.dirty.state[run_index] = DirtyEnum::Stale;
                    let ghost d_after = self.dirty.state@;
                    let mut k2: usize = 0;
                    while k2 < arity
                        invariant
                            k2 <= arity,
                            self.nodes@ == nodes0,
                            self.dirty.state@ == d_after,
                            self.store.values@.len() == slen,
                            sl as int == slen,
                            snap_s.len() == slen,
                            output_index as int + arity as int <= slen,
                            forall|t: int|
                                0 <= t < slen && !(output_index as int <= t < output_index as int
                                    + k2 as int) ==> #[trigger] self.store.values@[t] == snap_s[t],
                            forall|t: int|
                                output_index as int <= t < output_index as int + k2 as int
                                    ==> #[trigger] self.store.values@[t] is None,
                        decreases arity - k2,
                    {
                        self.store.values[output_index + k2] = None;
                        k2 += 1;
                    }
                }

                // flag the children for recomputation
                let ghost dd = self.dirty.state@;
                let ghost s_after = self.store.values@;
                let nchild = self.nodes[run_index].children.len();
                let mut c: usize = 0;
                while c < nchild
                    invariant
                        c <= nchild,
                        run_index < n,
                        n == nodes0.len(),
                        self.nodes@ == nodes0,
                        ri == run_index as int,
                        nchild == nodes0[ri].children@.len(),
                        wired(nodes0),
                        self.store.values@ == s_after,
                        self.dirty.state@.len() == n,
                        dd.len() == n,
                        forall|i: int|
                            0 <= i < n && !(exists|q: int|
                                0 <= q < c as int && nodes0[ri].children@[q] == i)
                                ==> #[trigger] self.dirty.state@[i] == dd[i],
                        forall|i: int|
                            0 <= i < n && (exists|q: int|
                                0 <= q < c as int && nodes0[ri].children@[q] == i)
                                ==> #[trigger] self.dirty.state@[i] == DirtyEnum::NeedCompute,
                    decreases nchild - c,
                {
                    proof {
                        assert(node_wired(nodes0, ri));
                        assert(ri < nodes0[ri].children@[c as int] < n);
                    }
                    let ch = self.nodes[run_index].children[c];
                    self.dirty.state[ch] = DirtyEnum::NeedCompute;
                    c += 1;
                }

                proof {
                    let news = self.store.values@;
                    let newd = self.dirty.state@;
                    // the store changed only inside this node's output range
                    assert forall|t: int|
                        0 <= t < slen && !(base_offset(nodes0, ri) <= t < base_offset(nodes0, ri)
                            + nodes0[ri].call.spec_output_len())
                        implies #[trigger] news[t] == snap_s[t] by {}

                    // earlier nodes keep their established clauses
                    assert forall|i: int|
                        0 <= i < ri implies (inputs_present(nodes0, news, i) == inputs_present(
                        nodes0,
                        snap_s,
                        i,
                    ) && gathered(nodes0, news, i) =~= gathered(nodes0, snap_s, i)
                        && node_outputs(nodes0, news, i) =~= node_outputs(nodes0, snap_s, i)) by {
                        assert(node_wired(nodes0, i));
                        lemma_base_offset_monotonic(nodes0, 0, i);
                        lemma_base_offset_monotonic(nodes0, i + 1, ri);
                        lemma_base_offset_monotonic(nodes0, ri, n as int);
                        assert(base_offset(nodes0, i) + nodes0[i].call.spec_output_len()
                            == base_offset(nodes0, i + 1));
                        lemma_inputs_agree(nodes0, news, snap_s, i);
                        assert forall|t: int|
                            base_offset(nodes0, i) <= t < base_offset(nodes0, i)
                                + nodes0[i].call.spec_output_len()
                            implies #[trigger] news[t] == snap_s[t] by {
                            assert(t < base_offset(nodes0, ri));
                            assert(0 <= t < slen);
                            assert(!(base_offset(nodes0, ri) <= t < base_offset(nodes0, ri)
                                + nodes0[ri].call.spec_output_len()));
                        }
                        assert(node_outputs(nodes0, news, i) =~= node_outputs(nodes0, snap_s, i));
                    }

                    // this node's own clause
                    lemma_inputs_agree(nodes0, news, snap_s, ri);
                    if inputs_present(nodes0, snap_s, ri) {
                        assert(newd[ri] == DirtyEnum::Clean);
                        assert(gathered(nodes0, news, ri) =~= gathered(nodes0, snap_s, ri));
                    } else {
                        assert(newd[ri] == DirtyEnum::Stale);
                        assert forall|t: int|
                            0 <= t < node_outputs(nodes0, news, ri).len()
                            implies #[trigger] node_outputs(nodes0, news, ri)[t] is None by {
                            assert(news[base_offset(nodes0, ri) + t] is None);
                        }
                        assert(all_none(node_outputs(nodes0, news, ri)));
                    }

                    // dirty flags of later nodes follow `marked` one step on
                    assert forall|i: int| ri + 1 <= i < n implies #[trigger] newd[i] == (if marked(
                        nodes0,
                        d0,
                        i,
                        ri + 1,
                    ) {
                        DirtyEnum::NeedCompute
                    } else {
                        d0[i]
                    }) by {
                        lemma_marked_step(nodes0, d0, i, ri);
                        if exists|q: int| 0 <= q < nodes0[ri].children@.len()
                            && nodes0[ri].children@[q] == i {
                            assert(nodes0[ri].children@.contains(i as usize));
                        } else {
                            if nodes0[ri].children@.contains(i as usize) {
                                let q = choose|q: int|
                                    0 <= q < nodes0[ri].children@.len() && nodes0[ri].children@[q]
                                        == i as usize;
                                assert(nodes0[ri].children@[q] == i);
                            }
                            assert(newd[i] == dd[i]);
                        }
                    }

                    // the running count steps by one exactly when this node computed
                    lemma_count_agree(nodes0, d0, snap_s, news, ri);
                    assert(count_computed(nodes0, d0, news, ri + 1) == count_computed(
                        nodes0,
                        d0,
                        news,
                        ri,
                    ) + if computed(nodes0, d0, news, ri) { 1int } else { 0int });
                }
            } else {
                proof {
                    lemma_acted_unfold(nodes0, d0, ri);
                    assert(!acted(nodes0, d0, ri));
                    assert forall|i: int| ri + 1 <= i < n implies #[trigger] self.dirty.state@[i]
                        == (if marked(nodes0, d0, i, ri + 1) {
                        DirtyEnum::NeedCompute
                    } else {
                        d0[i]
                    }) by {
                        lemma_marked_step(nodes0, d0, i, ri);
                    }
                    assert(count_computed(nodes0, d0, self.store.values@, ri + 1)
                        == count_computed(nodes0, d0, self.store.values@, ri));
                    assert(node_outputs(nodes0, self.store.values@, ri) == node_outputs(
                        nodes0,
                        s0,
                        ri,
                    ));
                }
            }
            output_index = output_index + arity;
            run_index += 1;
        }
        proof {
            if forall|j: int| 0 <= j < n as int ==> d0[j] != DirtyEnum::NeedCompute {
                lemma_count_zero(nodes0, d0, self.store.values@, n as int);
            }
        }
        Ok(compute_count)
    }
}


pub proof fn lemma_no_acted<C: DynCall>(nodes: Seq<ExecNode<C>>, d0: Seq<DirtyEnum>, i: int)
    requires
        forall|j: int| 0 <= j < nodes.len() ==> #[trigger] d0[j] != DirtyEnum::NeedCompute,
    ensures
        !acted(nodes, d0, i),
    decreases i, 1int,
{
    if 0 <= i < nodes.len() {
        lemma_no_marked(nodes, d0, i, i);
    }
}

pub proof fn lemma_no_marked<C: DynCall>(
    nodes: Seq<ExecNode<C>>,
    d0: Seq<DirtyEnum>,
    i: int,
    upto: int,
)
    requires
        forall|j: int| 0 <= j < nodes.len() ==> #[trigger] d0[j] != DirtyEnum::NeedCompute,
        upto <= nodes.len(),
    ensures
        !marked(nodes, d0, i, upto),
    decreases upto, 0int,
{
    if upto > 0 {
        lemma_no_acted(nodes, d0, upto - 1);
        lemma_no_marked(nodes, d0, i, upto - 1);
    }
}

pub proof fn lemma_count_zero<C: DynCall>(
    nodes: Seq<ExecNode<C>>,
    d0: Seq<DirtyEnum>,
    store: Seq<Option<C::Value>>,
    upto: int,
)
    requires
        forall|j: int| 0 <= j < nodes.len() ==> #[trigger] d0[j] != DirtyEnum::NeedCompute,
        upto <= nodes.len(),
    ensures
        count_computed(nodes, d0, store, upto) == 0,
    decreases upto,
{
    if upto > 0 {
        lemma_no_acted(nodes, d0, upto - 1);
        lemma_count_zero(nodes, d0, store, upto - 1);
    }
}

/// A tick that starts with no node flagged `NeedCompute` recomputes nothing
/// and changes nothing: it returns 0, and every dirty flag and every node's
/// output slots stay as they were.
pub proof fn lemma_run_fixpoint<C: DynCall>(
    nodes: Seq<ExecNode<C>>,
    d0: Seq<DirtyEnum>,
    s0: Seq<Option<C::Value>>,
    d1: Seq<DirtyEnum>,
    s1: Seq<Option<C::Value>>,
    count: int,
)
    requires
        run_rel(nodes, d0, s0, d1, s1, count),
        forall|j: int| 0 <= j < nodes.len() ==> #[trigger] d0[j] != DirtyEnum::NeedCompute,
    ensures
        count == 0,
        forall|i: int| 0 <= i < nodes.len() ==> #[trigger] d1[i] == d0[i],
        forall|i: int|
            0 <= i < nodes.len() ==> #[trigger] node_outputs(nodes, s1, i) == node_outputs(
                nodes,
                s0,
                i,
            ),
{
    assert forall|i: int| 0 <= i < nodes.len() implies !acted(nodes, d0, i) by {
        lemma_no_acted(nodes, d0, i);
    }
    lemma_count_zero(nodes, d0, s1, nodes.len() as int);
}

/// Idempotence of the run loop: after one successful tick, a second tick
/// with no intervening `set_runnable` performs zero recomputations and
/// leaves every dirty flag and every node's output slots unchanged.
pub proof fn lemma_run_idempotent<C: DynCall>(
    nodes: Seq<ExecNode<C>>,
    d0: Seq<DirtyEnum>,
    s0: Seq<Option<C::Value>>,
    d1: Seq<DirtyEnum>,
    s1: Seq<Option<C::Value>>,
    c1: int,
    d2: Seq<DirtyEnum>,
    s2: Seq<Option<C::Value>>,
    c2: int,
)
    requires
        run_rel(nodes, d0, s0, d1, s1, c1),
        run_rel(nodes, d1, s1, d2, s2, c2),
    ensures
        c2 == 0,
        forall|i: int| 0 <= i < nodes.len() ==> #[trigger] d2[i] == d1[i],
        forall|i: int|
            0 <= i < nodes.len() ==> #[trigger] node_outputs(nodes, s2, i) == node_outputs(
                nodes,
                s1,
                i,
            ),
{
    lemma_run_settles(nodes, d0, s0, d1, s1, c1);
    lemma_run_fixpoint(nodes, d1, s1, d2, s2, c2);
}

/// A successful tick settles every flag: afterwards no node is left
/// `NeedCompute`, so the next tick has nothing to visit.
pub proof fn lemma_run_settles<C: DynCall>(
    nodes: Seq<ExecNode<C>>,
    d0: Seq<DirtyEnum>,
    s0: Seq<Option<C::Value>>,
    d1: Seq<DirtyEnum>,
    s1: Seq<Option<C::Value>>,
    count: int,
)
    requires
        run_rel(nodes, d0, s0, d1, s1, count),
    ensures
        forall|i: int| 0 <= i < nodes.len() ==> #[trigger] d1[i] != DirtyEnum::NeedCompute,
{
    assert forall|i: int| 0 <= i < nodes.len() implies #[trigger] d1[i]
        != DirtyEnum::NeedCompute by {
        if acted(nodes, d0, i) {
            if inputs_present(nodes, s1, i) {
                assert(d1[i] == DirtyEnum::Clean);
            } else {
                assert(d1[i] == DirtyEnum::Stale);
            }
        } else {
            assert(d1[i] == d0[i]);
            lemma_acted_unfold(nodes, d0, i);
        }
    }
}

/// Whether node `i` is reachable from `root` along children edges.
pub open spec fn reaches<C: DynCall>(nodes: Seq<ExecNode<C>>, root: int, i: int) -> bool
    decreases i, 1int,
{
    if i < 0 || i >= nodes.len() {
        false
    } else if i == root {
        true
    } else {
        reached_child(nodes, root, i, i)
    }
}

/// Whether one of the first `upto` nodes reachable from `root` lists `i` as
/// a child.
pub open spec fn reached_child<C: DynCall>(
    nodes: Seq<ExecNode<C>>,
    root: int,
    i: int,
    upto: int,
) -> bool
    decreases upto, 0int,
{
    if upto <= 0 {
        false
    } else {
        (reaches(nodes, root, upto - 1) && nodes[upto - 1].children@.contains(i as usize))
            || reached_child(nodes, root, i, upto - 1)
    }
}

pub proof fn lemma_acted_is_reachable<C: DynCall>(
    nodes: Seq<ExecNode<C>>,
    d0: Seq<DirtyEnum>,
    root: int,
    i: int,
)
    requires
        0 <= root < nodes.len(),
        d0[root] == DirtyEnum::NeedCompute,
        forall|j: int|
            0 <= j < nodes.len() && j != root ==> #[trigger] d0[j] != DirtyEnum::NeedCompute,
    ensures
        acted(nodes, d0, i) == reaches(nodes, root, i),
    decreases i, 1int,
{
    if 0 <= i < nodes.len() && i != root {
        lemma_marked_is_reached_child(nodes, d0, root, i, i);
    }
}

pub proof fn lemma_marked_is_reached_child<C: DynCall>(
    nodes: Seq<ExecNode<C>>,
    d0: Seq<DirtyEnum>,
    root: int,
    i: int,
    upto: int,
)
    requires
        0 <= root < nodes.len(),
        d0[root] == DirtyEnum::NeedCompute,
        forall|j: int|
            0 <= j < nodes.len() && j != root ==> #[trigger] d0[j] != DirtyEnum::NeedCompute,
    ensures
        marked(nodes, d0, i, upto) == reached_child(nodes, root, i, upto),
    decreases upto, 0int,
{
    if upto > 0 {
        lemma_acted_is_reachable(nodes, d0, root, upto - 1);
        lemma_marked_is_reached_child(nodes, d0, root, i, upto - 1);
    }
}

/// Propagation: when only `root` is flagged and everything else is settled,
/// a tick visits exactly the nodes reachable from `root` along children
/// edges; every unreachable node keeps its dirty flag and its output slots.
pub proof fn lemma_run_propagation<C: DynCall>(
    nodes: Seq<ExecNode<C>>,
    d0: Seq<DirtyEnum>,
    s0: Seq<Option<C::Value>>,
    d1: Seq<DirtyEnum>,
    s1: Seq<Option<C::Value>>,
    count: int,
    root: int,
)
    requires
        run_rel(nodes, d0, s0, d1, s1, count),
        0 <= root < nodes.len(),
        d0[root] == DirtyEnum::NeedCompute,
        forall|j: int|
            0 <= j < nodes.len() && j != root ==> #[trigger] d0[j] != DirtyEnum::NeedCompute,
    ensures
        forall|i: int|
            0 <= i < nodes.len() ==> (acted(nodes, d0, i) <==> #[trigger] reaches(
                nodes,
                root,
                i,
            )),
        forall|i: int|
            0 <= i < nodes.len() && !reaches(nodes, root, i) ==> #[trigger] d1[i] == d0[i]
                && node_outputs(nodes, s1, i) == node_outputs(nodes, s0, i),
{
    assert forall|i: int| 0 <= i < nodes.len() implies (acted(nodes, d0, i)
        <==> #[trigger] reaches(nodes, root, i)) by {
        lemma_acted_is_reachable(nodes, d0, root, i);
    }
}

pub proof fn lemma_marked_intro<C: DynCall>(
    nodes: Seq<ExecNode<C>>,
    d0: Seq<DirtyEnum>,
    target: int,
    j: int,
    upto: int,
)
    requires
        0 <= j < upto,
        acted(nodes, d0, j),
        nodes[j].children@.contains(target as usize),
    ensures
        marked(nodes, d0, target, upto),
    decreases upto,
{
    if j < upto - 1 {
        lemma_marked_intro(nodes, d0, target, j, upto - 1);
    }
}

/// Absence propagation: a node visited with a missing input goes `Stale`
/// and clears its own outputs, and every one of its children is itself
/// visited during the same tick, ending the tick with a settled flag.
pub proof fn lemma_absence_propagates<C: DynCall>(
    nodes: Seq<ExecNode<C>>,
    d0: Seq<DirtyEnum>,
    s0: Seq<Option<C::Value>>,
    d1: Seq<DirtyEnum>,
    s1: Seq<Option<C::Value>>,
    count: int,
    i: int,
)
    requires
        wired(nodes),
        run_rel(nodes, d0, s0, d1, s1, count),
        0 <= i < nodes.len(),
        acted(nodes, d0, i),
        !inputs_present(nodes, s1, i),
    ensures
        d1[i] == DirtyEnum::Stale,
        all_none(node_outputs(nodes, s1, i)),
        forall|k: int|
            0 <= k < nodes[i].children@.len() ==> acted(
                nodes,
                d0,
                #[trigger] nodes[i].children@[k] as int,
            ) && d1[nodes[i].children@[k] as int] != DirtyEnum::NeedCompute,
{
    assert(node_wired(nodes, i));
    assert forall|k: int| 0 <= k < nodes[i].children@.len() implies acted(
        nodes,
        d0,
        #[trigger] nodes[i].children@[k] as int,
    ) && d1[nodes[i].children@[k] as int] != DirtyEnum::NeedCompute by {
        let ch = nodes[i].children@[k] as int;
        assert(i < ch < nodes.len());
        assert(nodes[i].children@.contains(nodes[i].children@[k]));
        lemma_marked_intro(nodes, d0, ch, i, ch);
        lemma_acted_unfold(nodes, d0, ch);
        assert(acted(nodes, d0, ch));
        if inputs_present(nodes, s1, ch) {
            assert(d1[ch] == DirtyEnum::Clean);
        } else {
            assert(d1[ch] == DirtyEnum::Stale);
        }
    }
}


} // verus!
