use crate::errors::ExecError;
use crate::ports::DynPort;
use vstd::prelude::*;

verus! {

/// Read-only view of one node's inputs during a `call`.
///
/// It borrows the whole store together with the node's resolved input
/// offsets; `fetch(k)` reads the slot supplying the node's `k`-th declared
/// input.
pub struct InputGetter<'a, V> {
    pub values: &'a Vec<Option<V>>,
    pub indices: &'a Vec<usize>,
}

impl<'a, V> InputGetter<'a, V> {
    /// Number of declared inputs this view resolves.
    pub open spec fn spec_len(&self) -> nat {
        self.indices@.len()
    }

    /// Every resolved offset points inside the store.
    pub open spec fn wf(&self) -> bool {
        forall|k: int|
            0 <= k < self.indices@.len() ==> (self.indices@[k] as int) < self.values@.len()
    }

    /// The store slot supplying input `k`.
    pub open spec fn slot(&self, k: int) -> Option<V> {
        self.values@[self.indices@[k] as int]
    }

    /// Every slot this view resolves holds a value.
    pub open spec fn all_present(&self) -> bool {
        forall|k: int| 0 <= k < self.indices@.len() ==> #[trigger] self.slot(k) is Some
    }

    /// The input values in declared order, defined when all are present.
    pub open spec fn input_seq(&self) -> Seq<V> {
        Seq::new(self.indices@.len(), |k: int| self.slot(k)->Some_0)
    }

    /// A view over `values` resolving the offsets `indices`.
    pub fn new(values: &'a Vec<Option<V>>, indices: &'a Vec<usize>) -> (r: Self)
        ensures
            r.values == values,
            r.indices == indices,
    {
        InputGetter { values, indices }
    }

    /// The value supplying declared input `index`, or `FetchNone` if the
    /// slot is empty.
    pub fn fetch(&self, index: usize) -> (r: Result<&V, ExecError>)
        requires
            index < self.spec_len(),
            self.wf(),
        ensures
            match self.slot(index as int) {
                Some(v) => r matches Ok(rv) && *rv == v,
                None => r matches Err(e) && e == ExecError::FetchNone,
            },
    {
        let offset = self.indices[index];
        match &self.values[offset] {
            Some(v) => Ok(v),
            None => Err(ExecError::FetchNone),
        }
    }

    /// Number of declared inputs.
    pub fn len(&self) -> (r: usize)
        ensures r == self.spec_len(),
    {
        self.indices.len()
    }

    /// Whether the node declares no inputs.
    pub fn is_empty(&self) -> (r: bool)
        ensures r == (self.spec_len() == 0),
    {
        self.len() == 0
    }
}

/// Write-only view of one node's output slots during a `call`.
///
/// It starts with every slot empty; the node fills each declared output with
/// `some` or leaves it absent with `none`.  After the call the engine moves
/// the slots into the store wholesale, so outputs are always replaced, never
/// partially kept.
pub struct OutputSetter<V> {
    pub values: Vec<Option<V>>,
}

impl<V> View for OutputSetter<V> {
    type V = Seq<Option<V>>;

    open spec fn view(&self) -> Seq<Option<V>> {
        self.values@
    }
}

impl<V> OutputSetter<V> {
    /// A fresh set of `len` output slots, all empty.
    pub fn new(len: usize) -> (r: Self)
        ensures
            r@.len() == len,
            forall|k: int| 0 <= k < len ==> r@[k] is None,
    {
        let mut values: Vec<Option<V>> = Vec::new();
        let mut i: usize = 0;
        while i < len
            invariant
                i <= len,
                values@.len() == i,
                forall|j: int| 0 <= j < i ==> values@[j] is None,
            decreases len - i,
        {
            values.push(None);
            i = i + 1;
        }
        OutputSetter { values }
    }

    /// Fill output slot `index` with `value`.
    pub fn some(&mut self, index: usize, value: V)
        requires
            index < old(self)@.len(),
        ensures
            final(self)@ == old(self)@.update(index as int, Some(value)),
    {
        self.values[index] = Some(value);
    }

    /// Leave output slot `index` empty.
    pub fn none(&mut self, index: usize)
        requires
            index < old(self)@.len(),
        ensures
            final(self)@ == old(self)@.update(index as int, None),
    {
        self.values[index] = None;
    }

    /// Number of declared outputs.
    pub fn len(&self) -> (r: usize)
        ensures r == self@.len(),
    {
        self.values.len()
    }

    /// Whether the node declares no outputs.
    pub fn is_empty(&self) -> (r: bool)
        ensures r == (self@.len() == 0),
    {
        self.len() == 0
    }

    /// Hand the filled slots back to the engine.
    pub fn into_values(self) -> (r: Vec<Option<V>>)
        ensures r@ == self@,
    {
        self.values
    }
}

/// The polymorphic unit of computation.
///
/// A node kind declares fixed input and output arities, static port metadata
/// for authoring-time validation, and a `call` operation that reads its
/// declared inputs and fills its declared outputs.  The two spec functions
/// `call_ok` and `call_result` are the kind's contract: `call` succeeds
/// exactly on the inputs `call_ok` admits, and on success the outputs it
/// wrote satisfy `call_result`.
pub trait DynCall: Sized {
    /// The value universe this node computes over.
    type Value;

    /// Declared input arity.
    spec fn spec_input_len(&self) -> nat;

    /// Declared output arity.
    spec fn spec_output_len(&self) -> nat;

    /// The inputs on which `call` succeeds.
    spec fn call_ok(&self, inputs: Seq<Self::Value>) -> bool;

    /// What a successful `call` leaves in the output slots.
    spec fn call_result(&self, inputs: Seq<Self::Value>, outputs: Seq<Option<Self::Value>>) -> bool;

    /// Declared input arity.
    fn input_len(&self) -> (r: usize)
        ensures r == self.spec_input_len(),
    ;

    /// Declared output arity.
    fn output_len(&self) -> (r: usize)
        ensures r == self.spec_output_len(),
    ;

    /// The name of this node kind.
    fn kind(&self) -> String;

    /// Authoring-time description of the declared inputs, one port per input.
    fn inputs(&self) -> (r: Vec<DynPort>)
        ensures r@.len() == self.spec_input_len(),
    ;

    /// The type tokens of the declared output.
    fn output_type(&self) -> Vec<String>;

    /// The compute step: read the declared inputs, fill the declared outputs.
    fn call(
        &self,
        inputs: &InputGetter<'_, Self::Value>,
        outputs: &mut OutputSetter<Self::Value>,
    ) -> (r: Result<(), ExecError>)
        requires
            inputs.wf(),
            inputs.spec_len() == self.spec_input_len(),
            inputs.all_present(),
            old(outputs)@.len() == self.spec_output_len(),
            forall|k: int| 0 <= k < old(outputs)@.len() ==> old(outputs)@[k] is None,
        ensures
            final(outputs)@.len() == old(outputs)@.len(),
            r is Ok <==> self.call_ok(inputs.input_seq()),
            r is Ok ==> self.call_result(inputs.input_seq(), final(outputs)@),
    ;
}

} // verus!
