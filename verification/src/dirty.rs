use vstd::prelude::*;

verus! {

/// The per-node recomputation flag.
///
/// `NeedCompute` means the node must be visited on the next tick, `Clean`
/// means its outputs reflect its current inputs, and `Stale` means the node
/// was visited but at least one required input was absent, so its outputs
/// were cleared.
#[derive(Clone, Copy, Debug, PartialEq, Eq, Structural)]
pub enum DirtyEnum {
    NeedCompute,
    Stale,
    Clean,
}

impl Default for DirtyEnum {
    /// A fresh node has not been computed yet.
    fn default() -> (r: Self)
        ensures r == DirtyEnum::NeedCompute,
    {
        DirtyEnum::NeedCompute
    }
}

/// One dirty flag per node, indexed by node position in execution order.
pub struct DynDirty {
    pub state: Vec<DirtyEnum>,
}

impl DynDirty {
    /// A dirty vector of `size` flags, all `NeedCompute`.
    pub fn new(size: usize) -> (r: Self)
        ensures
            r.state@.len() == size,
            forall|i: int| 0 <= i < size ==> r.state@[i] == DirtyEnum::NeedCompute,
    {
        let mut state: Vec<DirtyEnum> = Vec::new();
        let mut i: usize = 0;
        while i < size
            invariant
                i <= size,
                state@.len() == i,
                forall|j: int| 0 <= j < i ==> state@[j] == DirtyEnum::NeedCompute,
            decreases size - i,
        {
            state.push(DirtyEnum::NeedCompute);
            i = i + 1;
        }
        DynDirty { state }
    }
}

} // verus!
