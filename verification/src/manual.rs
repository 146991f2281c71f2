use crate::basic::{dec_str, int_to_string, one, one_result, three, two, two_optional};
use crate::dirty::DirtyEnum;
use vstd::prelude::*;

verus! {

/// A counter with a default starting point.
#[derive(Clone, Copy, Debug, PartialEq, Eq, Structural)]
pub struct MutInt {
    pub value: i32,
}

impl Default for MutInt {
    fn default() -> (r: Self)
        ensures r.value == 0,
    {
        MutInt { value: 0 }
    }
}

/// A counter without a default starting point.
#[derive(Clone, Copy, Debug, PartialEq, Eq, Structural)]
pub struct MutIntNoDefault {
    pub value: i32,
}

/// A counter starting at `v`.
pub fn mutable_int(v: i32) -> (r: MutInt)
    ensures r.value == v,
{
    MutInt { value: v }
}

/// A counter starting at `v`.
pub fn mutable_int_no_default(v: i32) -> (r: MutIntNoDefault)
    ensures r.value == v,
{
    MutIntNoDefault { value: v }
}

/// Advance the counter and return its new value.
pub fn tick(m: &mut MutInt) -> (r: i32)
    requires
        old(m).value < i32::MAX,
    ensures
        final(m).value == old(m).value + 1,
        r == old(m).value + 1,
{
    m.value = m.value + 1;
    m.value
}

/// Advance the counter and return its new value.
pub fn tick_no_default(m: &mut MutIntNoDefault) -> (r: i32)
    requires
        old(m).value < i32::MAX,
    ensures
        final(m).value == old(m).value + 1,
        r == old(m).value + 1,
{
    m.value = m.value + 1;
    m.value
}

/// View a string as a borrowed slice of itself.
pub fn string_slice(s: &String) -> (r: &str)
    ensures r@ == s@,
{
    s.as_str()
}

/// The whole pipeline run by hand with local variables: a three producer,
/// a counter seeded from it, one tick, and decimal rendering.
pub fn manual() -> (r: String)
    ensures
        r@ == seq!['4'],
{
    let three_value = three();
    let mut mut_int = mutable_int(three_value);
    let tick_value = tick(&mut mut_int);
    let int_to_string_value = int_to_string(tick_value);
    let string_slice_value = string_slice(&int_to_string_value);
    let r = string_slice_value.to_owned();
    proof {
        assert(dec_str(4) =~= seq!['4']);
    }
    r
}

/// The pipeline state kept across runs, one plain field per step.
#[derive(Debug)]
pub struct ManualPersist {
    pub three_value: i32,
    pub mut_int: MutInt,
    pub tick_value: i32,
    pub int_to_string_value: String,
}

impl Default for ManualPersist {
    fn default() -> (r: Self)
        ensures
            r.three_value == 0,
            r.mut_int.value == 0,
            r.tick_value == 0,
            r.int_to_string_value@.len() == 0,
    {
        ManualPersist {
            three_value: 0,
            mut_int: MutInt { value: 0 },
            tick_value: 0,
            int_to_string_value: String::new(),
        }
    }
}

/// The pipeline run over persistent state, recomputing every field.
pub fn manual_persist(state: &mut ManualPersist) -> (r: String)
    ensures
        final(state).three_value == 3,
        final(state).mut_int.value == 4,
        final(state).tick_value == 4,
        final(state).int_to_string_value@ == seq!['4'],
        r@ == seq!['4'],
{
    state.three_value = three();
    state.mut_int = mutable_int(state.three_value);
    state.tick_value = tick(&mut state.mut_int);
    state.int_to_string_value = int_to_string(state.tick_value);
    let string_slice_value = string_slice(&state.int_to_string_value);
    let r = string_slice_value.to_owned();
    proof {
        assert(dec_str(4) =~= seq!['4']);
    }
    r
}

/// The pipeline state with every field optional, so a step can record that
/// it produced nothing.
#[derive(Debug)]
pub struct ManualOptionalStore {
    pub three_value: Option<i32>,
    pub mut_int: Option<MutIntNoDefault>,
    pub tick_value: Option<i32>,
    pub int_to_string_value: Option<String>,
    pub print_value: Option<()>,
}

impl Default for ManualOptionalStore {
    fn default() -> (r: Self)
        ensures
            r.three_value is None,
            r.mut_int is None,
            r.tick_value is None,
            r.int_to_string_value is None,
            r.print_value is None,
    {
        ManualOptionalStore {
            three_value: None,
            mut_int: None,
            tick_value: None,
            int_to_string_value: None,
            print_value: None,
        }
    }
}

/// The optional-state pipeline, unwrapping each upstream value directly.
pub fn manual_optional_persist_with_unwrap(state: &mut ManualOptionalStore) -> (r: String)
    ensures
        final(state).three_value == Some(3i32),
        final(state).mut_int matches Some(m) && m.value == 4,
        final(state).tick_value == Some(4i32),
        final(state).int_to_string_value matches Some(s) && s@ == seq!['4'],
        final(state).print_value == old(state).print_value,
        r@ == seq!['4'],
{
    state.three_value = Some(three());
    state.mut_int = Some(mutable_int_no_default(state.three_value.unwrap()));
    let ticked = match &mut state.mut_int {
        Some(m) => tick_no_default(m),
        None => 0,
    };
    state.tick_value = Some(ticked);
    state.int_to_string_value = Some(int_to_string(state.tick_value.unwrap()));
    let r = match &state.int_to_string_value {
        Some(s) => string_slice(s).to_owned(),
        None => String::new(),
    };
    proof {
        assert(dec_str(4) =~= seq!['4']);
    }
    r
}

/// The optional-state pipeline, guarding each step with an `if let` on its
/// upstream value.
pub fn manual_option_persist_with_if_let(state: &mut ManualOptionalStore) -> (r: String)
    ensures
        final(state).three_value == Some(3i32),
        final(state).mut_int matches Some(m) && m.value == 4,
        final(state).tick_value == Some(4i32),
        final(state).int_to_string_value matches Some(s) && s@ == seq!['4'],
        final(state).print_value == old(state).print_value,
        r@ == seq!['4'],
{
    state.three_value = Some(three());

    if let Some(three_value) = state.three_value {
        state.mut_int = Some(mutable_int_no_default(three_value));
    }

    let mut ticked: Option<i32> = None;
    if let Some(m) = &mut state.mut_int {
        ticked = Some(tick_no_default(m));
    }
    if let Some(t) = ticked {
        state.tick_value = Some(t);
    }

    if let Some(tick_value) = state.tick_value {
        state.int_to_string_value = Some(int_to_string(tick_value));
    }

    let r = match &state.int_to_string_value {
        Some(s) => string_slice(s).to_owned(),
        None => String::new(),
    };
    proof {
        assert(dec_str(4) =~= seq!['4']);
    }
    r
}

/// One dirty flag per pipeline step.
#[derive(Debug)]
pub struct DirtyState {
    pub three: DirtyEnum,
    pub mut_int: DirtyEnum,
    pub tick: DirtyEnum,
    pub int_to_string: DirtyEnum,
    pub print: DirtyEnum,
}

impl Default for DirtyState {
    fn default() -> (r: Self)
        ensures
            r.three == DirtyEnum::NeedCompute,
            r.mut_int == DirtyEnum::NeedCompute,
            r.tick == DirtyEnum::NeedCompute,
            r.int_to_string == DirtyEnum::NeedCompute,
            r.print == DirtyEnum::NeedCompute,
    {
        DirtyState {
            three: DirtyEnum::NeedCompute,
            mut_int: DirtyEnum::NeedCompute,
            tick: DirtyEnum::NeedCompute,
            int_to_string: DirtyEnum::NeedCompute,
            print: DirtyEnum::NeedCompute,
        }
    }
}

/// The run loop written out by hand for the five-step pipeline: each step
/// runs when flagged, goes `Clean` when its input is present and `Stale`
/// when it is missing, and flags its successor either way.  The contract
/// walks the same cascade over the old values, so the final state is pinned
/// for every starting state.
pub fn manual_dirty(state: &mut ManualOptionalStore, dirty: &mut DirtyState)
    requires
        old(state).three_value matches Some(v) ==> v < i32::MAX,
        old(state).mut_int matches Some(m) ==> m.value < i32::MAX,
    ensures
        ({
            let ran1 = old(dirty).three == DirtyEnum::NeedCompute;
            let three_v = if ran1 { Some(3i32) } else { old(state).three_value };
            let d2 = if ran1 { DirtyEnum::NeedCompute } else { old(dirty).mut_int };
            let ran2 = d2 == DirtyEnum::NeedCompute;
            let mut_v = if ran2 {
                match three_v {
                    Some(v) => Some(MutIntNoDefault { value: v }),
                    None => None,
                }
            } else {
                old(state).mut_int
            };
            let d3 = if ran2 { DirtyEnum::NeedCompute } else { old(dirty).tick };
            let ran3 = d3 == DirtyEnum::NeedCompute;
            let mut_v2 = if ran3 {
                match mut_v {
                    Some(m) => Some(MutIntNoDefault { value: (m.value + 1) as i32 }),
                    None => None,
                }
            } else {
                mut_v
            };
            let tick_v = if ran3 {
                match mut_v {
                    Some(m) => Some(((m.value + 1) as i32)),
                    None => None,
                }
            } else {
                old(state).tick_value
            };
            let d4 = if ran3 { DirtyEnum::NeedCompute } else { old(dirty).int_to_string };
            let ran4 = d4 == DirtyEnum::NeedCompute;
            let d5 = if ran4 { DirtyEnum::NeedCompute } else { old(dirty).print };
            let ran5 = d5 == DirtyEnum::NeedCompute;
            &&& final(state).three_value == three_v
            &&& final(state).mut_int == mut_v2
            &&& final(state).tick_value == tick_v
            &&& (if ran4 {
                match tick_v {
                    Some(t) => final(state).int_to_string_value matches Some(s) && s@ == dec_str(
                        t as int,
                    ),
                    None => final(state).int_to_string_value is None,
                }
            } else {
                final(state).int_to_string_value == old(state).int_to_string_value
            })
            &&& (if ran5 {
                if (if ran4 { tick_v is Some } else { old(state).int_to_string_value is Some }) {
                    final(state).print_value == Some(())
                } else {
                    final(state).print_value is None
                }
            } else {
                final(state).print_value == old(state).print_value
            })
            &&& final(dirty).three == (if ran1 { DirtyEnum::Clean } else { old(dirty).three })
            &&& final(dirty).mut_int == (if ran2 {
                if three_v is Some { DirtyEnum::Clean } else { DirtyEnum::Stale }
            } else {
                d2
            })
            &&& final(dirty).tick == (if ran3 {
                if mut_v is Some { DirtyEnum::Clean } else { DirtyEnum::Stale }
            } else {
                d3
            })
            &&& final(dirty).int_to_string == (if ran4 {
                if tick_v is Some { DirtyEnum::Clean } else { DirtyEnum::Stale }
            } else {
                d4
            })
            &&& final(dirty).print == (if ran5 {
                if (if ran4 { tick_v is Some } else { old(state).int_to_string_value is Some }) {
                    DirtyEnum::Clean
                } else {
                    DirtyEnum::Stale
                }
            } else {
                d5
            })
        }),
{
    if dirty.three == DirtyEnum::NeedCompute {
        dirty.three = DirtyEnum::Clean;
        state.three_value = Some(three());
        dirty.mut_int = DirtyEnum::NeedCompute;
    }

    if dirty.mut_int == DirtyEnum::NeedCompute {
        state.mut_int = if let Some(three_value) = state.three_value {
            dirty.mut_int = DirtyEnum::Clean;
            Some(mutable_int_no_default(three_value))
        } else {
            dirty.mut_int = DirtyEnum::Stale;
            None
        };
        dirty.tick = DirtyEnum::NeedCompute;
    }

    if dirty.tick == DirtyEnum::NeedCompute {
        let mut ticked: Option<i32> = None;
        if let Some(m) = &mut state.mut_int {
            ticked = Some(tick_no_default(m));
        }
        state.tick_value = if let Some(t) = ticked {
            dirty.tick = DirtyEnum::Clean;
            Some(t)
        } else {
            dirty.tick = DirtyEnum::Stale;
            None
        };
        dirty.int_to_string = DirtyEnum::NeedCompute;
    }

    if dirty.int_to_string == DirtyEnum::NeedCompute {
        state.int_to_string_value = if let Some(tick_value) = state.tick_value {
            dirty.int_to_string = DirtyEnum::Clean;
            Some(int_to_string(tick_value))
        } else {
            dirty.int_to_string = DirtyEnum::Stale;
            None
        };
        dirty.print = DirtyEnum::NeedCompute;
    }

    if dirty.print == DirtyEnum::NeedCompute {
        state.print_value = if let Some(int_to_string_value) = &state.int_to_string_value {
            let _string_slice_value = string_slice(int_to_string_value);
            dirty.print = DirtyEnum::Clean;
            Some(())
        } else {
            dirty.print = DirtyEnum::Stale;
            None
        };
    }
}


/// One dirty flag per node of the small tree: two producers and a combiner.
#[derive(Debug)]
pub struct TreeDirty {
    pub one: DirtyEnum,
    pub two: DirtyEnum,
    pub add: DirtyEnum,
}

impl Default for TreeDirty {
    fn default() -> (r: Self)
        ensures
            r.one == DirtyEnum::NeedCompute,
            r.two == DirtyEnum::NeedCompute,
            r.add == DirtyEnum::NeedCompute,
    {
        TreeDirty {
            one: DirtyEnum::NeedCompute,
            two: DirtyEnum::NeedCompute,
            add: DirtyEnum::NeedCompute,
        }
    }
}

/// The tree's value store: two producer slots and the combiner's slot.
#[derive(Clone, Copy, Debug, PartialEq, Eq, Structural)]
pub struct TreeState {
    pub one: Option<i32>,
    pub two: Option<i32>,
    pub add: Option<i32>,
}

impl Default for TreeState {
    fn default() -> (r: Self)
        ensures
            r.one is None,
            r.two is None,
            r.add is None,
    {
        TreeState { one: None, two: None, add: None }
    }
}

/// The run loop written out by hand for the two-producer tree: each
/// producer flags the combiner, and the combiner runs only when both
/// producer slots hold a value.
pub fn manual_tree(state: &mut TreeState, dirty: &mut TreeDirty)
    requires
        ({
            let a = if old(dirty).one == DirtyEnum::NeedCompute {
                Some(1i32)
            } else {
                old(state).one
            };
            let b = if old(dirty).two == DirtyEnum::NeedCompute {
                Some(2i32)
            } else {
                old(state).two
            };
            a matches Some(x) ==> (b matches Some(y) ==> i32::MIN <= x + y <= i32::MAX)
        }),
    ensures
        ({
            let ran1 = old(dirty).one == DirtyEnum::NeedCompute;
            let ran2 = old(dirty).two == DirtyEnum::NeedCompute;
            let a = if ran1 { Some(1i32) } else { old(state).one };
            let b = if ran2 { Some(2i32) } else { old(state).two };
            let d3 = if ran1 || ran2 { DirtyEnum::NeedCompute } else { old(dirty).add };
            let ran3 = d3 == DirtyEnum::NeedCompute;
            &&& final(state).one == a
            &&& final(state).two == b
            &&& (if ran3 {
                match (a, b) {
                    (Some(x), Some(y)) => final(state).add == Some(((x + y) as i32)),
                    _ => final(state).add is None,
                }
            } else {
                final(state).add == old(state).add
            })
            &&& final(dirty).one == (if ran1 { DirtyEnum::Clean } else { old(dirty).one })
            &&& final(dirty).two == (if ran2 { DirtyEnum::Clean } else { old(dirty).two })
            &&& final(dirty).add == (if ran3 {
                if a is Some && b is Some { DirtyEnum::Clean } else { DirtyEnum::Stale }
            } else {
                d3
            })
        }),
{
    if dirty.one == DirtyEnum::NeedCompute {
        dirty.one = DirtyEnum::Clean;
        state.one = Some(one());
        dirty.add = DirtyEnum::NeedCompute;
    }

    if dirty.two == DirtyEnum::NeedCompute {
        dirty.two = DirtyEnum::Clean;
        state.two = Some(two());
        dirty.add = DirtyEnum::NeedCompute;
    }

    if dirty.add == DirtyEnum::NeedCompute {
        state.add = if let (Some(a), Some(b)) = (state.one, state.two) {
            dirty.add = DirtyEnum::Clean;
            Some(crate::basic::add(a, b))
        } else {
            dirty.add = DirtyEnum::Stale;
            None
        }
    }
}

/// The tree store where the second producer yields an optional value: its
/// slot holds the produced option whole, and the combiner requires the
/// inner value to be present.
#[derive(Clone, Copy, Debug, PartialEq, Eq, Structural)]
pub struct TreeStateWithOptional {
    pub one: Option<i32>,
    pub two: Option<Option<i32>>,
    pub add: Option<i32>,
}

impl Default for TreeStateWithOptional {
    fn default() -> (r: Self)
        ensures
            r.one is None,
            r.two is None,
            r.add is None,
    {
        TreeStateWithOptional { one: None, two: None, add: None }
    }
}

/// The tree with an optional-producing second node: the combiner runs only
/// when the producer ran and its inner value is present.
pub fn tree_with_optional_node(state: &mut TreeStateWithOptional, dirty: &mut TreeDirty)
    requires
        ({
            let a = if old(dirty).one == DirtyEnum::NeedCompute {
                Some(1i32)
            } else {
                old(state).one
            };
            let b = if old(dirty).two == DirtyEnum::NeedCompute {
                Some(Some(2i32))
            } else {
                old(state).two
            };
            a matches Some(x) ==> (b matches Some(Some(y)) ==> i32::MIN <= x + y <= i32::MAX)
        }),
    ensures
        ({
            let ran1 = old(dirty).one == DirtyEnum::NeedCompute;
            let ran2 = old(dirty).two == DirtyEnum::NeedCompute;
            let a = if ran1 { Some(1i32) } else { old(state).one };
            let b = if ran2 { Some(Some(2i32)) } else { old(state).two };
            let d3 = if ran1 || ran2 { DirtyEnum::NeedCompute } else { old(dirty).add };
            let ran3 = d3 == DirtyEnum::NeedCompute;
            &&& final(state).one == a
            &&& final(state).two == b
            &&& (if ran3 {
                match (a, b) {
                    (Some(x), Some(Some(y))) => final(state).add == Some(((x + y) as i32)),
                    _ => final(state).add is None,
                }
            } else {
                final(state).add == old(state).add
            })
            &&& final(dirty).one == (if ran1 { DirtyEnum::Clean } else { old(dirty).one })
            &&& final(dirty).two == (if ran2 { DirtyEnum::Clean } else { old(dirty).two })
            &&& final(dirty).add == (if ran3 {
                if a is Some && b matches Some(Some(_)) {
                    DirtyEnum::Clean
                } else {
                    DirtyEnum::Stale
                }
            } else {
                d3
            })
        }),
{
    if dirty.one == DirtyEnum::NeedCompute {
        dirty.one = DirtyEnum::Clean;
        state.one = Some(one());
        dirty.add = DirtyEnum::NeedCompute;
    }

    if dirty.two == DirtyEnum::NeedCompute {
        dirty.two = DirtyEnum::Clean;
        state.two = Some(two_optional());
        dirty.add = DirtyEnum::NeedCompute;
    }

    if dirty.add == DirtyEnum::NeedCompute {
        state.add = if let (Some(a), Some(Some(b))) = (state.one, state.two) {
            dirty.add = DirtyEnum::Clean;
            Some(crate::basic::add(a, b))
        } else {
            dirty.add = DirtyEnum::Stale;
            None
        }
    }
}

/// The tree store where the first producer yields a fallible value: its
/// slot holds the whole result, and the combiner requires success.
#[derive(Clone, Copy, Debug)]
pub struct TreeStateWithResult {
    pub one: Option<Result<i32, ()>>,
    pub two: Option<i32>,
    pub add: Option<i32>,
}

/// The tree with a fallible first node: the combiner runs only when the
/// producer ran and succeeded.
pub fn tree_with_result_node(state: &mut TreeStateWithResult, dirty: &mut TreeDirty)
    requires
        ({
            let a = if old(dirty).one == DirtyEnum::NeedCompute {
                Some(Ok::<i32, ()>(1i32))
            } else {
                old(state).one
            };
            let b = if old(dirty).two == DirtyEnum::NeedCompute {
                Some(2i32)
            } else {
                old(state).two
            };
            a matches Some(Ok(x)) ==> (b matches Some(y) ==> i32::MIN <= x + y <= i32::MAX)
        }),
    ensures
        ({
            let ran1 = old(dirty).one == DirtyEnum::NeedCompute;
            let ran2 = old(dirty).two == DirtyEnum::NeedCompute;
            let a = if ran1 { Some(Ok::<i32, ()>(1i32)) } else { old(state).one };
            let b = if ran2 { Some(2i32) } else { old(state).two };
            let d3 = if ran1 || ran2 { DirtyEnum::NeedCompute } else { old(dirty).add };
            let ran3 = d3 == DirtyEnum::NeedCompute;
            &&& final(state).one == a
            &&& final(state).two == b
            &&& (if ran3 {
                match (a, b) {
                    (Some(Ok(x)), Some(y)) => final(state).add == Some(((x + y) as i32)),
                    _ => final(state).add is None,
                }
            } else {
                final(state).add == old(state).add
            })
            &&& final(dirty).one == (if ran1 { DirtyEnum::Clean } else { old(dirty).one })
            &&& final(dirty).two == (if ran2 { DirtyEnum::Clean } else { old(dirty).two })
            &&& final(dirty).add == (if ran3 {
                if a matches Some(Ok(_)) && b is Some { DirtyEnum::Clean } else { DirtyEnum::Stale }
            } else {
                d3
            })
        }),
{
    if dirty.one == DirtyEnum::NeedCompute {
        dirty.one = DirtyEnum::Clean;
        let got = match one_result() {
            Ok(v) => Ok(v),
            Err(_) => Err(()),
        };
        state.one = Some(got);
        dirty.add = DirtyEnum::NeedCompute;
    }

    if dirty.two == DirtyEnum::NeedCompute {
        dirty.two = DirtyEnum::Clean;
        state.two = Some(two());
        dirty.add = DirtyEnum::NeedCompute;
    }

    if dirty.add == DirtyEnum::NeedCompute {
        state.add = if let (Some(Ok(a)), Some(b)) = (state.one, state.two) {
            dirty.add = DirtyEnum::Clean;
            Some(crate::basic::add(a, b))
        } else {
            dirty.add = DirtyEnum::Stale;
            None
        }
    }
}

/// The same two-producer tree as `manual_tree`, written as three uniform
/// run-one-step blocks of the shape the run loop generalizes.
pub fn tree_with_macros(state: &mut TreeState, dirty: &mut TreeDirty)
    requires
        ({
            let a = if old(dirty).one == DirtyEnum::NeedCompute {
                Some(1i32)
            } else {
                old(state).one
            };
            let b = if old(dirty).two == DirtyEnum::NeedCompute {
                Some(2i32)
            } else {
                old(state).two
            };
            a matches Some(x) ==> (b matches Some(y) ==> i32::MIN <= x + y <= i32::MAX)
        }),
    ensures
        ({
            let ran1 = old(dirty).one == DirtyEnum::NeedCompute;
            let ran2 = old(dirty).two == DirtyEnum::NeedCompute;
            let a = if ran1 { Some(1i32) } else { old(state).one };
            let b = if ran2 { Some(2i32) } else { old(state).two };
            let d3 = if ran1 || ran2 { DirtyEnum::NeedCompute } else { old(dirty).add };
            let ran3 = d3 == DirtyEnum::NeedCompute;
            &&& final(state).one == a
            &&& final(state).two == b
            &&& (if ran3 {
                match (a, b) {
                    (Some(x), Some(y)) => final(state).add == Some(((x + y) as i32)),
                    _ => final(state).add is None,
                }
            } else {
                final(state).add == old(state).add
            })
            &&& final(dirty).one == (if ran1 { DirtyEnum::Clean } else { old(dirty).one })
            &&& final(dirty).two == (if ran2 { DirtyEnum::Clean } else { old(dirty).two })
            &&& final(dirty).add == (if ran3 {
                if a is Some && b is Some { DirtyEnum::Clean } else { DirtyEnum::Stale }
            } else {
                d3
            })
        }),
{
    if dirty.one == DirtyEnum::NeedCompute {
        state.one = {
            dirty.one = DirtyEnum::Clean;
            Some(one())
        };
        dirty.add = DirtyEnum::NeedCompute;
    }

    if dirty.two == DirtyEnum::NeedCompute {
        state.two = {
            dirty.two = DirtyEnum::Clean;
            Some(two())
        };
        dirty.add = DirtyEnum::NeedCompute;
    }

    if dirty.add == DirtyEnum::NeedCompute {
        state.add = if let (Some(a), Some(b)) = (state.one, state.two) {
            dirty.add = DirtyEnum::Clean;
            Some(crate::basic::add(a, b))
        } else {
            dirty.add = DirtyEnum::Stale;
            None
        };
    }
}

} // verus!
