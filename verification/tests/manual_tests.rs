use ive::dirty::DirtyEnum;
use ive::manual::{
    manual, manual_dirty, manual_option_persist_with_if_let, manual_optional_persist_with_unwrap,
    manual_persist, manual_tree, tree_with_macros, tree_with_optional_node, tree_with_result_node,
    DirtyState, ManualOptionalStore, ManualPersist, TreeDirty, TreeState, TreeStateWithOptional,
    TreeStateWithResult,
};

#[test]
fn test_manual() {
    let res = manual();
    assert_eq!(res, "4");
}

#[test]
fn test_manual_persist() {
    let mut state = ManualPersist::default();
    let res = manual_persist(&mut state);
    assert_eq!(res, "4");
}

#[test]
fn test_manual_optional_persist_with_unwrap() {
    let mut state = ManualOptionalStore::default();
    let res = manual_optional_persist_with_unwrap(&mut state);
    assert_eq!(res, "4");
}

#[test]
fn test_manual_option_persist_with_if_let() {
    let mut state = ManualOptionalStore::default();
    let res = manual_option_persist_with_if_let(&mut state);
    assert_eq!(res, "4");
}

#[test]
fn test_manual_dirty() {
    let mut state = ManualOptionalStore::default();
    let mut dirty = DirtyState::default();
    manual_dirty(&mut state, &mut dirty);

    assert_eq!(state.int_to_string_value, Some("4".into()));
}

#[test]
fn test_manual_tree() {
    let mut state = TreeState::default();
    let mut dirty = TreeDirty::default();
    manual_tree(&mut state, &mut dirty);

    assert_eq!(state.add, Some(3));
}

#[test]
fn test_tree_with_optional_node() {
    let mut state = TreeStateWithOptional::default();
    let mut dirty = TreeDirty::default();
    tree_with_optional_node(&mut state, &mut dirty);

    assert_eq!(state.add, Some(3));
}

#[test]
fn test_tree_with_macros() {
    let mut state = TreeState::default();
    let mut dirty = TreeDirty::default();
    tree_with_macros(&mut state, &mut dirty);

    assert_eq!(state.add, Some(3));
}

#[test]
fn tree_with_result_node_combines_on_success() {
    let mut state = TreeStateWithResult {
        one: None,
        two: None,
        add: None,
    };
    let mut dirty = TreeDirty::default();
    tree_with_result_node(&mut state, &mut dirty);

    assert_eq!(state.one, Some(Ok(1)));
    assert_eq!(state.add, Some(3));
    assert_eq!(dirty.add, DirtyEnum::Clean);
}

#[test]
fn manual_dirty_goes_stale_without_its_input() {
    // the producer already ran dry earlier; revisiting the counter step
    // with its input still missing marks the rest of the pipeline stale
    let mut state = ManualOptionalStore::default();
    let mut dirty = DirtyState {
        three: DirtyEnum::Clean,
        mut_int: DirtyEnum::NeedCompute,
        tick: DirtyEnum::Clean,
        int_to_string: DirtyEnum::Clean,
        print: DirtyEnum::Clean,
    };
    manual_dirty(&mut state, &mut dirty);

    assert_eq!(dirty.mut_int, DirtyEnum::Stale);
    assert_eq!(dirty.tick, DirtyEnum::Stale);
    assert_eq!(dirty.int_to_string, DirtyEnum::Stale);
    assert_eq!(dirty.print, DirtyEnum::Stale);
    assert!(state.mut_int.is_none());
    assert!(state.tick_value.is_none());
    assert!(state.int_to_string_value.is_none());
    assert!(state.print_value.is_none());
}

#[test]
fn manual_dirty_second_pass_does_nothing() {
    let mut state = ManualOptionalStore::default();
    let mut dirty = DirtyState::default();
    manual_dirty(&mut state, &mut dirty);
    let before = state.int_to_string_value.clone();
    manual_dirty(&mut state, &mut dirty);
    assert_eq!(state.int_to_string_value, before);
    assert_eq!(dirty.print, DirtyEnum::Clean);
}
