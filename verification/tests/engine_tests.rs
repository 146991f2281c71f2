use ive::basic::{generate_linear_exec, BasicNode};
use ive::dirty::DirtyEnum;
use ive::errors::ExecError;
use ive::exec::DynLinearExec;

#[test]
fn test_loop() {
    let one_compute = BasicNode::One;
    let addone_compute = BasicNode::AddOne;

    let nodes = vec![one_compute, addone_compute];

    let mut exec = DynLinearExec::new_linear_chain(nodes);

    let computed = exec.run().expect("Failed to run");

    assert_eq!(computed, 2);

    let value1 = exec.value_any(1);
    if let Some(value1) = value1 {
        let value1_box = value1.value_i32().unwrap();
        assert_eq!(*value1_box, 2);
    } else {
        assert!(false);
    }

    exec.set_runnable(0);
    let computed = exec.run().expect("Failed to run");
    assert_eq!(computed, 2);
}

#[test]
fn test_dyn_chain() {
    const CHAIN_LENGTH: usize = 10;
    let mut exec = generate_linear_exec(CHAIN_LENGTH);
    let count = exec.run().expect("Failed to run");
    assert_eq!(count, CHAIN_LENGTH);
    assert_eq!(exec.value(9).unwrap().value_i32().unwrap(), &9);

    exec.set_runnable(0);
    let count = exec.run().expect("failed to run");
    assert_eq!(count, CHAIN_LENGTH);
}

#[test]
fn test_dyn_string_ops() {
    let mut exec = DynLinearExec::new_linear_chain(vec![
        BasicNode::TextLiteral("John Aughey".to_string()),
        BasicNode::TextDouble,
    ]);
    let count = exec.run().expect("failed to run");
    assert_eq!(count, 2);
    assert_eq!(exec.value(0).unwrap().value_text().unwrap(), "John Aughey");
    assert_eq!(
        exec.value(1).unwrap().value_text().unwrap(),
        "John AugheyJohn Aughey"
    );
}

#[test]
fn test_custom_type() {
    let mut exec = DynLinearExec::new_linear_chain(vec![
        BasicNode::CreateCustomType,
        BasicNode::IncrementCustomType,
        BasicNode::IncrementMutable,
        BasicNode::StripCustomType,
    ]);
    let count = exec.run().expect("failed to run");
    assert_eq!(count, 4);
    assert_eq!(exec.value(count - 1).unwrap().value_i32().unwrap(), &2);
}

#[test]
fn test_hand_made_graph() {
    let mut exec = DynLinearExec::new(vec![BasicNode::One, BasicNode::Two, BasicNode::Add]);

    // Wire the inputs manually
    exec.inputs(0, vec![]);
    exec.inputs(1, vec![]);
    exec.inputs(2, vec![0, 1]);

    // Wire the children manually
    exec.children(0, vec![2]);
    exec.children(1, vec![2]);
    exec.children(2, vec![]);

    let count = exec.run().expect("Failed to run");
    assert_eq!(count, 3);
    assert_eq!(exec.value(count - 1).unwrap().value_i32().unwrap(), &3);
}

#[test]
fn test_optional_output() {
    let nodes = vec![BasicNode::One, BasicNode::IsEven, BasicNode::AddOne];

    let mut exec = DynLinearExec::new_linear_chain(nodes);

    let count = exec.run().expect("Failed to run");
    assert_eq!(count, 2); // last one shouldn't run
    assert_eq!(exec.run_state(0), DirtyEnum::Clean);
    assert_eq!(exec.run_state(1), DirtyEnum::Clean);
    assert_eq!(exec.run_state(2), DirtyEnum::Stale);

    let count = exec.run().expect("Failed to run");
    assert_eq!(count, 0);

    // Now make a new one with an even number
    let nodes = vec![BasicNode::Two, BasicNode::IsEven, BasicNode::AddOne];

    let mut exec = DynLinearExec::new_linear_chain(nodes);

    let count = exec.run().expect("Failed to run");
    assert_eq!(count, 3); // All runs
}

#[test]
fn test_result_output() {
    let nodes = vec![BasicNode::ReturnsError];

    let mut exec = DynLinearExec::new_linear_chain(nodes);
    let count = exec.run().expect("Failed to run");
    assert_eq!(count, 1);

    assert!(exec.is_none(0));
    assert!(exec.is_some(1));

    let err = exec.value(1).unwrap().value_text().unwrap();
    assert_eq!(err, "Error");
}

#[test]
fn dyn_call_test_test_loop() {
    let nodes = vec![BasicNode::One, BasicNode::AddOne];

    let mut exec = DynLinearExec::new_linear_chain(nodes);

    let computed = exec.run().expect("Failed to run");

    assert_eq!(computed, 2);

    let value1 = exec.value(1).unwrap();
    assert_eq!(*value1.value_i32().unwrap(), 2);

    exec.set_runnable(0);
    let computed = exec.run().expect("Failed to run");
    assert_eq!(computed, 2);
}

#[test]
fn dyn_call_test_test_dyn_chain() {
    const CHAIN_LENGTH: usize = 10;
    let mut exec = generate_linear_exec(CHAIN_LENGTH);
    let count = exec.run().expect("Failed to run");
    assert_eq!(count, CHAIN_LENGTH);
    assert_eq!(exec.value(9).unwrap().value_i32().unwrap(), &9);

    exec.set_runnable(0);
    let count = exec.run().expect("failed to run");
    assert_eq!(count, CHAIN_LENGTH);
}

#[test]
fn dyn_call_test_test_dyn_string_ops() {
    let mut exec = DynLinearExec::new_linear_chain(vec![
        BasicNode::TextLiteral("John Aughey".to_string()),
        BasicNode::TextDouble,
    ]);
    let count = exec.run().expect("failed to run");
    assert_eq!(count, 2);
    assert_eq!(exec.value(0).unwrap().value_text().unwrap(), "John Aughey");
    assert_eq!(
        exec.value(1).unwrap().value_text().unwrap(),
        "John AugheyJohn Aughey"
    );
}

#[test]
fn dyn_call_test_test_custom_type() {
    let mut exec = DynLinearExec::new_linear_chain(vec![
        BasicNode::CreateCustomType,
        BasicNode::IncrementCustomType,
        BasicNode::IncrementMutable,
        BasicNode::StripCustomType,
    ]);
    let count = exec.run().expect("failed to run");
    assert_eq!(count, 4);
    assert_eq!(exec.value(count - 1).unwrap().value_i32().unwrap(), &2);
}

#[test]
fn dyn_call_test_test_optional_output() {
    let nodes = vec![BasicNode::One, BasicNode::IsEven, BasicNode::AddOne];

    let mut exec = DynLinearExec::new_linear_chain(nodes);

    let count = exec.run().expect("Failed to run");
    assert_eq!(count, 2);
    assert_eq!(exec.run_state(0), DirtyEnum::Clean);
    assert_eq!(exec.run_state(1), DirtyEnum::Clean);
    assert_eq!(exec.run_state(2), DirtyEnum::Stale);

    let count = exec.run().expect("Failed to run");
    assert_eq!(count, 0);

    let nodes = vec![BasicNode::Two, BasicNode::IsEven, BasicNode::AddOne];

    let mut exec = DynLinearExec::new_linear_chain(nodes);

    let count = exec.run().expect("Failed to run");
    assert_eq!(count, 3);
}

#[test]
fn dyn_call_test_test_result_output() {
    let nodes = vec![BasicNode::ReturnsError];

    let mut exec = DynLinearExec::new_linear_chain(nodes);
    let count = exec.run().expect("Failed to run");
    assert_eq!(count, 1);

    assert!(exec.is_none(0));
    assert!(exec.is_some(1));

    let err = exec.value(1).unwrap().value_text().unwrap();
    assert_eq!(err, "Error");
}

#[test]
fn test_chain() {
    const CHAIN_LENGTH: usize = 1000;
    let mut exec = generate_linear_exec(CHAIN_LENGTH);

    let count = exec.run().expect("Failed to run");

    assert_eq!(exec.value(3).unwrap().value_i32().unwrap(), &3);
    assert_eq!(count, CHAIN_LENGTH);
}

#[test]
fn test_straightchain() {
    const CHAIN_LENGTH: usize = 1000;
    let mut nodes = vec![BasicNode::Zero];
    for _ in 1..CHAIN_LENGTH {
        nodes.push(BasicNode::AddOne);
    }
    let mut exec = DynLinearExec::new_linear_chain(nodes);

    let count = exec.run().expect("Failed to run");

    assert_eq!(exec.value(3).unwrap().value_i32().unwrap(), &3);
    assert_eq!(count, CHAIN_LENGTH);
}

#[test]
fn combiner_runs_once_and_only_when_remarked() {
    // two independent producers feed a two-input combiner
    let mut exec = DynLinearExec::new(vec![BasicNode::One, BasicNode::Two, BasicNode::Add]);
    exec.inputs(0, vec![]);
    exec.inputs(1, vec![]);
    exec.inputs(2, vec![0, 1]);
    exec.children(0, vec![2]);
    exec.children(1, vec![2]);
    exec.children(2, vec![]);

    let count = exec.run().expect("Failed to run");
    assert_eq!(count, 3);
    assert_eq!(exec.value(2).unwrap().value_i32().unwrap(), &3);

    // a second tick with nothing re-marked does no work
    let count = exec.run().expect("Failed to run");
    assert_eq!(count, 0);

    // re-marking only the combiner reruns only the combiner
    exec.set_runnable(2);
    let count = exec.run().expect("Failed to run");
    assert_eq!(count, 1);
    assert_eq!(exec.run_state(0), DirtyEnum::Clean);
    assert_eq!(exec.run_state(1), DirtyEnum::Clean);
    assert_eq!(exec.run_state(2), DirtyEnum::Clean);
}

#[test]
fn remarking_one_producer_recomputes_its_branch_only() {
    let mut exec = DynLinearExec::new(vec![BasicNode::One, BasicNode::Two, BasicNode::Add]);
    exec.inputs(0, vec![]);
    exec.inputs(1, vec![]);
    exec.inputs(2, vec![0, 1]);
    exec.children(0, vec![2]);
    exec.children(1, vec![2]);
    exec.children(2, vec![]);

    let count = exec.run().expect("Failed to run");
    assert_eq!(count, 3);

    exec.set_runnable(1);
    let count = exec.run().expect("Failed to run");
    assert_eq!(count, 2);
    assert_eq!(exec.run_state(0), DirtyEnum::Clean);
    assert_eq!(exec.run_state(1), DirtyEnum::Clean);
    assert_eq!(exec.run_state(2), DirtyEnum::Clean);
    assert_eq!(exec.value(2).unwrap().value_i32().unwrap(), &3);
}

#[test]
fn mismatched_types_fail_the_tick() {
    let mut exec = DynLinearExec::new_linear_chain(vec![
        BasicNode::TextLiteral("nine".to_string()),
        BasicNode::AddOne,
    ]);
    let res = exec.run();
    assert_eq!(res, Err(ExecError::TypeMismatch));
}

#[test]
fn absence_cascades_through_a_long_tail() {
    // an odd number stops at the evenness filter; everything after goes
    // stale within the same tick
    let mut exec = DynLinearExec::new(vec![
        BasicNode::Three,
        BasicNode::IsEven,
        BasicNode::AddOne,
        BasicNode::AddOne,
    ]);
    // store slots: three -> 0, is_even -> 1 and 2, add_one -> 3, add_one -> 4
    exec.inputs(0, vec![]);
    exec.inputs(1, vec![0]);
    exec.inputs(2, vec![1]);
    exec.inputs(3, vec![3]);
    exec.children(0, vec![1]);
    exec.children(1, vec![2]);
    exec.children(2, vec![3]);
    exec.children(3, vec![]);

    let count = exec.run().expect("Failed to run");
    assert_eq!(count, 2);
    assert_eq!(exec.run_state(2), DirtyEnum::Stale);
    assert_eq!(exec.run_state(3), DirtyEnum::Stale);
    assert!(exec.is_none(1));
    assert!(exec.is_none(3));
    assert!(exec.is_none(4));
    assert_eq!(exec.value(3), Err(ExecError::ValueIsNone));
    assert_eq!(exec.value(99), Err(ExecError::InputOutOfRange));
}
