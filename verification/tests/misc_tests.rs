use std::collections::HashMap;

use ive::basic::{
    add_one, int_to_string, is_even, multiply, one_result, returns_error, string_double,
    two_optional, BasicNode,
};
use ive::errors::GraphError;
use ive::describe::{Library, NodeDescriptor, PortDescriptor, Store};
use ive::errors::ExecError;
use ive::node::{DynCall, InputGetter, OutputSetter};
use ive::ports::{NodeInfo, Port};
use ive::value::BoxedAny;

#[test]
fn test_add_one() {
    assert_eq!(add_one(1), 2);
}

#[test]
fn it_works() {
    let obj = NodeInfo {
        kind: "MyObject".to_string(),
        inputs: vec![Port {
            name: "a".to_string(),
            kind: vec!["int".to_string(), "foo".to_string()],
        }],
        outputs: vec![Port {
            name: "value".to_string(),
            kind: vec!["int".to_string()],
        }],
    };
    let inputs = &obj.inputs;
    let outputs = &obj.outputs;
    assert_eq!(inputs.len(), 1);
    assert_eq!(outputs.len(), 1);
    assert_eq!(inputs[0].name, "a");
    assert_eq!(inputs[0].kind, &["int", "foo"]);
    assert_eq!(outputs[0].name, "value");
    assert_eq!(outputs[0].kind, &["int"]);
}

#[test]
fn graph_it_works() {
    assert_eq!(2 + 2, 4);
}

#[test]
fn test_introspection() {
    let one = BasicNode::One;

    let ot = one.output_type();
    assert_eq!(ot, vec!["i32"]);
    let inputs = one.inputs();
    assert_eq!(inputs.len(), 0);

    let add = BasicNode::Add;

    let ot = add.output_type();
    assert_eq!(ot, vec!["i32"]);
    let inputs = add.inputs();
    assert_eq!(inputs.len(), 2);
    assert_eq!(inputs[0].name, "a".to_string());
    assert_eq!(inputs[0].kind, &["i32"]);
    assert_eq!(inputs[1].name, "b".to_string());
    assert_eq!(inputs[1].kind, &["i32"]);
}

#[test]
fn test_execution() {
    let nodes = vec![BasicNode::One];
    let mut exec = ive::exec::DynLinearExec::new_linear_chain(nodes);

    let count = exec.run().unwrap();
    assert_eq!(count, 1);
    let value1 = exec.value(0).unwrap().value_i32().unwrap();
    assert_eq!(*value1, 1);
}

#[test]
fn lib_test_exec() {
    fn run(store: &mut Store) {
        store.initial_string = "hello world".to_string();
        // 3rd through 7th characters
        let slc = &store.initial_string[3..7];

        assert_eq!(slc, "lo w");
    }

    let mut store = Store::default();

    assert_eq!(store.initial_string, "");

    run(&mut store);

    assert_eq!(store.initial_string, "hello world");
}

#[test]
fn test_something() {
    assert_eq!(1, 1);
}

#[test]
fn test_add_dyn() {
    fn add_two_numbers(a: u32, b: u32) -> u32 {
        a + b
    }

    fn add_two_numbers_dyn(a: &BoxedAny, b: &BoxedAny) -> BoxedAny {
        let a = a.value_u32().unwrap();
        let b = b.value_u32().unwrap();
        let r = add_two_numbers(*a, *b);
        BoxedAny::UInt(r)
    }

    let a = BoxedAny::UInt(1u32);
    let b = BoxedAny::UInt(2u32);
    let r = add_two_numbers_dyn(&a, &b);
    let r = r.value_u32().unwrap();
    assert_eq!(r, &3);
}

#[test]
fn test_run_fn_2() {
    fn test_function(a: &u32, b: &u32) -> u32 {
        a + b
    }

    fn run_fn_2(f: fn(&u32, &u32) -> u32, a: &BoxedAny, b: &BoxedAny) -> BoxedAny {
        let a = a.value_u32().unwrap();
        let b = b.value_u32().unwrap();
        BoxedAny::UInt(f(a, b))
    }

    let a = BoxedAny::UInt(1u32);
    let b = BoxedAny::UInt(2u32);
    let r = run_fn_2(test_function, &a, &b);
    assert_eq!(r.value_u32().unwrap(), &3u32);
}

#[test]
fn test_from_any() {
    let a = BoxedAny::UInt(1u32);

    let b: &u32 = a.value_u32().unwrap();
    assert_eq!(b, &1u32);
}

#[test]
fn test_regisetr() {}

#[test]
fn test_test_function_one_param() {
    fn test_function_one_param(a: &u32) -> u32 {
        a * 2
    }

    let res = test_function_one_param(&3);
    assert_eq!(res, 6);
}

type DynamicCall = dyn Fn(&InputGetter<BoxedAny>, &mut OutputSetter<BoxedAny>);

#[test]
fn test_callers() {
    let mut callers: HashMap<String, Box<DynamicCall>> = HashMap::new();
    callers.insert(
        "test".to_string(),
        Box::new(|inputs, outputs| {
            let a = *inputs.fetch(0).unwrap().value_u32().unwrap();
            let b = *inputs.fetch(1).unwrap().value_u32().unwrap();
            outputs.some(0, BoxedAny::UInt(a + b));
        }),
    );
    callers.insert(
        "test_one".to_string(),
        Box::new(|inputs, outputs| {
            let a = *inputs.fetch(0).unwrap().value_u32().unwrap();
            outputs.some(0, BoxedAny::UInt(a * 2));
        }),
    );
    callers.insert(
        "test_special".to_string(),
        Box::new(|_inputs, outputs| {
            outputs.some(0, BoxedAny::UInt(12345));
        }),
    );

    let inputs = vec![Some(BoxedAny::UInt(5u32)), Some(BoxedAny::UInt(2u32))];

    let indices = vec![0, 1];
    let mut setter = OutputSetter::new(1);
    {
        let getter = InputGetter::new(&inputs, &indices);
        let caller = callers.get("test").unwrap();
        caller(&getter, &mut setter);
    }
    let out = setter.into_values();
    assert!(out[0].is_some());
    assert_eq!(out[0].as_ref().unwrap().value_u32().unwrap(), &7u32);

    let indices = vec![0];
    let mut setter = OutputSetter::new(1);
    {
        let getter = InputGetter::new(&inputs, &indices);
        let caller = callers.get("test_one").unwrap();
        caller(&getter, &mut setter);
    }
    let out = setter.into_values();
    assert!(out[0].is_some());
    assert_eq!(out[0].as_ref().unwrap().value_u32().unwrap(), &10u32);

    let indices = vec![0, 1];
    let mut setter = OutputSetter::new(1);
    {
        let getter = InputGetter::new(&inputs, &indices);
        let caller = callers.get("test_special").unwrap();
        caller(&getter, &mut setter);
    }
    let out = setter.into_values();
    assert!(out[0].is_some());
    assert_eq!(out[0].as_ref().unwrap().value_u32().unwrap(), &12345u32);
}

#[test]
fn tests_test_token_stream_to_node() {
    fn simple_function(x: u32) -> u32 {
        x + 1
    }

    fn simple_function_node_info() -> NodeInfo {
        NodeInfo {
            kind: "simple_function".to_string(),
            inputs: vec![Port {
                name: "x".to_string(),
                kind: vec!["u32".to_string()],
            }],
            outputs: vec![Port {
                name: "output".to_string(),
                kind: vec!["u32".to_string()],
            }],
        }
    }

    let res = simple_function(1);
    assert_eq!(res, 2);
    let node = simple_function_node_info();
    assert_eq!(node.kind, "simple_function");
    assert_eq!(node.outputs.len(), 1);
}

#[test]
fn test_copyable() {
    #[derive(Debug, Clone, Copy)]
    struct Dummy {
        x: u32,
    }
    fn take_ownership(x: Dummy) -> u32 {
        x.x
    }

    let d = Dummy { x: 5 };
    let r = take_ownership(d);
    assert_eq!(r, 5);
}

#[test]
fn plain_functions_compute_their_values() {
    assert_eq!(two_optional(), Some(2));
    assert!(matches!(one_result(), Ok(1)));
    assert_eq!(is_even(4), Some(4));
    assert_eq!(is_even(3), None);
    assert_eq!(is_even(-4), Some(-4));
    assert_eq!(is_even(-3), None);
    assert_eq!(returns_error(), Err("Error".to_string()));
    assert_eq!(string_double(&"ab".to_string()), "abab");
}

#[test]
fn decimal_rendering_is_exact() {
    assert_eq!(int_to_string(0), "0");
    assert_eq!(int_to_string(4), "4");
    assert_eq!(int_to_string(10), "10");
    assert_eq!(int_to_string(-123), "-123");
    assert_eq!(int_to_string(2147483647), "2147483647");
    assert_eq!(int_to_string(-2147483648), "-2147483648");
}

#[test]
fn typed_projections_check_the_stored_kind() {
    let cell = BoxedAny::Int(7);
    assert_eq!(cell.value_i32().unwrap(), &7);
    assert_eq!(cell.value_text(), Err(ExecError::TypeMismatch));
    assert_eq!(cell.value_u32(), Err(ExecError::TypeMismatch));
    assert_eq!(cell.value_flag(), Err(ExecError::TypeMismatch));
    assert_eq!(cell.value_custom(), Err(ExecError::TypeMismatch));
}

#[test]
fn fetch_reports_an_empty_slot() {
    let values: Vec<Option<BoxedAny>> = vec![None];
    let indices = vec![0];
    let getter = InputGetter::new(&values, &indices);
    assert_eq!(getter.len(), 1);
    assert!(!getter.is_empty());
    assert!(matches!(getter.fetch(0), Err(ExecError::FetchNone)));
}

#[test]
fn overflowing_nodes_report_overflow() {
    let values = vec![Some(BoxedAny::Int(i32::MAX))];
    let indices = vec![0];
    let getter = InputGetter::new(&values, &indices);
    let mut setter = OutputSetter::new(1);
    let res = BasicNode::AddOne.call(&getter, &mut setter);
    assert_eq!(res, Err(ExecError::Overflow));
}

#[test]
fn library_collects_node_descriptors() {
    let mut lib = Library::new("sample_nodes", "sample_nodes", "Sample nodes");
    lib.add_node(NodeDescriptor::new(
        "add_u32",
        "Add two u32 numbers together",
        vec![
            PortDescriptor::new("left", "Left input", "u32"),
            PortDescriptor::new("right", "Right input", "u32"),
        ],
        vec![PortDescriptor::new("output", "Output", "u32")],
    ));

    assert_eq!(lib.nodes.len(), 1);
    assert_eq!(lib.nodes[0].name, "add_u32");
    assert_eq!(lib.nodes[0].inputs.len(), 2);
    assert_eq!(lib.nodes[0].outputs[0].ty, "u32");
}

#[test]
fn multiplier_combines_two_producers() {
    assert_eq!(multiply(3, 4), 12);

    let mut exec = ive::exec::DynLinearExec::new(vec![
        BasicNode::Two,
        BasicNode::Three,
        BasicNode::Multiply,
    ]);
    exec.inputs(0, vec![]);
    exec.inputs(1, vec![]);
    exec.inputs(2, vec![0, 1]);
    exec.children(0, vec![2]);
    exec.children(1, vec![2]);
    exec.children(2, vec![]);

    let count = exec.run().expect("Failed to run");
    assert_eq!(count, 3);
    assert_eq!(exec.value(2).unwrap().value_i32().unwrap(), &6);
}

#[test]
fn errors_describe_themselves() {
    assert_eq!(ExecError::TypeMismatch.message(), "type mismatch");
    assert_eq!(ExecError::Overflow.message(), "arithmetic overflow");
    assert_eq!(ExecError::FetchNone.message(), "fetch of an empty slot");
    assert_eq!(ExecError::ValueIsNone.message(), "value is none");
    assert_eq!(ExecError::InputOutOfRange.message(), "input out of range");
    assert_eq!(GraphError::CycleDetected.message(), "cycle detected");
    assert_eq!(GraphError::NodeNotFound.message(), "node not found");
    assert_eq!(GraphError::MissingConnection.message(), "missing connection");
    assert_eq!(GraphError::MissingPort.message(), "missing port");
    assert_eq!(GraphError::UnknownKind.message(), "unknown node kind");
    assert_eq!(GraphError::GraphTooLarge.message(), "graph too large");
}
