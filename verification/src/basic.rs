use crate::dirty::DirtyEnum;
use crate::errors::ExecError;
use crate::exec::{
    acted, base_offset, calls_arity_sum, computed, count_computed, gathered, inputs_present,
    node_outputs, run_rel, run_rel_prefix, wired, DynLinearExec, ExecNode,
};
use crate::node::{DynCall, InputGetter, OutputSetter};
use crate::ports::DynPort;
use crate::value::{BoxedAny, CustomType};
use vstd::prelude::*;
use vstd::string::StringExecFns;

verus! {

/// The number zero.
pub fn zero() -> (r: i32)
    ensures r == 0,
{
    0
}

/// The number one.
pub fn one() -> (r: i32)
    ensures r == 1,
{
    1
}

/// The number two.
pub fn two() -> (r: i32)
    ensures r == 2,
{
    2
}

/// The number three.
pub fn three() -> (r: i32)
    ensures r == 3,
{
    3
}

/// The number two, wrapped to show an optional-producing node.
pub fn two_optional() -> (r: Option<i32>)
    ensures r == Some(2i32),
{
    Some(2)
}

/// A unit error carrying no information.
#[derive(Clone, Copy, Debug)]
pub struct NullError;

/// The number one, wrapped to show a fallible node.
pub fn one_result() -> (r: Result<i32, NullError>)
    ensures r matches Ok(v) && v == 1,
{
    Ok(1)
}

/// Sum of two numbers.
pub fn add(a: i32, b: i32) -> (r: i32)
    requires
        i32::MIN <= a + b <= i32::MAX,
    ensures
        r == a + b,
{
    a + b
}

/// The next number up.
pub fn add_one(a: i32) -> (r: i32)
    requires
        a < i32::MAX,
    ensures
        r == a + 1,
{
    a + 1
}

/// Product of two numbers.
pub fn multiply(a: i32, b: i32) -> (r: i32)
    requires
        i32::MIN <= a * b <= i32::MAX,
    ensures
        r == a * b,
{
    a * b
}

/// The number itself when it is even, nothing otherwise.
pub fn is_even(v: i32) -> (r: Option<i32>)
    ensures
        r == (if v as int % 2 == 0 { Some(v) } else { None::<i32> }),
{
    if v % 2 == 0 {
        Some(v)
    } else {
        None
    }
}

/// A computation that always fails, to show error decomposition.
pub fn returns_error() -> (r: Result<i32, String>)
    ensures
        r matches Err(e) && e@ == "Error"@,
{
    Err("Error".to_owned())
}

/// A fresh record with both counters at one.
pub fn create_custom_type() -> (r: CustomType)
    ensures
        r == (CustomType { value: 1i32, mutable_value: 1i32 }),
{
    CustomType { value: 1, mutable_value: 1 }
}

/// The record with its primary counter advanced.
pub fn increment_custom_type(custom_type: &CustomType) -> (r: CustomType)
    requires
        custom_type.value < i32::MAX,
    ensures
        r == (CustomType {
            value: (custom_type.value + 1) as i32,
            mutable_value: custom_type.mutable_value,
        }),
{
    CustomType { value: custom_type.value + 1, mutable_value: custom_type.mutable_value }
}

/// The record with its secondary counter advanced.
pub fn increment_mutable(custom_type: &CustomType) -> (r: CustomType)
    requires
        custom_type.mutable_value < i32::MAX,
    ensures
        r == (CustomType {
            value: custom_type.value,
            mutable_value: (custom_type.mutable_value + 1) as i32,
        }),
{
    CustomType { value: custom_type.value, mutable_value: custom_type.mutable_value + 1 }
}

/// The record's primary counter.
pub fn strip_custom_type(custom_type: &CustomType) -> (r: i32)
    ensures
        r == custom_type.value,
{
    custom_type.value
}

/// A string followed by itself.
pub fn string_double(input: &String) -> (r: String)
    ensures
        r@ == input@ + input@,
{
    let front = input.as_str().to_owned();
    front.concat(input.as_str())
}

/// The character for one decimal digit.
pub open spec fn digit_char(d: int) -> char {
    if d == 0 { '0' }
    else if d == 1 { '1' }
    else if d == 2 { '2' }
    else if d == 3 { '3' }
    else if d == 4 { '4' }
    else if d == 5 { '5' }
    else if d == 6 { '6' }
    else if d == 7 { '7' }
    else if d == 8 { '8' }
    else { '9' }
}

/// The decimal digits of a nonnegative number, most significant first.
pub open spec fn dec_digits(n: int) -> Seq<char>
    recommends
        n >= 0,
    decreases n,
{
    if n < 10 {
        seq![digit_char(n)]
    } else {
        dec_digits(n / 10).push(digit_char(n % 10))
    }
}

/// The decimal rendering of a number, with a leading minus when negative.
pub open spec fn dec_str(v: int) -> Seq<char> {
    if v < 0 {
        seq!['-'] + dec_digits(-v)
    } else {
        dec_digits(v)
    }
}

fn digit_str(d: u32) -> (r: &'static str)
    requires
        d < 10,
    ensures
        r@ == seq![digit_char(d as int)],
{
    let s = match d {
        0 => "0",
        1 => "1",
        2 => "2",
        3 => "3",
        4 => "4",
        5 => "5",
        6 => "6",
        7 => "7",
        8 => "8",
        _ => "9",
    };
    proof {
        reveal_strlit("0");
        reveal_strlit("1");
        reveal_strlit("2");
        reveal_strlit("3");
        reveal_strlit("4");
        reveal_strlit("5");
        reveal_strlit("6");
        reveal_strlit("7");
        reveal_strlit("8");
        reveal_strlit("9");
    }
    s
}

fn u32_to_dec(n: u32) -> (r: String)
    ensures
        r@ == dec_digits(n as int),
    decreases n,
{
    if n < 10 {
        digit_str(n).to_owned()
    } else {
        let mut s = u32_to_dec(n / 10);
        s.append(digit_str(n % 10));
        proof {
            assert(s@ =~= dec_digits(n as int));
        }
        s
    }
}

/// The decimal rendering of a number as a `String`.
pub fn int_to_string(value: i32) -> (r: String)
    ensures
        r@ == dec_str(value as int),
{
    if value >= 0 {
        u32_to_dec(value as u32)
    } else {
        let m: u32 = (-(value as i64)) as u32;
        proof {
            assert(m as int == -(value as int));
        }
        let mut s = String::new();
        s.append("-");
        let digits = u32_to_dec(m);
        let r = s.concat(digits.as_str());
        proof {
            reveal_strlit("-");
            assert(r@ =~= dec_str(value as int));
        }
        r
    }
}

/// Wrap a node contract on the heap, as an executor built from boxed parts
/// expects.
pub fn box_dyn_call<C: DynCall>(t: C) -> (r: Box<C>)
    ensures
        *r == t,
{
    Box::new(t)
}


fn port(name: &str, tokens: Vec<String>) -> (r: DynPort) {
    DynPort { name: name.to_owned(), kind: tokens }
}

fn tokens1(a: &str) -> (r: Vec<String>) {
    let mut v: Vec<String> = Vec::new();
    v.push(a.to_owned());
    v
}

fn tokens2(a: &str, b: &str) -> (r: Vec<String>) {
    let mut v: Vec<String> = Vec::new();
    v.push(a.to_owned());
    v.push(b.to_owned());
    v
}

fn tokens4(a: &str, b: &str, c: &str, d: &str) -> (r: Vec<String>) {
    let mut v: Vec<String> = Vec::new();
    v.push(a.to_owned());
    v.push(b.to_owned());
    v.push(c.to_owned());
    v.push(d.to_owned());
    v
}

/// The standard node kinds, each wrapping one of the plain compute
/// functions above over the `BoxedAny` value universe.  An embedder that
/// needs other kinds implements `DynCall` for a type of its own instead.
#[derive(Clone, Debug, PartialEq, Eq)]
pub enum BasicNode {
    Zero,
    One,
    Two,
    Three,
    AddOne,
    Add,
    Multiply,
    IsEven,
    ReturnsError,
    IntToString,
    CreateCustomType,
    IncrementCustomType,
    IncrementMutable,
    StripCustomType,
    TextLiteral(String),
    TextDouble,
}

impl DynCall for BasicNode {
    type Value = BoxedAny;

    open spec fn spec_input_len(&self) -> nat {
        match self {
            BasicNode::Zero => 0,
            BasicNode::One => 0,
            BasicNode::Two => 0,
            BasicNode::Three => 0,
            BasicNode::AddOne => 1,
            BasicNode::Add => 2,
            BasicNode::Multiply => 2,
            BasicNode::IsEven => 1,
            BasicNode::ReturnsError => 0,
            BasicNode::IntToString => 1,
            BasicNode::CreateCustomType => 0,
            BasicNode::IncrementCustomType => 1,
            BasicNode::IncrementMutable => 1,
            BasicNode::StripCustomType => 1,
            BasicNode::TextLiteral(_) => 0,
            BasicNode::TextDouble => 1,
        }
    }

    open spec fn spec_output_len(&self) -> nat {
        match self {
            BasicNode::IsEven => 2,
            BasicNode::ReturnsError => 2,
            _ => 1,
        }
    }

    open spec fn call_ok(&self, inputs: Seq<BoxedAny>) -> bool {
        match self {
            BasicNode::Zero => true,
            BasicNode::One => true,
            BasicNode::Two => true,
            BasicNode::Three => true,
            BasicNode::AddOne => inputs[0] matches BoxedAny::Int(v) && v < i32::MAX,
            BasicNode::Add => inputs[0] matches BoxedAny::Int(a) && inputs[1] matches
                BoxedAny::Int(b) && i32::MIN <= a + b <= i32::MAX,
            BasicNode::Multiply => inputs[0] matches BoxedAny::Int(a) && inputs[1] matches
                BoxedAny::Int(b) && i32::MIN <= a * b <= i32::MAX,
            BasicNode::IsEven => inputs[0] matches BoxedAny::Int(_),
            BasicNode::ReturnsError => true,
            BasicNode::IntToString => inputs[0] matches BoxedAny::Int(_),
            BasicNode::CreateCustomType => true,
            BasicNode::IncrementCustomType => inputs[0] matches BoxedAny::Custom(c) && c.value
                < i32::MAX,
            BasicNode::IncrementMutable => inputs[0] matches BoxedAny::Custom(c)
                && c.mutable_value < i32::MAX,
            BasicNode::StripCustomType => inputs[0] matches BoxedAny::Custom(_),
            BasicNode::TextLiteral(_) => true,
            BasicNode::TextDouble => inputs[0] matches BoxedAny::Text(_),
        }
    }

    open spec fn call_result(&self, inputs: Seq<BoxedAny>, outputs: Seq<Option<BoxedAny>>) -> bool {
        match self {
            BasicNode::Zero => outputs == seq![Some(BoxedAny::Int(0i32))],
            BasicNode::One => outputs == seq![Some(BoxedAny::Int(1i32))],
            BasicNode::Two => outputs == seq![Some(BoxedAny::Int(2i32))],
            BasicNode::Three => outputs == seq![Some(BoxedAny::Int(3i32))],
            BasicNode::AddOne => inputs[0] matches BoxedAny::Int(v) ==> outputs == seq![
                Some(BoxedAny::Int(((v + 1) as i32))),
            ],
            BasicNode::Add => inputs[0] matches BoxedAny::Int(a) ==> (inputs[1] matches
                BoxedAny::Int(b) ==> outputs == seq![Some(BoxedAny::Int(((a + b) as i32)))]),
            BasicNode::Multiply => inputs[0] matches BoxedAny::Int(a) ==> (inputs[1] matches
                BoxedAny::Int(b) ==> outputs == seq![Some(BoxedAny::Int(((a * b) as i32)))]),
            BasicNode::IsEven => inputs[0] matches BoxedAny::Int(v) ==> outputs == (
            if v as int % 2 == 0 {
                seq![Some(BoxedAny::Int(v)), None]
            } else {
                seq![None, Some(BoxedAny::Flag(true))]
            }),
            BasicNode::ReturnsError => outputs.len() == 2 && outputs[0] is None && (outputs[1]
                matches Some(BoxedAny::Text(t)) && t@ == "Error"@),
            BasicNode::IntToString => inputs[0] matches BoxedAny::Int(v) ==> (outputs.len() == 1
                && (outputs[0] matches Some(BoxedAny::Text(t)) && t@ == dec_str(v as int))),
            BasicNode::CreateCustomType => outputs == seq![
                Some(BoxedAny::Custom(CustomType { value: 1i32, mutable_value: 1i32 })),
            ],
            BasicNode::IncrementCustomType => inputs[0] matches BoxedAny::Custom(c) ==> outputs
                == seq![
                Some(
                    BoxedAny::Custom(
                        CustomType {
                            value: ((c.value + 1) as i32),
                            mutable_value: c.mutable_value,
                        },
                    ),
                ),
            ],
            BasicNode::IncrementMutable => inputs[0] matches BoxedAny::Custom(c) ==> outputs
                == seq![
                Some(
                    BoxedAny::Custom(
                        CustomType {
                            value: c.value,
                            mutable_value: ((c.mutable_value + 1) as i32),
                        },
                    ),
                ),
            ],
            BasicNode::StripCustomType => inputs[0] matches BoxedAny::Custom(c) ==> outputs
                == seq![Some(BoxedAny::Int(c.value))],
            BasicNode::TextLiteral(s) => outputs.len() == 1 && (outputs[0] matches Some(
                BoxedAny::Text(t),
            ) && t@ == s@),
            BasicNode::TextDouble => inputs[0] matches BoxedAny::Text(x) ==> (outputs.len() == 1
                && (outputs[0] matches Some(BoxedAny::Text(t)) && t@ == x@ + x@)),
        }
    }

    fn input_len(&self) -> (r: usize) {
        match self {
            BasicNode::Zero => 0,
            BasicNode::One => 0,
            BasicNode::Two => 0,
            BasicNode::Three => 0,
            BasicNode::AddOne => 1,
            BasicNode::Add => 2,
            BasicNode::Multiply => 2,
            BasicNode::IsEven => 1,
            BasicNode::ReturnsError => 0,
            BasicNode::IntToString => 1,
            BasicNode::CreateCustomType => 0,
            BasicNode::IncrementCustomType => 1,
            BasicNode::IncrementMutable => 1,
            BasicNode::StripCustomType => 1,
            BasicNode::TextLiteral(_) => 0,
            BasicNode::TextDouble => 1,
        }
    }

    fn output_len(&self) -> (r: usize) {
        match self {
            BasicNode::IsEven => 2,
            BasicNode::ReturnsError => 2,
            _ => 1,
        }
    }

    fn kind(&self) -> String {
        let s = match self {
            BasicNode::Zero => "zero",
            BasicNode::One => "one",
            BasicNode::Two => "two",
            BasicNode::Three => "three",
            BasicNode::AddOne => "add_one",
            BasicNode::Add => "add",
            BasicNode::Multiply => "multiply",
            BasicNode::IsEven => "is_even",
            BasicNode::ReturnsError => "returns_error",
            BasicNode::IntToString => "int_to_string",
            BasicNode::CreateCustomType => "create_custom_type",
            BasicNode::IncrementCustomType => "increment_custom_type",
            BasicNode::IncrementMutable => "increment_mutable",
            BasicNode::StripCustomType => "strip_custom_type",
            BasicNode::TextLiteral(_) => "text_literal",
            BasicNode::TextDouble => "text_double",
        };
        s.to_owned()
    }

    fn inputs(&self) -> (r: Vec<DynPort>) {
        let mut v: Vec<DynPort> = Vec::new();
        match self {
            BasicNode::Zero => {}
            BasicNode::One => {}
            BasicNode::Two => {}
            BasicNode::Three => {}
            BasicNode::AddOne => {
                v.push(port("a", tokens1("i32")));
            }
            BasicNode::Add => {
                v.push(port("a", tokens1("i32")));
                v.push(port("b", tokens1("i32")));
            }
            BasicNode::Multiply => {
                v.push(port("a", tokens1("i32")));
                v.push(port("b", tokens1("i32")));
            }
            BasicNode::IsEven => {
                v.push(port("v", tokens1("i32")));
            }
            BasicNode::ReturnsError => {}
            BasicNode::IntToString => {
                v.push(port("value", tokens1("i32")));
            }
            BasicNode::CreateCustomType => {}
            BasicNode::IncrementCustomType => {
                v.push(port("custom_type", tokens2("&", "CustomType")));
            }
            BasicNode::IncrementMutable => {
                v.push(port("custom_type", tokens2("&", "CustomType")));
            }
            BasicNode::StripCustomType => {
                v.push(port("custom_type", tokens2("&", "CustomType")));
            }
            BasicNode::TextLiteral(_) => {}
            BasicNode::TextDouble => {
                v.push(port("input", tokens2("&", "String")));
            }
        }
        v
    }

    fn output_type(&self) -> Vec<String> {
        match self {
            BasicNode::Zero => tokens1("i32"),
            BasicNode::One => tokens1("i32"),
            BasicNode::Two => tokens1("i32"),
            BasicNode::Three => tokens1("i32"),
            BasicNode::AddOne => tokens1("i32"),
            BasicNode::Add => tokens1("i32"),
            BasicNode::Multiply => tokens1("i32"),
            BasicNode::IsEven => tokens4("Option", "<", "i32", ">"),
            BasicNode::ReturnsError => {
                let mut v = tokens4("Result", "<", "i32", ",");
                v.push("String".to_owned());
                v.push(">".to_owned());
                v
            }
            BasicNode::IntToString => tokens1("String"),
            BasicNode::CreateCustomType => tokens1("CustomType"),
            BasicNode::IncrementCustomType => tokens1("CustomType"),
            BasicNode::IncrementMutable => tokens1("CustomType"),
            BasicNode::StripCustomType => tokens1("i32"),
            BasicNode::TextLiteral(_) => tokens1("String"),
            BasicNode::TextDouble => tokens1("String"),
        }
    }

    fn call(
        &self,
        inputs: &InputGetter<'_, BoxedAny>,
        outputs: &mut OutputSetter<BoxedAny>,
    ) -> (r: Result<(), ExecError>) {
        match self {
            BasicNode::Zero => {
                outputs.some(0, BoxedAny::Int(zero()));
                proof {
                    assert(outputs@ =~= seq![Some(BoxedAny::Int(0i32))]);
                }
                Ok(())
            }
            BasicNode::One => {
                outputs.some(0, BoxedAny::Int(one()));
                proof {
                    assert(outputs@ =~= seq![Some(BoxedAny::Int(1i32))]);
                }
                Ok(())
            }
            BasicNode::Two => {
                outputs.some(0, BoxedAny::Int(two()));
                proof {
                    assert(outputs@ =~= seq![Some(BoxedAny::Int(2i32))]);
                }
                Ok(())
            }
            BasicNode::Three => {
                outputs.some(0, BoxedAny::Int(three()));
                proof {
                    assert(outputs@ =~= seq![Some(BoxedAny::Int(3i32))]);
                }
                Ok(())
            }
            BasicNode::AddOne => {
                let a = *inputs.fetch(0)?.value_i32()?;
                if a == i32::MAX {
                    return Err(ExecError::Overflow);
                }
                outputs.some(0, BoxedAny::Int(add_one(a)));
                proof {
                    assert(outputs@ =~= seq![Some(BoxedAny::Int(((a + 1) as i32)))]);
                }
                Ok(())
            }
            BasicNode::Add => {
                let a = *inputs.fetch(0)?.value_i32()?;
                let b = *inputs.fetch(1)?.value_i32()?;
                match a.checked_add(b) {
                    Some(_) => {
                        outputs.some(0, BoxedAny::Int(crate::basic::add(a, b)));
                        proof {
                            assert(outputs@ =~= seq![Some(BoxedAny::Int(((a + b) as i32)))]);
                        }
                        Ok(())
                    }
                    None => Err(ExecError::Overflow),
                }
            }
            BasicNode::Multiply => {
                let a = *inputs.fetch(0)?.value_i32()?;
                let b = *inputs.fetch(1)?.value_i32()?;
                match a.checked_mul(b) {
                    Some(_) => {
                        outputs.some(0, BoxedAny::Int(multiply(a, b)));
                        proof {
                            assert(outputs@ =~= seq![Some(BoxedAny::Int(((a * b) as i32)))]);
                        }
                        Ok(())
                    }
                    None => Err(ExecError::Overflow),
                }
            }
            BasicNode::IsEven => {
                let v = *inputs.fetch(0)?.value_i32()?;
                match is_even(v) {
                    Some(x) => {
                        outputs.some(0, BoxedAny::Int(x));
                        outputs.none(1);
                        proof {
                            assert(outputs@ =~= seq![Some(BoxedAny::Int(v)), None]);
                        }
                    }
                    None => {
                        outputs.none(0);
                        outputs.some(1, BoxedAny::Flag(true));
                        proof {
                            assert(outputs@ =~= seq![None, Some(BoxedAny::Flag(true))]);
                        }
                    }
                }
                Ok(())
            }
            BasicNode::ReturnsError => {
                match returns_error() {
                    Ok(v) => {
                        outputs.some(0, BoxedAny::Int(v));
                        outputs.none(1);
                    }
                    Err(e) => {
                        outputs.none(0);
                        outputs.some(1, BoxedAny::Text(e));
                    }
                }
                Ok(())
            }
            BasicNode::IntToString => {
                let v = *inputs.fetch(0)?.value_i32()?;
                outputs.some(0, BoxedAny::Text(int_to_string(v)));
                Ok(())
            }
            BasicNode::CreateCustomType => {
                outputs.some(0, BoxedAny::Custom(create_custom_type()));
                proof {
                    assert(outputs@ =~= seq![
                        Some(BoxedAny::Custom(CustomType { value: 1i32, mutable_value: 1i32 })),
                    ]);
                }
                Ok(())
            }
            BasicNode::IncrementCustomType => {
                let c = *inputs.fetch(0)?.value_custom()?;
                if c.value == i32::MAX {
                    return Err(ExecError::Overflow);
                }
                outputs.some(0, BoxedAny::Custom(increment_custom_type(&c)));
                proof {
                    assert(outputs@ =~= seq![
                        Some(
                            BoxedAny::Custom(
                                CustomType {
                                    value: ((c.value + 1) as i32),
                                    mutable_value: c.mutable_value,
                                },
                            ),
                        ),
                    ]);
                }
                Ok(())
            }
            BasicNode::IncrementMutable => {
                let c = *inputs.fetch(0)?.value_custom()?;
                if c.mutable_value == i32::MAX {
                    return Err(ExecError::Overflow);
                }
                outputs.some(0, BoxedAny::Custom(increment_mutable(&c)));
                proof {
                    assert(outputs@ =~= seq![
                        Some(
                            BoxedAny::Custom(
                                CustomType {
                                    value: c.value,
                                    mutable_value: ((c.mutable_value + 1) as i32),
                                },
                            ),
                        ),
                    ]);
                }
                Ok(())
            }
            BasicNode::StripCustomType => {
                let c = *inputs.fetch(0)?.value_custom()?;
                outputs.some(0, BoxedAny::Int(strip_custom_type(&c)));
                proof {
                    assert(outputs@ =~= seq![Some(BoxedAny::Int(c.value))]);
                }
                Ok(())
            }
            BasicNode::TextLiteral(s) => {
                outputs.some(0, BoxedAny::Text(s.clone()));
                Ok(())
            }
            BasicNode::TextDouble => {
                let t = inputs.fetch(0)?.value_text()?;
                let doubled = string_double(t);
                outputs.some(0, BoxedAny::Text(doubled));
                Ok(())
            }
        }
    }
}

/// A chain of `count` nodes: a zero producer followed by `count - 1`
/// increment nodes, each reading its predecessor's slot.  After one tick the
/// slot at position `p` holds the number `p`.
pub fn generate_linear_exec(count: usize) -> (r: DynLinearExec<BasicNode>)
    requires
        count >= 1,
    ensures
        r.wf(),
        r.nodes@.len() == count,
        r.nodes@[0].call == BasicNode::Zero,
        r.nodes@[0].input_indices@.len() == 0,
        forall|i: int| 1 <= i < count ==> (#[trigger] r.nodes@[i]).call == BasicNode::AddOne,
        forall|i: int|
            1 <= i < count ==> (#[trigger] r.nodes@[i]).input_indices@ =~= seq![(i - 1) as usize],
        forall|i: int|
            0 <= i < count - 1 ==> (#[trigger] r.nodes@[i]).children@ =~= seq![(i + 1) as usize],
        forall|i: int| 0 <= i < count ==> r.dirty.state@[i] == crate::dirty::DirtyEnum::NeedCompute,
        r.store.values@.len() == count,
        forall|t: int| 0 <= t < count ==> r.store.values@[t] is None,
{
    let mut calls: Vec<BasicNode> = Vec::new();
    calls.push(BasicNode::Zero);
    let mut i: usize = 1;
    while i < count
        invariant
            1 <= i <= count,
            calls@.len() == i,
            calls@[0] == BasicNode::Zero,
            forall|j: int| 1 <= j < i ==> #[trigger] calls@[j] == BasicNode::AddOne,
        decreases count - i,
    {
        calls.push(BasicNode::AddOne);
        i += 1;
    }
    proof {
        lemma_basic_chain_arity(calls@, calls@.len() as int);
    }
    let exec = DynLinearExec::new_linear_chain(calls);
    proof {
        lemma_basic_chain_arity(exec.nodes@.map_values(|e: crate::exec::ExecNode<BasicNode>| e.call), 0);
        crate::exec::lemma_arity_sum_eq(
            Seq::new(exec.nodes@.len(), |j: int| exec.nodes@[j].call),
            exec.nodes@,
            exec.nodes@.len() as int,
        );
        lemma_basic_chain_arity(
            Seq::new(exec.nodes@.len(), |j: int| exec.nodes@[j].call),
            exec.nodes@.len() as int,
        );
    }
    exec
}

proof fn lemma_basic_chain_arity(calls: Seq<BasicNode>, i: int)
    requires
        forall|j: int|
            0 <= j < calls.len() ==> (#[trigger] calls[j]) == BasicNode::Zero || calls[j]
                == BasicNode::AddOne,
        i <= calls.len(),
    ensures
        calls_arity_sum(calls, i) == if i >= 0 { i } else { 0 },
    decreases i,
{
    if i > 0 {
        lemma_basic_chain_arity(calls, i - 1);
    }
}


/// The structure `generate_linear_exec` builds: a zero producer followed by
/// increment nodes, each wired to its predecessor's single output slot.
pub open spec fn chain_shape(nodes: Seq<ExecNode<BasicNode>>) -> bool {
    &&& nodes.len() >= 1
    &&& nodes[0].call == BasicNode::Zero
    &&& nodes[0].input_indices@.len() == 0
    &&& (forall|i: int| 1 <= i < nodes.len() ==> (#[trigger] nodes[i]).call == BasicNode::AddOne)
    &&& (forall|i: int|
        1 <= i < nodes.len() ==> (#[trigger] nodes[i]).input_indices@ == seq![(i - 1) as usize])
}

pub proof fn lemma_chain_base(nodes: Seq<ExecNode<BasicNode>>, i: int)
    requires
        chain_shape(nodes),
        0 <= i <= nodes.len(),
    ensures
        base_offset(nodes, i) == i,
    decreases i,
{
    if i > 0 {
        lemma_chain_base(nodes, i - 1);
    }
}

proof fn lemma_chain_slot(
    nodes: Seq<ExecNode<BasicNode>>,
    d0: Seq<DirtyEnum>,
    s0: Seq<Option<BoxedAny>>,
    d1: Seq<DirtyEnum>,
    s1: Seq<Option<BoxedAny>>,
    upto: int,
    i: int,
)
    requires
        wired(nodes),
        chain_shape(nodes),
        nodes.len() <= 0x8000_0000,
        forall|j: int| 0 <= j < nodes.len() ==> #[trigger] d0[j] == DirtyEnum::NeedCompute,
        run_rel_prefix(nodes, d0, s0, d1, s1, upto),
        s1.len() == base_offset(nodes, nodes.len() as int),
        0 <= i < upto,
        upto <= nodes.len(),
    ensures
        s1[i] == Some(BoxedAny::Int(i as i32)),
        inputs_present(nodes, s1, i),
        d1[i] == DirtyEnum::Clean,
    decreases i,
{
    assert(acted(nodes, d0, i));
    lemma_chain_base(nodes, i);
    lemma_chain_base(nodes, i + 1);
    lemma_chain_base(nodes, nodes.len() as int);
    if i == 0 {
        assert(inputs_present(nodes, s1, 0));
        assert(nodes[0].call.call_result(gathered(nodes, s1, 0), node_outputs(nodes, s1, 0)));
        assert(node_outputs(nodes, s1, 0) == seq![Some(BoxedAny::Int(0i32))]);
        assert(s1[0] == node_outputs(nodes, s1, 0)[0]);
    } else {
        lemma_chain_slot(nodes, d0, s0, d1, s1, upto, i - 1);
        assert forall|k: int| 0 <= k < nodes[i].input_indices@.len()
            implies #[trigger] s1[nodes[i].input_indices@[k] as int] is Some by {
            assert(nodes[i].input_indices@[k] == (i - 1) as usize);
        }
        assert(inputs_present(nodes, s1, i));
        assert(nodes[i].call.call_ok(gathered(nodes, s1, i)));
        assert(nodes[i].call.call_result(gathered(nodes, s1, i), node_outputs(nodes, s1, i)));
        assert(gathered(nodes, s1, i) =~= seq![BoxedAny::Int((i - 1) as i32)]);
        assert(node_outputs(nodes, s1, i) == seq![Some(BoxedAny::Int(i as i32))]);
        assert(s1[i] == node_outputs(nodes, s1, i)[0]);
    }
}

/// On a fresh counting chain no visited node can reject its inputs: by the
/// time node `i` is visited, its predecessor's slot already holds `i - 1`,
/// which its success predicate accepts.  Together with the run loop's
/// failure characterization this rules the failing tick out, so a tick
/// over a fresh chain always returns Ok.
pub proof fn lemma_chain_call_ok(
    nodes: Seq<ExecNode<BasicNode>>,
    d0: Seq<DirtyEnum>,
    s0: Seq<Option<BoxedAny>>,
    d1: Seq<DirtyEnum>,
    s1: Seq<Option<BoxedAny>>,
    i: int,
)
    requires
        wired(nodes),
        chain_shape(nodes),
        nodes.len() <= 0x8000_0000,
        forall|j: int| 0 <= j < nodes.len() ==> #[trigger] d0[j] == DirtyEnum::NeedCompute,
        run_rel_prefix(nodes, d0, s0, d1, s1, i),
        s1.len() == base_offset(nodes, nodes.len() as int),
        0 <= i < nodes.len(),
        inputs_present(nodes, s1, i),
    ensures
        nodes[i].call.call_ok(gathered(nodes, s1, i)),
{
    lemma_chain_base(nodes, i);
    if i > 0 {
        lemma_chain_slot(nodes, d0, s0, d1, s1, i, i - 1);
        assert(nodes[i].input_indices@[0] == (i - 1) as usize);
        assert(gathered(nodes, s1, i) =~= seq![BoxedAny::Int((i - 1) as i32)]);
    }
}

proof fn lemma_chain_count(
    nodes: Seq<ExecNode<BasicNode>>,
    d0: Seq<DirtyEnum>,
    s1: Seq<Option<BoxedAny>>,
    upto: int,
)
    requires
        0 <= upto <= nodes.len(),
        forall|j: int| 0 <= j < nodes.len() ==> #[trigger] acted(nodes, d0, j),
        forall|j: int| 0 <= j < nodes.len() ==> #[trigger] inputs_present(nodes, s1, j),
    ensures
        count_computed(nodes, d0, s1, upto) == upto,
    decreases upto,
{
    if upto > 0 {
        lemma_chain_count(nodes, d0, s1, upto - 1);
        assert(computed(nodes, d0, s1, upto - 1));
    }
}

/// The counting chain: one tick over a fresh chain of `N` nodes recomputes
/// all `N` of them, and afterwards the slot at position `p` holds the
/// number `p` — in particular the last slot holds `N - 1`.
#[verifier::rlimit(60)]
pub proof fn lemma_chain_counts_up(
    nodes: Seq<ExecNode<BasicNode>>,
    d0: Seq<DirtyEnum>,
    s0: Seq<Option<BoxedAny>>,
    d1: Seq<DirtyEnum>,
    s1: Seq<Option<BoxedAny>>,
    count: int,
)
    requires
        wired(nodes),
        chain_shape(nodes),
        nodes.len() <= 0x8000_0000,
        forall|j: int| 0 <= j < nodes.len() ==> #[trigger] d0[j] == DirtyEnum::NeedCompute,
        run_rel(nodes, d0, s0, d1, s1, count),
        s1.len() == base_offset(nodes, nodes.len() as int),
    ensures
        forall|i: int| 0 <= i < nodes.len() ==> #[trigger] s1[i] == Some(BoxedAny::Int(i as i32)),
        forall|i: int| 0 <= i < nodes.len() ==> #[trigger] d1[i] == DirtyEnum::Clean,
        count == nodes.len(),
{
    assert forall|i: int| 0 <= i < nodes.len() implies #[trigger] s1[i] == Some(
        BoxedAny::Int(i as i32),
    ) && inputs_present(nodes, s1, i) && acted(nodes, d0, i) by {
        lemma_chain_slot(nodes, d0, s0, d1, s1, nodes.len() as int, i);
    }
    assert forall|i: int| 0 <= i < nodes.len() implies #[trigger] d1[i] == DirtyEnum::Clean by {
        lemma_chain_slot(nodes, d0, s0, d1, s1, nodes.len() as int, i);
    }
    lemma_chain_count(nodes, d0, s1, nodes.len() as int);
}




} // verus!
