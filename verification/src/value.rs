use crate::errors::ExecError;
use vstd::prelude::*;

verus! {

/// A small user-defined record, used by the sample nodes to show a
/// non-primitive value flowing through the store.
#[derive(Clone, Copy, Debug, PartialEq, Eq, Structural)]
pub struct CustomType {
    pub value: i32,
    pub mutable_value: i32,
}

/// The type-erased cell of the standard value universe.
///
/// A cell holds one concrete value behind a uniform handle; each `value_*`
/// projection checks that the stored kind matches the requested one and
/// fails with `TypeMismatch` otherwise.  Wiring the wrong types together is
/// a graph-construction error, not a recoverable runtime condition.
#[derive(Clone, Debug, PartialEq, Eq)]
pub enum BoxedAny {
    Int(i32),
    UInt(u32),
    Text(String),
    Flag(bool),
    Custom(CustomType),
}

impl BoxedAny {
    /// Checked view of the cell as an `i32`.
    pub fn value_i32(&self) -> (r: Result<&i32, ExecError>)
        ensures
            match *self {
                BoxedAny::Int(v) => r matches Ok(rv) && *rv == v,
                _ => r matches Err(e) && e == ExecError::TypeMismatch,
            },
    {
        match self {
            BoxedAny::Int(v) => Ok(v),
            _ => Err(ExecError::TypeMismatch),
        }
    }

    /// Checked view of the cell as a `u32`.
    pub fn value_u32(&self) -> (r: Result<&u32, ExecError>)
        ensures
            match *self {
                BoxedAny::UInt(v) => r matches Ok(rv) && *rv == v,
                _ => r matches Err(e) && e == ExecError::TypeMismatch,
            },
    {
        match self {
            BoxedAny::UInt(v) => Ok(v),
            _ => Err(ExecError::TypeMismatch),
        }
    }

    /// Checked view of the cell as a `String`.
    pub fn value_text(&self) -> (r: Result<&String, ExecError>)
        ensures
            match *self {
                BoxedAny::Text(v) => r matches Ok(rv) && *rv == v,
                _ => r matches Err(e) && e == ExecError::TypeMismatch,
            },
    {
        match self {
            BoxedAny::Text(v) => Ok(v),
            _ => Err(ExecError::TypeMismatch),
        }
    }

    /// Checked view of the cell as a `bool`.
    pub fn value_flag(&self) -> (r: Result<&bool, ExecError>)
        ensures
            match *self {
                BoxedAny::Flag(v) => r matches Ok(rv) && *rv == v,
                _ => r matches Err(e) && e == ExecError::TypeMismatch,
            },
    {
        match self {
            BoxedAny::Flag(v) => Ok(v),
            _ => Err(ExecError::TypeMismatch),
        }
    }

    /// Checked view of the cell as a `CustomType`.
    pub fn value_custom(&self) -> (r: Result<&CustomType, ExecError>)
        ensures
            match *self {
                BoxedAny::Custom(v) => r matches Ok(rv) && *rv == v,
                _ => r matches Err(e) && e == ExecError::TypeMismatch,
            },
    {
        match self {
            BoxedAny::Custom(v) => Ok(v),
            _ => Err(ExecError::TypeMismatch),
        }
    }
}

} // verus!
