use vstd::prelude::*;
use crate::tensor::dtype::DType;

verus! {

/// A tagged single value, one variant per supported element type.
///
/// The floating-point variants hold IEEE-754 bit patterns rather than native
/// float values, in keeping with the bit-level representation used by the
/// whole storage engine.
#[derive(Debug, Clone, Copy)]
pub enum Scalar {
    Float32(u32),
    Float16(u16),
    BFloat16(u16),
    Int32(i32),
    Int64(i64),
    Bool(bool),
}

impl Scalar {
    pub open spec fn spec_dtype(self) -> DType {
        match self {
            Scalar::Float32(_) => DType::Float32,
            Scalar::Float16(_) => DType::Float16,
            Scalar::BFloat16(_) => DType::BFloat16,
            Scalar::Int32(_) => DType::Int32,
            Scalar::Int64(_) => DType::Int64,
            Scalar::Bool(_) => DType::Bool,
        }
    }

    pub fn dtype(&self) -> (r: DType)
        ensures
            r == self.spec_dtype(),
    {
        match self {
            Scalar::Float32(_) => DType::Float32,
            Scalar::Float16(_) => DType::Float16,
            Scalar::BFloat16(_) => DType::BFloat16,
            Scalar::Int32(_) => DType::Int32,
            Scalar::Int64(_) => DType::Int64,
            Scalar::Bool(_) => DType::Bool,
        }
    }

    /// Converts integer and boolean scalars to an `i64`.
    ///
    /// Floating-point scalars are stored as bit patterns, which this crate
    /// does not convert to integers; those return `None`.
    pub fn to_i64(&self) -> (r: Option<i64>)
        ensures
            match *self {
                Scalar::Int32(v) => r == Some(v as i64),
                Scalar::Int64(v) => r == Some(v),
                Scalar::Bool(v) => r == Some(if v { 1i64 } else { 0i64 }),
                _ => r is None,
            },
    {
        match self {
            Scalar::Int32(v) => Some(*v as i64),
            Scalar::Int64(v) => Some(*v),
            Scalar::Bool(v) => Some(if *v { 1 } else { 0 }),
            _ => None,
        }
    }
}

impl vstd::std_specs::convert::FromSpecImpl<i32> for Scalar {
    open spec fn obeys_from_spec() -> bool {
        true
    }

    open spec fn from_spec(v: i32) -> Scalar {
        Scalar::Int32(v)
    }
}

impl From<i32> for Scalar {
    fn from(v: i32) -> (r: Self)
        ensures
            r == Scalar::Int32(v),
    {
        Scalar::Int32(v)
    }
}

impl vstd::std_specs::convert::FromSpecImpl<i64> for Scalar {
    open spec fn obeys_from_spec() -> bool {
        true
    }

    open spec fn from_spec(v: i64) -> Scalar {
        Scalar::Int64(v)
    }
}

impl From<i64> for Scalar {
    fn from(v: i64) -> (r: Self)
        ensures
            r == Scalar::Int64(v),
    {
        Scalar::Int64(v)
    }
}

impl vstd::std_specs::convert::FromSpecImpl<bool> for Scalar {
    open spec fn obeys_from_spec() -> bool {
        true
    }

    open spec fn from_spec(v: bool) -> Scalar {
        Scalar::Bool(v)
    }
}

impl From<bool> for Scalar {
    fn from(v: bool) -> (r: Self)
        ensures
            r == Scalar::Bool(v),
    {
        Scalar::Bool(v)
    }
}

} // verus!
