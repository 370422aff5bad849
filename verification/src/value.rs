//! Column types and single cell values read by the clustering logic.

use vstd::prelude::*;

verus! {

/// Unit of a timestamp column.
#[derive(Clone, Copy, Debug, PartialEq, Eq, Structural)]
pub enum TimeUnit {
    Second,
    Millisecond,
    Microsecond,
    Nanosecond,
}

/// The type of a column, as far as clustering cares about it.
///
/// Types that clustering never accepts keep their display name in `Other`.
#[derive(Clone, Debug, PartialEq, Eq)]
pub enum DataType {
    Int8,
    Int16,
    Int32,
    Int64,
    UInt8,
    UInt16,
    UInt32,
    UInt64,
    Float32,
    Float64,
    Timestamp(TimeUnit, Option<String>),
    Date32,
    Date64,
    Boolean,
    Utf8,
    Other(String),
}

/// One cell of a column.
///
/// Floating-point cells hold their IEEE-754 bit pattern (`f32::to_bits`,
/// `f64::to_bits`); every other cell holds its value. `None` is SQL NULL.
#[derive(Clone, Debug, PartialEq)]
pub enum ScalarValue {
    Null,
    Boolean(Option<bool>),
    Int8(Option<i8>),
    Int16(Option<i16>),
    Int32(Option<i32>),
    Int64(Option<i64>),
    UInt8(Option<u8>),
    UInt16(Option<u16>),
    UInt32(Option<u32>),
    UInt64(Option<u64>),
    Float32(Option<u32>),
    Float64(Option<u64>),
    TimestampSecond(Option<i64>, Option<String>),
    TimestampMillisecond(Option<i64>, Option<String>),
    TimestampMicrosecond(Option<i64>, Option<String>),
    TimestampNanosecond(Option<i64>, Option<String>),
    Date32(Option<i32>),
    Date64(Option<i64>),
    Utf8(Option<String>),
}

/// Whether a cell is NULL: the untyped null, or a typed cell without a value.
pub open spec fn spec_is_null(v: ScalarValue) -> bool {
    match v {
        ScalarValue::Null => true,
        ScalarValue::Boolean(o) => o is None,
        ScalarValue::Int8(o) => o is None,
        ScalarValue::Int16(o) => o is None,
        ScalarValue::Int32(o) => o is None,
        ScalarValue::Int64(o) => o is None,
        ScalarValue::UInt8(o) => o is None,
        ScalarValue::UInt16(o) => o is None,
        ScalarValue::UInt32(o) => o is None,
        ScalarValue::UInt64(o) => o is None,
        ScalarValue::Float32(o) => o is None,
        ScalarValue::Float64(o) => o is None,
        ScalarValue::TimestampSecond(o, _) => o is None,
        ScalarValue::TimestampMillisecond(o, _) => o is None,
        ScalarValue::TimestampMicrosecond(o, _) => o is None,
        ScalarValue::TimestampNanosecond(o, _) => o is None,
        ScalarValue::Date32(o) => o is None,
        ScalarValue::Date64(o) => o is None,
        ScalarValue::Utf8(o) => o is None,
    }
}

/// Whether a cell holds a number that a space-filling curve can place:
/// a non-NULL integer, float, timestamp or date.
pub open spec fn spec_is_numeric(v: ScalarValue) -> bool {
    match v {
        ScalarValue::Int8(o) => o is Some,
        ScalarValue::Int16(o) => o is Some,
        ScalarValue::Int32(o) => o is Some,
        ScalarValue::Int64(o) => o is Some,
        ScalarValue::UInt8(o) => o is Some,
        ScalarValue::UInt16(o) => o is Some,
        ScalarValue::UInt32(o) => o is Some,
        ScalarValue::UInt64(o) => o is Some,
        ScalarValue::Float32(o) => o is Some,
        ScalarValue::Float64(o) => o is Some,
        ScalarValue::TimestampSecond(o, _) => o is Some,
        ScalarValue::TimestampMillisecond(o, _) => o is Some,
        ScalarValue::TimestampMicrosecond(o, _) => o is Some,
        ScalarValue::TimestampNanosecond(o, _) => o is Some,
        ScalarValue::Date32(o) => o is Some,
        ScalarValue::Date64(o) => o is Some,
        _ => false,
    }
}

impl ScalarValue {
    /// Whether this cell is NULL.
    pub fn is_null(&self) -> (r: bool)
        ensures
            r == spec_is_null(*self),
    {
        match self {
            ScalarValue::Null => true,
            ScalarValue::Boolean(o) => o.is_none(),
            ScalarValue::Int8(o) => o.is_none(),
            ScalarValue::Int16(o) => o.is_none(),
            ScalarValue::Int32(o) => o.is_none(),
            ScalarValue::Int64(o) => o.is_none(),
            ScalarValue::UInt8(o) => o.is_none(),
            ScalarValue::UInt16(o) => o.is_none(),
            ScalarValue::UInt32(o) => o.is_none(),
            ScalarValue::UInt64(o) => o.is_none(),
            ScalarValue::Float32(o) => o.is_none(),
            ScalarValue::Float64(o) => o.is_none(),
            ScalarValue::TimestampSecond(o, _) => o.is_none(),
            ScalarValue::TimestampMillisecond(o, _) => o.is_none(),
            ScalarValue::TimestampMicrosecond(o, _) => o.is_none(),
            ScalarValue::TimestampNanosecond(o, _) => o.is_none(),
            ScalarValue::Date32(o) => o.is_none(),
            ScalarValue::Date64(o) => o.is_none(),
            ScalarValue::Utf8(o) => o.is_none(),
        }
    }

    /// Whether this cell holds a number that a space-filling curve can place.
    pub fn is_numeric(&self) -> (r: bool)
        ensures
            r == spec_is_numeric(*self),
    {
        match self {
            ScalarValue::Int8(o) => o.is_some(),
            ScalarValue::Int16(o) => o.is_some(),
            ScalarValue::Int32(o) => o.is_some(),
            ScalarValue::Int64(o) => o.is_some(),
            ScalarValue::UInt8(o) => o.is_some(),
            ScalarValue::UInt16(o) => o.is_some(),
            ScalarValue::UInt32(o) => o.is_some(),
            ScalarValue::UInt64(o) => o.is_some(),
            ScalarValue::Float32(o) => o.is_some(),
            ScalarValue::Float64(o) => o.is_some(),
            ScalarValue::TimestampSecond(o, _) => o.is_some(),
            ScalarValue::TimestampMillisecond(o, _) => o.is_some(),
            ScalarValue::TimestampMicrosecond(o, _) => o.is_some(),
            ScalarValue::TimestampNanosecond(o, _) => o.is_some(),
            ScalarValue::Date32(o) => o.is_some(),
            ScalarValue::Date64(o) => o.is_some(),
            _ => false,
        }
    }

    /// A copy of this cell, equal to it.
    pub fn duplicate(&self) -> (r: ScalarValue)
        ensures
            r == *self,
    {
        match self {
            ScalarValue::Null => ScalarValue::Null,
            ScalarValue::Boolean(o) => ScalarValue::Boolean(*o),
            ScalarValue::Int8(o) => ScalarValue::Int8(*o),
            ScalarValue::Int16(o) => ScalarValue::Int16(*o),
            ScalarValue::Int32(o) => ScalarValue::Int32(*o),
            ScalarValue::Int64(o) => ScalarValue::Int64(*o),
            ScalarValue::UInt8(o) => ScalarValue::UInt8(*o),
            ScalarValue::UInt16(o) => ScalarValue::UInt16(*o),
            ScalarValue::UInt32(o) => ScalarValue::UInt32(*o),
            ScalarValue::UInt64(o) => ScalarValue::UInt64(*o),
            ScalarValue::Float32(o) => ScalarValue::Float32(*o),
            ScalarValue::Float64(o) => ScalarValue::Float64(*o),
            ScalarValue::TimestampSecond(o, tz) => ScalarValue::TimestampSecond(*o, clone_opt_string(tz)),
            ScalarValue::TimestampMillisecond(o, tz) => ScalarValue::TimestampMillisecond(*o, clone_opt_string(tz)),
            ScalarValue::TimestampMicrosecond(o, tz) => ScalarValue::TimestampMicrosecond(*o, clone_opt_string(tz)),
            ScalarValue::TimestampNanosecond(o, tz) => ScalarValue::TimestampNanosecond(*o, clone_opt_string(tz)),
            ScalarValue::Date32(o) => ScalarValue::Date32(*o),
            ScalarValue::Date64(o) => ScalarValue::Date64(*o),
            ScalarValue::Utf8(o) => ScalarValue::Utf8(clone_opt_string(o)),
        }
    }
}

/// A copy of an optional string, equal to it.
pub fn clone_opt_string(s: &Option<String>) -> (r: Option<String>)
    ensures
        r == *s,
{
    match s {
        Some(x) => Some(x.clone()),
        None => None,
    }
}

} // verus!
