//! Errors of the clustering operations and their messages.

use vstd::prelude::*;
use vstd::string::StringExecFns;

use crate::value::{DataType, TimeUnit};

verus! {

/// Why a clustering operation was refused.
#[derive(Clone, Debug, PartialEq)]
pub enum ClusterError {
    /// The direct sort was given other than one value.
    DirectValueCount { got: usize },
    /// The Hilbert curve was given other than one value per dimension.
    HilbertValueCount { expected: usize, got: usize },
    /// The Hilbert curve was asked for a key before its bounds were prepared.
    HilbertNotPrepared,
    /// The Hilbert curve has a dimension outside 2 to 4.
    HilbertUnsupportedDimension { dimension: usize },
    /// A clustering key names no column of the batch.
    ColumnNotFoundInBatch { column: String },
    /// The algorithm name does not fit the number of dimensions.
    UnknownAlgorithm { name: String, dimension: usize },
    /// The Hilbert index would need more than 64 bits.
    HilbertBitsExceed { dimension: usize, bits: u64 },
    /// The number of dimensions is outside 1 to 4.
    InvalidDimension { dimension: usize },
    /// No clustering key was given.
    EmptyKeys,
    /// More than four clustering keys were given.
    TooManyKeys { count: usize },
    /// A clustering key is the empty string.
    EmptyKeyName,
    /// A clustering key is given twice.
    DuplicateKey { key: String },
    /// A clustering key names no field of the schema.
    KeyNotInSchema { key: String },
    /// A clustering key column has a type that cannot be clustered.
    UnsupportedType { data_type: DataType },
    /// A batch was given a number of columns other than its number of fields.
    ColumnCountMismatch { fields: usize, columns: usize },
    /// A column of a batch has another length than the first column.
    ColumnLengthMismatch { index: usize, expected: usize, got: usize },
    /// A batch was given no column, so its row count is unknown.
    NoColumns,
    /// The sort keys of a batch hold more bytes than a binary array can.
    SortKeysTooLarge,
}

/// The character of a decimal digit.
pub open spec fn digit_char(d: nat) -> char {
    if d == 0 { '0' } else if d == 1 { '1' } else if d == 2 { '2' } else if d == 3 { '3' }
    else if d == 4 { '4' } else if d == 5 { '5' } else if d == 6 { '6' } else if d == 7 { '7' }
    else if d == 8 { '8' } else { '9' }
}

/// The decimal digits of `n`, without leading zeros.
pub open spec fn decimal(n: nat) -> Seq<char>
    decreases n,
{
    if n < 10 {
        seq![digit_char(n)]
    } else {
        decimal(n / 10).push(digit_char(n % 10))
    }
}

fn digit_str(d: u64) -> (s: &'static str)
    requires
        d < 10,
    ensures
        s@ == seq![digit_char(d as nat)],
{
    proof {
        reveal_strlit("0");
        reveal_strlit("1");
        reveal_strlit("2");
        reveal_strlit("3");
        reveal_strlit("4");
        reveal_strlit("5");
        reveal_strlit("6");
        reveal_strlit("7");
        reveal_strlit("8");
        reveal_strlit("9");
    }
    let s = if d == 0 { "0" } else if d == 1 { "1" } else if d == 2 { "2" } else if d == 3 { "3" }
    else if d == 4 { "4" } else if d == 5 { "5" } else if d == 6 { "6" } else if d == 7 { "7" }
    else if d == 8 { "8" } else { "9" };
    assert(s@ =~= seq![digit_char(d as nat)]);
    s
}

/// Appends the decimal digits of `n` to `s`.
pub fn push_decimal(s: &mut String, n: u64)
    ensures
        final(s)@ == old(s)@ + decimal(n as nat),
    decreases n,
{
    if n >= 10 {
        push_decimal(s, n / 10);
    }
    s.append(digit_str(n % 10));
    assert(final(s)@ =~= old(s)@ + decimal(n as nat));
}

/// The name under which a column type is shown.
pub open spec fn data_type_name(t: DataType) -> Seq<char> {
    match t {
        DataType::Int8 => "Int8"@,
        DataType::Int16 => "Int16"@,
        DataType::Int32 => "Int32"@,
        DataType::Int64 => "Int64"@,
        DataType::UInt8 => "UInt8"@,
        DataType::UInt16 => "UInt16"@,
        DataType::UInt32 => "UInt32"@,
        DataType::UInt64 => "UInt64"@,
        DataType::Float32 => "Float32"@,
        DataType::Float64 => "Float64"@,
        DataType::Timestamp(TimeUnit::Second, _) => "Timestamp(s)"@,
        DataType::Timestamp(TimeUnit::Millisecond, _) => "Timestamp(ms)"@,
        DataType::Timestamp(TimeUnit::Microsecond, _) => "Timestamp(µs)"@,
        DataType::Timestamp(TimeUnit::Nanosecond, _) => "Timestamp(ns)"@,
        DataType::Date32 => "Date32"@,
        DataType::Date64 => "Date64"@,
        DataType::Boolean => "Boolean"@,
        DataType::Utf8 => "Utf8"@,
        DataType::Other(name) => name@,
    }
}

/// The name under which a column type is shown.
pub fn data_type_display(t: &DataType) -> (s: String)
    ensures
        s@ == data_type_name(*t),
{
    match t {
        DataType::Int8 => String::from_str("Int8"),
        DataType::Int16 => String::from_str("Int16"),
        DataType::Int32 => String::from_str("Int32"),
        DataType::Int64 => String::from_str("Int64"),
        DataType::UInt8 => String::from_str("UInt8"),
        DataType::UInt16 => String::from_str("UInt16"),
        DataType::UInt32 => String::from_str("UInt32"),
        DataType::UInt64 => String::from_str("UInt64"),
        DataType::Float32 => String::from_str("Float32"),
        DataType::Float64 => String::from_str("Float64"),
        DataType::Timestamp(TimeUnit::Second, _) => String::from_str("Timestamp(s)"),
        DataType::Timestamp(TimeUnit::Millisecond, _) => String::from_str("Timestamp(ms)"),
        DataType::Timestamp(TimeUnit::Microsecond, _) => String::from_str("Timestamp(µs)"),
        DataType::Timestamp(TimeUnit::Nanosecond, _) => String::from_str("Timestamp(ns)"),
        DataType::Date32 => String::from_str("Date32"),
        DataType::Date64 => String::from_str("Date64"),
        DataType::Boolean => String::from_str("Boolean"),
        DataType::Utf8 => String::from_str("Utf8"),
        DataType::Other(name) => name.clone(),
    }
}

/// The message that describes an error.
pub open spec fn error_message(e: ClusterError) -> Seq<char> {
    match e {
        ClusterError::DirectValueCount { got } =>
            "Direct sort requires exactly 1 value, got "@ + decimal(got as nat),
        ClusterError::HilbertValueCount { expected, got } =>
            "Hilbert curve requires exactly "@ + decimal(expected as nat) + " values, got "@
                + decimal(got as nat),
        ClusterError::HilbertNotPrepared => "Hilbert algorithm not prepared"@,
        ClusterError::HilbertUnsupportedDimension { dimension } =>
            "Hilbert curve does not support dimension "@ + decimal(dimension as nat),
        ClusterError::ColumnNotFoundInBatch { column } =>
            "Column '"@ + column@ + "' not found in batch"@,
        ClusterError::UnknownAlgorithm { name, dimension } =>
            "Unknown clustering algorithm '"@ + name@ + "' for "@ + decimal(dimension as nat)
                + "D"@,
        ClusterError::HilbertBitsExceed { dimension, bits } =>
            "Hilbert curve dimension ("@ + decimal(dimension as nat) + ") * bits ("@
                + decimal(bits as nat) + ") exceeds 64, which is not supported"@,
        ClusterError::InvalidDimension { dimension } =>
            "Invalid clustering dimension: "@ + decimal(dimension as nat),
        ClusterError::EmptyKeys => "Clustering keys cannot be empty"@,
        ClusterError::TooManyKeys { count } =>
            "Clustering keys count "@ + decimal(count as nat) + " exceeds maximum of 4"@,
        ClusterError::EmptyKeyName => "Empty clustering key column name"@,
        ClusterError::DuplicateKey { key } => "Duplicate clustering key column: "@ + key@,
        ClusterError::KeyNotInSchema { key } =>
            "Clustering key column '"@ + key@ + "' not found in schema"@,
        ClusterError::UnsupportedType { data_type } =>
            "Type '"@ + data_type_name(data_type) + "' is not supported for clustering"@,
        ClusterError::ColumnCountMismatch { fields, columns } =>
            "Batch schema has "@ + decimal(fields as nat) + " fields but "@ + decimal(
                columns as nat,
            ) + " columns were given"@,
        ClusterError::ColumnLengthMismatch { index, expected, got } =>
            "Column "@ + decimal(index as nat) + " has "@ + decimal(got as nat)
                + " rows, expected "@ + decimal(expected as nat),
        ClusterError::NoColumns => "A batch needs at least one column"@,
        ClusterError::SortKeysTooLarge => "Failed to sort batch: sort keys exceed 2147483647 bytes"@,
    }
}

impl ClusterError {
    /// The message that describes this error.
    pub fn message(&self) -> (s: String)
        ensures
            s@ == error_message(*self),
    {
        match self {
            ClusterError::DirectValueCount { got } => {
                let mut s = String::from_str("Direct sort requires exactly 1 value, got ");
                push_decimal(&mut s, *got as u64);
                s
            },
            ClusterError::HilbertValueCount { expected, got } => {
                let mut s = String::from_str("Hilbert curve requires exactly ");
                push_decimal(&mut s, *expected as u64);
                s.append(" values, got ");
                push_decimal(&mut s, *got as u64);
                s
            },
            ClusterError::HilbertNotPrepared => String::from_str("Hilbert algorithm not prepared"),
            ClusterError::HilbertUnsupportedDimension { dimension } => {
                let mut s = String::from_str("Hilbert curve does not support dimension ");
                push_decimal(&mut s, *dimension as u64);
                s
            },
            ClusterError::ColumnNotFoundInBatch { column } => {
                let mut s = String::from_str("Column '");
                s.append(column.as_str());
                s.append("' not found in batch");
                s
            },
            ClusterError::UnknownAlgorithm { name, dimension } => {
                let mut s = String::from_str("Unknown clustering algorithm '");
                s.append(name.as_str());
                s.append("' for ");
                push_decimal(&mut s, *dimension as u64);
                s.append("D");
                s
            },
            ClusterError::HilbertBitsExceed { dimension, bits } => {
                let mut s = String::from_str("Hilbert curve dimension (");
                push_decimal(&mut s, *dimension as u64);
                s.append(") * bits (");
                push_decimal(&mut s, *bits);
                s.append(") exceeds 64, which is not supported");
                s
            },
            ClusterError::InvalidDimension { dimension } => {
                let mut s = String::from_str("Invalid clustering dimension: ");
                push_decimal(&mut s, *dimension as u64);
                s
            },
            ClusterError::EmptyKeys => String::from_str("Clustering keys cannot be empty"),
            ClusterError::TooManyKeys { count } => {
                let mut s = String::from_str("Clustering keys count ");
                push_decimal(&mut s, *count as u64);
                s.append(" exceeds maximum of 4");
                s
            },
            ClusterError::EmptyKeyName => String::from_str("Empty clustering key column name"),
            ClusterError::DuplicateKey { key } => {
                let mut s = String::from_str("Duplicate clustering key column: ");
                s.append(key.as_str());
                s
            },
            ClusterError::KeyNotInSchema { key } => {
                let mut s = String::from_str("Clustering key column '");
                s.append(key.as_str());
                s.append("' not found in schema");
                s
            },
            ClusterError::UnsupportedType { data_type } => {
                let mut s = String::from_str("Type '");
                let name = data_type_display(data_type);
                s.append(name.as_str());
                s.append("' is not supported for clustering");
                s
            },
            ClusterError::ColumnCountMismatch { fields, columns } => {
                let mut s = String::from_str("Batch schema has ");
                push_decimal(&mut s, *fields as u64);
                s.append(" fields but ");
                push_decimal(&mut s, *columns as u64);
                s.append(" columns were given");
                s
            },
            ClusterError::ColumnLengthMismatch { index, expected, got } => {
                let mut s = String::from_str("Column ");
                push_decimal(&mut s, *index as u64);
                s.append(" has ");
                push_decimal(&mut s, *got as u64);
                s.append(" rows, expected ");
                push_decimal(&mut s, *expected as u64);
                s
            },
            ClusterError::NoColumns => String::from_str("A batch needs at least one column"),
            ClusterError::SortKeysTooLarge => String::from_str(
                "Failed to sort batch: sort keys exceed 2147483647 bytes",
            ),
        }
    }
}

} // verus!
