//! The clustering configuration of a table and its checks.

use vstd::prelude::*;
use vstd::string::StringExecFns;

use crate::batch::{Field, Schema, first_index_of};
use crate::error::{ClusterError, error_message};
use crate::value::DataType;

verus! {

/// The clustering of a table: its key columns, the algorithm that orders
/// them, and optional algorithm parameters written as JSON.
#[derive(Clone, Debug, PartialEq)]
pub struct ClusterConfig {
    /// Clustering key column names (1 to 4 columns are accepted).
    pub keys: Vec<String>,
    /// Algorithm name: `"direct"` for one key, `"hilbert"` for 2 to 4.
    pub algorithm: String,
    /// Algorithm parameters as a JSON object, such as `{"bits":16}`.
    pub algorithm_params: Option<String>,
}

/// The key under which a table's schema metadata holds its clustering
/// configuration.
pub const SCHEMA_METADATA_KEY: &'static str = "lancedb.cluster.config";

/// The names of a list of strings.
pub open spec fn string_views(s: Seq<String>) -> Seq<Seq<char>> {
    s.map_values(|k: String| k@)
}

/// The algorithm chosen for a number of keys when none is named.
pub open spec fn default_algorithm(num_keys: nat) -> Seq<char> {
    if num_keys == 1 {
        "direct"@
    } else {
        "hilbert"@
    }
}

/// Whether a column type can be clustered: integers, floats, timestamps and
/// dates.
pub open spec fn spec_is_supported_type(t: DataType) -> bool {
    match t {
        DataType::Int8 | DataType::Int16 | DataType::Int32 | DataType::Int64 => true,
        DataType::UInt8 | DataType::UInt16 | DataType::UInt32 | DataType::UInt64 => true,
        DataType::Float32 | DataType::Float64 => true,
        DataType::Timestamp(_, _) | DataType::Date32 | DataType::Date64 => true,
        _ => false,
    }
}

/// Whether key `i` is a name that is not empty and not given before.
pub open spec fn well_named(keys: Seq<Seq<char>>, i: int) -> bool {
    &&& keys[i].len() > 0
    &&& forall|j: int| 0 <= j < i ==> keys[j] != keys[i]
}

/// Whether `key` names a field of a type that can be clustered.
pub open spec fn resolves(key: Seq<char>, fields: Seq<Field>) -> bool {
    let names = fields.map_values(|f: Field| f.name@);
    match first_index_of(names, key) {
        Some(p) => spec_is_supported_type(fields[p].data_type),
        None => false,
    }
}

/// Whether keys can cluster a table of these fields: 1 to 4 keys, each a
/// non-empty name given once, each naming a field of a type that can be
/// clustered.
pub open spec fn valid_keys(keys: Seq<Seq<char>>, fields: Seq<Field>) -> bool {
    &&& 1 <= keys.len() <= 4
    &&& forall|i: int| 0 <= i < keys.len() ==> well_named(keys, i)
    &&& forall|i: int| 0 <= i < keys.len() ==> resolves(#[trigger] keys[i], fields)
}

/// Whether `e` is the error that checking `keys` against `fields` reports.
///
/// The count of keys is checked first; then each key in turn for being empty
/// or repeated; then each key in turn for naming a field of a supported type.
pub open spec fn key_error(keys: Seq<Seq<char>>, fields: Seq<Field>, e: ClusterError) -> bool {
    let names = fields.map_values(|f: Field| f.name@);
    if keys.len() == 0 {
        e == ClusterError::EmptyKeys
    } else if keys.len() > 4 {
        e == (ClusterError::TooManyKeys { count: keys.len() as usize })
    } else if exists|i: int| 0 <= i < keys.len() && !well_named(keys, i) {
        exists|i: int|
            {
                &&& 0 <= i < keys.len()
                &&& !well_named(keys, i)
                &&& forall|j: int| 0 <= j < i ==> well_named(keys, j)
                &&& if keys[i].len() == 0 {
                    e == ClusterError::EmptyKeyName
                } else {
                    e matches ClusterError::DuplicateKey { key } && key@ == keys[i]
                }
            }
    } else {
        exists|i: int|
            {
                &&& 0 <= i < keys.len()
                &&& !resolves(keys[i], fields)
                &&& forall|j: int| 0 <= j < i ==> resolves(#[trigger] keys[j], fields)
                &&& match first_index_of(names, keys[i]) {
                    None => e matches ClusterError::KeyNotInSchema { key } && key@ == keys[i],
                    Some(p) => e == (ClusterError::UnsupportedType { data_type: fields[p].data_type }),
                }
            }
    }
}

/// Checking keys reports one error: any two errors that checking `keys`
/// against `fields` may report have the same message, so the configuration
/// check and the check of keys alone fail alike on the same keys.
pub proof fn lemma_key_error_unique(
    keys: Seq<Seq<char>>,
    fields: Seq<Field>,
    e1: ClusterError,
    e2: ClusterError,
)
    requires
        key_error(keys, fields, e1),
        key_error(keys, fields, e2),
    ensures
        error_message(e1) == error_message(e2),
{
    let names = fields.map_values(|f: Field| f.name@);
    if keys.len() == 0 || keys.len() > 4 {
    } else if exists|i: int| 0 <= i < keys.len() && !well_named(keys, i) {
        let i1 = choose|i: int|
            {
                &&& 0 <= i < keys.len()
                &&& !well_named(keys, i)
                &&& forall|j: int| 0 <= j < i ==> well_named(keys, j)
                &&& if keys[i].len() == 0 {
                    e1 == ClusterError::EmptyKeyName
                } else {
                    e1 matches ClusterError::DuplicateKey { key } && key@ == keys[i]
                }
            };
        let i2 = choose|i: int|
            {
                &&& 0 <= i < keys.len()
                &&& !well_named(keys, i)
                &&& forall|j: int| 0 <= j < i ==> well_named(keys, j)
                &&& if keys[i].len() == 0 {
                    e2 == ClusterError::EmptyKeyName
                } else {
                    e2 matches ClusterError::DuplicateKey { key } && key@ == keys[i]
                }
            };
        assert(i1 == i2) by {
            if i1 < i2 {
                assert(well_named(keys, i1));
            }
            if i2 < i1 {
                assert(well_named(keys, i2));
            }
        }
    } else {
        let i1 = choose|i: int|
            {
                &&& 0 <= i < keys.len()
                &&& !resolves(keys[i], fields)
                &&& forall|j: int| 0 <= j < i ==> resolves(#[trigger] keys[j], fields)
                &&& match first_index_of(names, keys[i]) {
                    None => e1 matches ClusterError::KeyNotInSchema { key } && key@ == keys[i],
                    Some(p) => e1 == (ClusterError::UnsupportedType { data_type: fields[p].data_type }),
                }
            };
        let i2 = choose|i: int|
            {
                &&& 0 <= i < keys.len()
                &&& !resolves(keys[i], fields)
                &&& forall|j: int| 0 <= j < i ==> resolves(#[trigger] keys[j], fields)
                &&& match first_index_of(names, keys[i]) {
                    None => e2 matches ClusterError::KeyNotInSchema { key } && key@ == keys[i],
                    Some(p) => e2 == (ClusterError::UnsupportedType { data_type: fields[p].data_type }),
                }
            };
        assert(i1 == i2) by {
            if i1 < i2 {
                assert(resolves(keys[i1], fields));
            }
            if i2 < i1 {
                assert(resolves(keys[i2], fields));
            }
        }
    }
}

/// The types that can be clustered are exactly the signed and unsigned
/// integers of every width, both floats, timestamps of any unit and zone,
/// and both dates.
pub proof fn lemma_supported_types(t: DataType)
    ensures
        spec_is_supported_type(t) <==> (t is Int8 || t is Int16 || t is Int32 || t is Int64 || t is UInt8 || t is UInt16
            || t is UInt32 || t is UInt64 || t is Float32 || t is Float64 || t is Timestamp
            || t is Date32 || t is Date64),
{
}

/// One key, naming a column of an integer, float, timestamp or date type,
/// passes the check.
pub proof fn lemma_single_supported_key_is_valid(key: Seq<char>, fields: Seq<Field>, p: int)
    requires
        key.len() > 0,
        first_index_of(fields.map_values(|f: Field| f.name@), key) == Some(p),
        ({
            let t = fields[p].data_type;
            t is Int8 || t is Int16 || t is Int32 || t is Int64 || t is UInt8 || t is UInt16
            || t is UInt32 || t is UInt64 || t is Float32 || t is Float64 || t is Timestamp
            || t is Date32 || t is Date64
        }),
    ensures
        valid_keys(seq![key], fields),
{
    let keys = seq![key];
    assert(well_named(keys, 0));
    assert(resolves(keys[0], fields));
}

/// Whether a column type can be clustered.
pub fn is_supported_type(data_type: &DataType) -> (b: bool)
    ensures
        b == spec_is_supported_type(*data_type),
        b <==> ({
            let t = *data_type;
            t is Int8 || t is Int16 || t is Int32 || t is Int64 || t is UInt8 || t is UInt16
            || t is UInt32 || t is UInt64 || t is Float32 || t is Float64 || t is Timestamp
            || t is Date32 || t is Date64
        }),
{
    match data_type {
        DataType::Int8 | DataType::Int16 | DataType::Int32 | DataType::Int64 => true,
        DataType::UInt8 | DataType::UInt16 | DataType::UInt32 | DataType::UInt64 => true,
        DataType::Float32 | DataType::Float64 => true,
        DataType::Timestamp(_, _) | DataType::Date32 | DataType::Date64 => true,
        _ => false,
    }
}

impl ClusterConfig {
    /// A configuration for `keys`, with the direct sort for one key and the
    /// Hilbert curve otherwise, and no parameters.
    pub fn new(keys: Vec<String>) -> (c: ClusterConfig)
        ensures
            c.keys@ == keys@,
            c.algorithm@ == default_algorithm(keys@.len()),
            c.algorithm_params is None,
    {
        let algorithm = if keys.len() == 1 {
            String::from_str("direct")
        } else {
            String::from_str("hilbert")
        };
        ClusterConfig { keys, algorithm, algorithm_params: None }
    }

    /// The same configuration with another algorithm.
    pub fn with_algorithm(self, algorithm: &str) -> (c: ClusterConfig)
        ensures
            c.keys@ == self.keys@,
            c.algorithm@ == algorithm@,
            c.algorithm_params == self.algorithm_params,
    {
        ClusterConfig {
            keys: self.keys,
            algorithm: String::from_str(algorithm),
            algorithm_params: self.algorithm_params,
        }
    }

    /// Checks the configuration against the schema of a table.
    pub fn validate(&self, schema: &Schema) -> (r: Result<(), ClusterError>)
        ensures
            r is Ok <==> valid_keys(string_views(self.keys@), schema.fields@),
            r matches Err(e) ==> key_error(string_views(self.keys@), schema.fields@, e),
    {
        let ghost keys = string_views(self.keys@);
        let ghost fields = schema.fields@;
        let n = self.keys.len();
        if n == 0 {
            return Err(ClusterError::EmptyKeys);
        }
        if n > 4 {
            return Err(ClusterError::TooManyKeys { count: n });
        }
        let empty = String::new();
        for i in 0..n
            invariant
                n == self.keys@.len(),
                1 <= n <= 4,
                keys == string_views(self.keys@),
                fields == schema.fields@,
                empty@ == Seq::<char>::empty(),
                forall|j: int| 0 <= j < i ==> well_named(keys, j),
        {
            let key = &self.keys[i];
            assert(key@ == keys[i as int]);
            if *key == empty {
                proof {
                    assert(!well_named(keys, i as int));
                }
                return Err(ClusterError::EmptyKeyName);
            }
            assert(keys[i as int].len() > 0) by {
                if keys[i as int].len() == 0 {
                    assert(key@ =~= empty@);
                }
            }
            for j in 0..i
                invariant
                    i < n,
                    n == self.keys@.len(),
                    1 <= n <= 4,
                    keys == string_views(self.keys@),
                    key@ == keys[i as int],
                    keys[i as int].len() > 0,
                    forall|k: int| 0 <= k < i ==> well_named(keys, k),
                    forall|k: int| 0 <= k < j ==> keys[k] != keys[i as int],
            {
                if self.keys[j] == *key {
                    proof {
                        assert(keys[j as int] == keys[i as int]);
                        assert(!well_named(keys, i as int));
                    }
                    return Err(ClusterError::DuplicateKey { key: key.clone() });
                }
            }
            assert(well_named(keys, i as int));
        }
        for i in 0..n
            invariant
                n == self.keys@.len(),
                1 <= n <= 4,
                keys == string_views(self.keys@),
                fields == schema.fields@,
                forall|j: int| 0 <= j < n ==> well_named(keys, j),
                forall|j: int| 0 <= j < i ==> resolves(#[trigger] keys[j], fields),
        {
            let key = &self.keys[i];
            assert(key@ == keys[i as int]);
            match schema.field_with_name(key.as_str()) {
                None => {
                    return Err(ClusterError::KeyNotInSchema { key: key.clone() });
                },
                Some(field) => {
                    if !is_supported_type(&field.data_type) {
                        return Err(ClusterError::UnsupportedType { data_type: field.data_type.duplicate() });
                    }
                },
            }
        }
        Ok(())
    }
}

/// The configuration for `keys`, when the keys can cluster a table of this
/// schema.
pub fn validate_cluster_keys(keys: &[String], schema: &Schema) -> (r: Result<ClusterConfig, ClusterError>)
    ensures
        r is Ok <==> valid_keys(string_views(keys@), schema.fields@),
        r matches Ok(c) ==> c.keys@ == keys@ && c.algorithm@ == default_algorithm(keys@.len())
            && c.algorithm_params is None,
        r matches Err(e) ==> key_error(string_views(keys@), schema.fields@, e),
{
    let mut owned: Vec<String> = Vec::new();
    let n = keys.len();
    for i in 0..n
        invariant
            n == keys@.len(),
            owned@ == keys@.take(i as int),
    {
        owned.push(keys[i].clone());
        assert(owned@ =~= keys@.take(i + 1));
    }
    assert(owned@ =~= keys@);
    let config = ClusterConfig::new(owned);
    match config.validate(schema) {
        Ok(()) => Ok(config),
        Err(e) => Err(e),
    }
}

/// What a clustering rewrite did.
#[derive(Clone, Copy, Debug, PartialEq, Eq, Structural)]
pub struct ClusterStats {
    /// Number of rows processed.
    pub rows_processed: usize,
    /// Number of fragments written.
    pub fragments_written: usize,
    /// Number of indices rebuilt.
    pub indices_rebuilt: usize,
}

impl Default for ClusterStats {
    fn default() -> (s: ClusterStats)
        ensures
            s == (ClusterStats { rows_processed: 0, fragments_written: 0, indices_rebuilt: 0 }),
    {
        ClusterStats { rows_processed: 0, fragments_written: 0, indices_rebuilt: 0 }
    }
}

} // verus!
