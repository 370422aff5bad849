use lancedb_cluster::algorithm::{ClusteringAlgorithm, DirectSortAlgorithm, HilbertCurveAlgorithm};
use lancedb_cluster::batch::{concat_batches, Field, RecordBatch, Schema};
use lancedb_cluster::config::ClusterConfig;
use lancedb_cluster::error::ClusterError;
use lancedb_cluster::execute::{
    execute_cluster_direct, key_column_indices, sort_batch_by_algorithm, split_into_chunks,
    RecordBatchChunkIterator,
};
use lancedb_cluster::value::{DataType, ScalarValue};

fn int32s(values: &[Option<i32>]) -> Vec<ScalarValue> {
    values.iter().map(|v| ScalarValue::Int32(*v)).collect()
}

fn int64s(values: &[i64]) -> Vec<ScalarValue> {
    values.iter().map(|v| ScalarValue::Int64(Some(*v))).collect()
}

fn strings(values: &[&str]) -> Vec<ScalarValue> {
    values.iter().map(|v| ScalarValue::Utf8(Some(v.to_string()))).collect()
}

fn keys(names: &[&str]) -> Vec<String> {
    names.iter().map(|s| s.to_string()).collect()
}

/// A Hilbert curve over values already on its grid, as the curve places
/// values whose column bounds are 0 and 1 with one bit per coordinate.
struct UnitGridHilbert {
    curve: HilbertCurveAlgorithm,
}

impl ClusteringAlgorithm for UnitGridHilbert {
    fn name(&self) -> &str {
        "hilbert"
    }

    fn compute_sort_key(&self, values: &[ScalarValue]) -> Result<Vec<u8>, ClusterError> {
        let coords: Vec<usize> = values
            .iter()
            .map(|v| match v {
                ScalarValue::Int32(Some(x)) => *x as usize,
                _ => 0,
            })
            .collect();
        self.curve.sort_key_from_coords(values, self.curve.dimension(), &coords)
    }
}

fn column_values(batch: &RecordBatch, i: usize) -> Vec<ScalarValue> {
    batch.column(i).clone()
}

#[test]
fn test_sort_batch_by_algorithm_direct() {
    let schema = Schema::new(vec![
        Field::new("id", DataType::Int32, false),
        Field::new("value", DataType::Utf8, true),
    ]);
    let batch = RecordBatch::try_new(
        schema,
        vec![int32s(&[Some(3), Some(1), Some(2)]), strings(&["c", "a", "b"])],
    )
    .unwrap();

    let algo = DirectSortAlgorithm::new();
    let sorted = sort_batch_by_algorithm(&batch, &["id".to_string()], &algo).unwrap();
    assert_eq!(column_values(&sorted, 0), int32s(&[Some(1), Some(2), Some(3)]));
    assert_eq!(column_values(&sorted, 1), strings(&["a", "b", "c"]));
}

#[test]
fn test_sort_batch_by_algorithm_hilbert_2d() {
    let schema = Schema::new(vec![
        Field::new("x", DataType::Int32, false),
        Field::new("y", DataType::Int32, false),
        Field::new("value", DataType::Utf8, false),
    ]);
    let batch = RecordBatch::try_new(
        schema,
        vec![
            int32s(&[Some(1), Some(0), Some(1), Some(0)]),
            int32s(&[Some(0), Some(1), Some(1), Some(0)]),
            strings(&["d", "b", "c", "a"]),
        ],
    )
    .unwrap();
    let algo = UnitGridHilbert { curve: HilbertCurveAlgorithm::new(2).with_bits(1) };
    let sorted = sort_batch_by_algorithm(&batch, &keys(&["x", "y"]), &algo).unwrap();
    assert_eq!(column_values(&sorted, 0), int32s(&[Some(0), Some(0), Some(1), Some(1)]));
    assert_eq!(column_values(&sorted, 1), int32s(&[Some(0), Some(1), Some(1), Some(0)]));
    assert_eq!(column_values(&sorted, 2), strings(&["a", "b", "c", "d"]));
}

#[test]
fn test_sort_batch_by_algorithm_with_nulls() {
    let schema = Schema::new(vec![
        Field::new("x", DataType::Int32, true),
        Field::new("y", DataType::Int32, true),
        Field::new("value", DataType::Utf8, false),
    ]);
    let batch = RecordBatch::try_new(
        schema,
        vec![
            int32s(&[Some(1), None, Some(0)]),
            int32s(&[Some(0), Some(1), Some(1)]),
            strings(&["a", "b", "c"]),
        ],
    )
    .unwrap();
    let algo = UnitGridHilbert { curve: HilbertCurveAlgorithm::new(2).with_bits(1) };
    let sorted = sort_batch_by_algorithm(&batch, &keys(&["x", "y"]), &algo).unwrap();
    assert_eq!(column_values(&sorted, 2), strings(&["c", "a", "b"]));
}

#[test]
fn sort_keeps_null_rows_last_in_their_order() {
    let schema = Schema::new(vec![
        Field::new("id", DataType::Int32, true),
        Field::new("value", DataType::Utf8, false),
    ]);
    let batch = RecordBatch::try_new(
        schema,
        vec![int32s(&[None, Some(2), None, Some(1)]), strings(&["n1", "two", "n2", "one"])],
    )
    .unwrap();
    let sorted = sort_batch_by_algorithm(&batch, &keys(&["id"]), &DirectSortAlgorithm::new()).unwrap();
    assert_eq!(column_values(&sorted, 1), strings(&["one", "two", "n1", "n2"]));
}

#[test]
fn sort_reports_a_missing_key_column() {
    let schema = Schema::new(vec![Field::new("id", DataType::Int32, false)]);
    let batch = RecordBatch::try_new(schema, vec![int32s(&[Some(1)])]).unwrap();
    let err = sort_batch_by_algorithm(&batch, &keys(&["missing"]), &DirectSortAlgorithm::new()).unwrap_err();
    assert_eq!(err.message(), "Column 'missing' not found in batch");
    let empty = RecordBatch::try_new(
        Schema::new(vec![Field::new("id", DataType::Int32, false)]),
        vec![vec![]],
    )
    .unwrap();
    let sorted = sort_batch_by_algorithm(&empty, &keys(&["missing"]), &DirectSortAlgorithm::new()).unwrap();
    assert_eq!(sorted.num_rows(), 0);
}

#[test]
fn record_batch_checks_its_columns() {
    let schema = Schema::new(vec![
        Field::new("a", DataType::Int32, false),
        Field::new("b", DataType::Int32, false),
    ]);
    let err = RecordBatch::try_new(schema.clone(), vec![int32s(&[Some(1)])]).unwrap_err();
    assert_eq!(err, ClusterError::ColumnCountMismatch { fields: 2, columns: 1 });
    let err = RecordBatch::try_new(schema, vec![int32s(&[Some(1)]), int32s(&[])]).unwrap_err();
    assert_eq!(err, ClusterError::ColumnLengthMismatch { index: 1, expected: 1, got: 0 });
    let err = RecordBatch::try_new(Schema::new(vec![]), vec![]).unwrap_err();
    assert_eq!(err, ClusterError::NoColumns);
}

fn id_batch(values: &[i64]) -> RecordBatch {
    RecordBatch::try_new(Schema::new(vec![Field::new("id", DataType::Int64, false)]), vec![int64s(values)]).unwrap()
}

#[test]
fn chunks_cover_the_batch_in_order() {
    let values: Vec<i64> = (0..10).collect();
    let chunks = split_into_chunks(id_batch(&values), 3);
    assert_eq!(chunks.len(), 4);
    let sizes: Vec<usize> = chunks.iter().map(|c| c.num_rows()).collect();
    assert_eq!(sizes, vec![3, 3, 3, 1]);
    let mut all = Vec::new();
    for c in &chunks {
        all.extend(column_values(c, 0));
    }
    assert_eq!(all, int64s(&values));
}

#[test]
fn chunk_iterator_stops_after_the_last_row() {
    let mut it = RecordBatchChunkIterator::new(id_batch(&[1, 2, 3, 4]), 2);
    assert_eq!(column_values(&it.next().unwrap(), 0), int64s(&[1, 2]));
    assert_eq!(column_values(&it.next().unwrap(), 0), int64s(&[3, 4]));
    assert!(it.next().is_none());
    assert!(it.next().is_none());
}

#[test]
fn concat_batches_appends_rows() {
    let schema = Schema::new(vec![Field::new("id", DataType::Int64, false)]);
    let combined = concat_batches(&schema, &vec![id_batch(&[5, 3]), id_batch(&[]), id_batch(&[1])]);
    assert_eq!(combined.num_rows(), 3);
    assert_eq!(column_values(&combined, 0), int64s(&[5, 3, 1]));
    let empty = concat_batches(&schema, &vec![]);
    assert_eq!(empty.num_rows(), 0);
}

#[test]
fn clustering_no_batches_writes_nothing() {
    let schema = Schema::new(vec![Field::new("id", DataType::Int64, false)]);
    let config = ClusterConfig::new(keys(&["id"]));
    let out = execute_cluster_direct(&schema, &vec![], &config, &DirectSortAlgorithm::new(), None).unwrap();
    assert!(out.fragments.is_empty());
    assert_eq!(out.stats.rows_processed, 0);
    assert_eq!(out.stats.fragments_written, 0);
}

#[test]
fn clustering_sorts_and_cuts_into_fragments() {
    let schema = Schema::new(vec![Field::new("id", DataType::Int64, false)]);
    let config = ClusterConfig::new(keys(&["id"]));
    let values: Vec<i64> = (0..100).rev().collect();
    let out = execute_cluster_direct(
        &schema,
        &vec![id_batch(&values[..40]), id_batch(&values[40..])],
        &config,
        &DirectSortAlgorithm::new(),
        Some(25),
    )
    .unwrap();
    assert_eq!(out.stats.rows_processed, 100);
    assert_eq!(out.stats.fragments_written, 4);
    assert_eq!(out.stats.indices_rebuilt, 0);
    let mut all = Vec::new();
    for f in &out.fragments {
        assert_eq!(f.num_rows(), 25);
        all.extend(column_values(f, 0));
    }
    let expected: Vec<i64> = (0..100).collect();
    assert_eq!(all, int64s(&expected));
}

#[test]
fn clustering_uses_one_fragment_by_default() {
    let schema = Schema::new(vec![Field::new("id", DataType::Int64, false)]);
    let config = ClusterConfig::new(keys(&["id"]));
    let out = execute_cluster_direct(
        &schema,
        &vec![id_batch(&[5, 3, 1, 4, 2])],
        &config,
        &DirectSortAlgorithm::new(),
        None,
    )
    .unwrap();
    assert_eq!(out.stats.rows_processed, 5);
    assert_eq!(out.stats.fragments_written, 1);
    assert_eq!(column_values(&out.fragments[0], 0), int64s(&[1, 2, 3, 4, 5]));
}

#[test]
fn clustering_all_null_keys_keeps_every_row() {
    let schema = Schema::new(vec![
        Field::new("id", DataType::Int64, true),
        Field::new("value", DataType::Utf8, false),
    ]);
    let batch = RecordBatch::try_new(
        schema.clone(),
        vec![vec![ScalarValue::Int64(None); 3], strings(&["a", "b", "c"])],
    )
    .unwrap();
    let config = ClusterConfig::new(keys(&["id"]));
    let out = execute_cluster_direct(&schema, &vec![batch], &config, &DirectSortAlgorithm::new(), None).unwrap();
    assert_eq!(out.stats.rows_processed, 3);
    assert_eq!(column_values(&out.fragments[0], 1), strings(&["a", "b", "c"]));
}

#[test]
fn clustering_by_a_missing_column_fails() {
    let schema = Schema::new(vec![Field::new("id", DataType::Int64, false)]);
    let config = ClusterConfig::new(keys(&["missing"]));
    let err = execute_cluster_direct(&schema, &vec![id_batch(&[2, 1])], &config, &DirectSortAlgorithm::new(), None)
        .err()
        .unwrap();
    assert_eq!(err, ClusterError::ColumnNotFoundInBatch { column: "missing".to_string() });
}

#[test]
fn clustering_empty_batches_with_zero_target_writes_nothing() {
    let schema = Schema::new(vec![Field::new("id", DataType::Int64, false)]);
    let config = ClusterConfig::new(keys(&["id"]));
    let out = execute_cluster_direct(&schema, &vec![id_batch(&[]), id_batch(&[])], &config, &DirectSortAlgorithm::new(), Some(0))
        .unwrap();
    assert!(out.fragments.is_empty());
    assert_eq!(out.stats.rows_processed, 0);
    assert_eq!(out.stats.fragments_written, 0);
    assert!(split_into_chunks(id_batch(&[]), 0).is_empty());
}

#[test]
fn sort_passes_the_algorithm_error_through() {
    let schema = Schema::new(vec![
        Field::new("a", DataType::Int32, false),
        Field::new("b", DataType::Int32, false),
    ]);
    let batch = RecordBatch::try_new(schema.clone(), vec![int32s(&[Some(1)]), int32s(&[Some(2)])]).unwrap();
    let err = sort_batch_by_algorithm(&batch, &keys(&["a", "b"]), &DirectSortAlgorithm::new()).unwrap_err();
    assert_eq!(err, ClusterError::DirectValueCount { got: 2 });
    let config = ClusterConfig::new(keys(&["a", "b"]));
    let err = execute_cluster_direct(&schema, &vec![batch], &config, &DirectSortAlgorithm::new(), None)
        .err()
        .unwrap();
    assert_eq!(err, ClusterError::DirectValueCount { got: 2 });
}

#[test]
fn chunk_iterator_hands_out_ceil_pieces_at_multiples_of_the_size() {
    let values: Vec<i64> = (0..10).collect();
    let mut it = RecordBatchChunkIterator::new(id_batch(&values), 3);
    let mut starts = Vec::new();
    while let Some(c) = it.next() {
        starts.push(column_values(&c, 0)[0].clone());
    }
    assert_eq!(starts, int64s(&[0, 3, 6, 9]));
    assert!(it.next().is_none());
}

#[test]
fn key_columns_are_found_in_order_or_the_first_missing_is_named() {
    let schema = Schema::new(vec![
        Field::new("a", DataType::Int32, false),
        Field::new("b", DataType::Int32, false),
        Field::new("a", DataType::Int64, false),
    ]);
    assert_eq!(key_column_indices(&schema, &keys(&["b", "a"])).unwrap(), vec![1, 0]);
    assert_eq!(key_column_indices(&schema, &keys(&[])).unwrap(), Vec::<usize>::new());
    assert_eq!(
        key_column_indices(&schema, &keys(&["a", "x", "y"])).unwrap_err(),
        ClusterError::ColumnNotFoundInBatch { column: "x".to_string() }
    );
}

/// An algorithm that refuses rows whose single value is odd, naming the value.
struct RefuseOdd;

impl ClusteringAlgorithm for RefuseOdd {
    fn name(&self) -> &str {
        "refuse-odd"
    }

    fn compute_sort_key(&self, values: &[ScalarValue]) -> Result<Vec<u8>, ClusterError> {
        match values[0] {
            ScalarValue::Int32(Some(x)) if x % 2 != 0 => Err(ClusterError::InvalidDimension { dimension: x as usize }),
            _ => Ok(vec![]),
        }
    }
}

/// An algorithm whose preparation always fails.
struct FailingPrepare;

impl ClusteringAlgorithm for FailingPrepare {
    fn name(&self) -> &str {
        "failing"
    }

    fn prepare(&self, _batches: &[RecordBatch], _keys: &[String]) -> Result<(), ClusterError> {
        Err(ClusterError::HilbertNotPrepared)
    }

    fn compute_sort_key(&self, _values: &[ScalarValue]) -> Result<Vec<u8>, ClusterError> {
        Ok(vec![])
    }
}

#[test]
fn sort_returns_the_error_of_the_first_refused_row() {
    let schema = Schema::new(vec![Field::new("id", DataType::Int32, true)]);
    let batch = RecordBatch::try_new(schema, vec![int32s(&[Some(2), None, Some(5), Some(3)])]).unwrap();
    let err = sort_batch_by_algorithm(&batch, &keys(&["id"]), &RefuseOdd).unwrap_err();
    assert_eq!(err, ClusterError::InvalidDimension { dimension: 5 });
}

#[test]
fn clustering_returns_a_failed_preparation() {
    let schema = Schema::new(vec![Field::new("id", DataType::Int64, false)]);
    let config = ClusterConfig::new(keys(&["id"]));
    let err = execute_cluster_direct(&schema, &vec![id_batch(&[2, 1])], &config, &FailingPrepare, None)
        .err()
        .unwrap();
    assert_eq!(err, ClusterError::HilbertNotPrepared);
}
