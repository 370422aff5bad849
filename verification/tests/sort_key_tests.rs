use lancedb_cluster::algorithm::{ClusteringAlgorithm, DirectSortAlgorithm};
use lancedb_cluster::sort_key::scalar_value_to_sort_key;
use lancedb_cluster::value::ScalarValue;

fn f64_value(x: f64) -> ScalarValue {
    ScalarValue::Float64(Some(x.to_bits()))
}

fn f32_value(x: f32) -> ScalarValue {
    ScalarValue::Float32(Some(x.to_bits()))
}

#[test]
fn test_direct_sort_algorithm() {
    let algo = DirectSortAlgorithm::new();
    assert_eq!(algo.name(), "direct");

    let value = ScalarValue::Int32(Some(42));
    let key = algo.compute_sort_key(&[value]).unwrap();
    assert!(!key.is_empty());

    let result =
        algo.compute_sort_key(&[ScalarValue::Int32(Some(1)), ScalarValue::Int32(Some(2))]);
    assert!(result.is_err());
}

#[test]
fn test_scalar_value_to_sort_key_ordering() {
    let key_neg = scalar_value_to_sort_key(&ScalarValue::Int32(Some(-100)));
    let key_zero = scalar_value_to_sort_key(&ScalarValue::Int32(Some(0)));
    let key_pos = scalar_value_to_sort_key(&ScalarValue::Int32(Some(100)));
    assert!(key_neg < key_zero);
    assert!(key_zero < key_pos);

    let key_neg_f = scalar_value_to_sort_key(&f64_value(-100.0));
    let key_zero_f = scalar_value_to_sort_key(&f64_value(0.0));
    let key_pos_f = scalar_value_to_sort_key(&f64_value(100.0));
    assert!(key_neg_f < key_zero_f);
    assert!(key_zero_f < key_pos_f);
}

#[test]
fn sort_key_bytes_of_signed_integers() {
    assert_eq!(scalar_value_to_sort_key(&ScalarValue::Int8(Some(-128))), vec![0x00]);
    assert_eq!(scalar_value_to_sort_key(&ScalarValue::Int8(Some(5))), vec![0x85]);
    assert_eq!(scalar_value_to_sort_key(&ScalarValue::Int16(Some(-1))), vec![0x7f, 0xff]);
    assert_eq!(scalar_value_to_sort_key(&ScalarValue::Int32(Some(0))), vec![0x80, 0, 0, 0]);
    assert_eq!(
        scalar_value_to_sort_key(&ScalarValue::Int64(Some(1))),
        vec![0x80, 0, 0, 0, 0, 0, 0, 1]
    );
    assert_eq!(
        scalar_value_to_sort_key(&ScalarValue::Date32(Some(258))),
        vec![0x80, 0, 1, 2]
    );
}

#[test]
fn sort_key_bytes_of_unsigned_integers() {
    assert_eq!(scalar_value_to_sort_key(&ScalarValue::UInt8(Some(7))), vec![7]);
    assert_eq!(scalar_value_to_sort_key(&ScalarValue::UInt16(Some(258))), vec![1, 2]);
    assert_eq!(
        scalar_value_to_sort_key(&ScalarValue::UInt32(Some(0x0102_0304))),
        vec![1, 2, 3, 4]
    );
    assert_eq!(
        scalar_value_to_sort_key(&ScalarValue::UInt64(Some(u64::MAX))),
        vec![0xff; 8]
    );
}

#[test]
fn null_integers_sort_as_the_smallest_value() {
    assert_eq!(
        scalar_value_to_sort_key(&ScalarValue::Int32(None)),
        scalar_value_to_sort_key(&ScalarValue::Int32(Some(i32::MIN)))
    );
    assert_eq!(
        scalar_value_to_sort_key(&ScalarValue::UInt16(None)),
        scalar_value_to_sort_key(&ScalarValue::UInt16(Some(0)))
    );
    assert_eq!(
        scalar_value_to_sort_key(&ScalarValue::TimestampMillisecond(None, None)),
        vec![0; 8]
    );
}

#[test]
fn float_keys_follow_numeric_order() {
    let values = [f64::NEG_INFINITY, -1e300, -2.5, -1e-300, 0.0, 1e-300, 3.0, f64::INFINITY];
    let keys: Vec<Vec<u8>> = values.iter().map(|x| scalar_value_to_sort_key(&f64_value(*x))).collect();
    for i in 1..keys.len() {
        assert!(keys[i - 1] < keys[i]);
    }
    let small = scalar_value_to_sort_key(&f32_value(-0.5));
    let large = scalar_value_to_sort_key(&f32_value(0.25));
    assert!(small < large);
    assert_eq!(scalar_value_to_sort_key(&f32_value(1.0)), vec![0xbf, 0x80, 0, 0]);
}

#[test]
fn nan_and_null_floats_sort_last() {
    let nan = scalar_value_to_sort_key(&f64_value(f64::NAN));
    assert_eq!(nan, vec![0xff; 8]);
    assert_eq!(scalar_value_to_sort_key(&ScalarValue::Float64(None)), nan);
    assert!(scalar_value_to_sort_key(&f64_value(f64::INFINITY)) < nan);
    assert_eq!(scalar_value_to_sort_key(&ScalarValue::Float32(None)), vec![0xff; 4]);
}

#[test]
fn negative_zero_sorts_with_positive_zero() {
    let neg_zero = scalar_value_to_sort_key(&f64_value(-0.0));
    assert_eq!(neg_zero, vec![0x80, 0, 0, 0, 0, 0, 0, 0]);
    assert_eq!(neg_zero, scalar_value_to_sort_key(&f64_value(0.0)));
    assert!(scalar_value_to_sort_key(&f64_value(-1.0)) < neg_zero);
    assert!(scalar_value_to_sort_key(&f64_value(f64::NEG_INFINITY)) < neg_zero);
    assert!(neg_zero < scalar_value_to_sort_key(&f64_value(1e-300)));
    let neg_zero32 = scalar_value_to_sort_key(&f32_value(-0.0));
    assert_eq!(neg_zero32, vec![0x80, 0, 0, 0]);
    assert_eq!(neg_zero32, scalar_value_to_sort_key(&f32_value(0.0)));
    assert!(scalar_value_to_sort_key(&f32_value(-1.0)) < neg_zero32);
}

#[test]
fn timestamps_sort_by_value() {
    let a = scalar_value_to_sort_key(&ScalarValue::TimestampSecond(Some(-5), None));
    let b = scalar_value_to_sort_key(&ScalarValue::TimestampSecond(Some(7), Some("UTC".to_string())));
    assert!(a < b);
    assert_eq!(b.len(), 8);
}

#[test]
fn untyped_null_and_strings_have_empty_keys() {
    assert!(scalar_value_to_sort_key(&ScalarValue::Null).is_empty());
    assert!(scalar_value_to_sort_key(&ScalarValue::Utf8(Some("a".to_string()))).is_empty());
    assert!(scalar_value_to_sort_key(&ScalarValue::Boolean(Some(true))).is_empty());
}

#[test]
fn direct_key_is_the_value_key_and_count_error_message() {
    let algo = DirectSortAlgorithm::default();
    let key = algo.compute_sort_key(&[ScalarValue::UInt8(Some(9))]).unwrap();
    assert_eq!(key, vec![9]);
    let err = algo.compute_sort_key(&[]).unwrap_err();
    assert_eq!(err.message(), "Direct sort requires exactly 1 value, got 0");
}
