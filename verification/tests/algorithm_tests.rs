use lancedb_cluster::algorithm::{get_algorithm, hilbert_with_bits, Algorithm, HilbertCurveAlgorithm};
use lancedb_cluster::config::ClusterConfig;
use lancedb_cluster::error::ClusterError;
use lancedb_cluster::value::ScalarValue;

#[test]
fn test_get_algorithm() {
    let algo = get_algorithm(1, None, None).unwrap();
    assert_eq!(algo.name(), "direct");

    let algo = get_algorithm(2, None, None).unwrap();
    assert_eq!(algo.name(), "hilbert");

    let algo = get_algorithm(3, None, None).unwrap();
    assert_eq!(algo.name(), "hilbert");

    let algo = get_algorithm(4, None, None).unwrap();
    assert_eq!(algo.name(), "hilbert");

    assert!(get_algorithm(5, None, None).is_err());
}

#[test]
fn get_algorithm_reads_bits_parameter() {
    match get_algorithm(2, Some("hilbert"), Some("{\"bits\": 8}")).unwrap() {
        Algorithm::Hilbert(h) => {
            assert_eq!(h.dimension(), 2);
            assert_eq!(h.bits(), 8);
        }
        Algorithm::Direct(_) => panic!("expected the Hilbert curve"),
    }
    match get_algorithm(3, Some("auto"), Some("{\"other\": 1}")).unwrap() {
        Algorithm::Hilbert(h) => assert_eq!(h.bits(), 16),
        Algorithm::Direct(_) => panic!("expected the Hilbert curve"),
    }
    match get_algorithm(4, None, Some("not json")).unwrap() {
        Algorithm::Hilbert(h) => assert_eq!(h.bits(), 16),
        Algorithm::Direct(_) => panic!("expected the Hilbert curve"),
    }
}

#[test]
fn get_algorithm_refuses_too_many_bits() {
    let err = get_algorithm(3, None, Some("{\"bits\": 22}")).unwrap_err();
    assert_eq!(err, ClusterError::HilbertBitsExceed { dimension: 3, bits: 22 });
    assert_eq!(
        err.message(),
        "Hilbert curve dimension (3) * bits (22) exceeds 64, which is not supported"
    );
    assert!(get_algorithm(2, None, Some("{\"bits\": 32}")).is_ok());
}

#[test]
fn get_algorithm_refuses_unknown_names_and_dimensions() {
    let err = get_algorithm(1, Some("hilbert"), None).unwrap_err();
    assert_eq!(err.message(), "Unknown clustering algorithm 'hilbert' for 1D");
    let err = get_algorithm(2, Some("direct"), None).unwrap_err();
    assert_eq!(err.message(), "Unknown clustering algorithm 'direct' for 2D");
    let err = get_algorithm(0, None, None).unwrap_err();
    assert_eq!(err, ClusterError::InvalidDimension { dimension: 0 });
    assert_eq!(err.message(), "Invalid clustering dimension: 0");
    assert!(matches!(get_algorithm(1, Some("direct"), None), Ok(Algorithm::Direct(_))));
}

fn ints(values: &[i64]) -> Vec<ScalarValue> {
    values.iter().map(|v| ScalarValue::Int64(Some(*v))).collect()
}

/// The grid coordinates of a row: each value scaled between the smallest
/// and largest value of its column to `0..=max_coordinate`, as the curve's
/// preparation and scaling do.
fn grid_coords(curve: &HilbertCurveAlgorithm, columns: &[Vec<Option<i64>>], values: &[Option<i64>]) -> Vec<usize> {
    let max_coord = curve.max_coordinate() as f64;
    values
        .iter()
        .enumerate()
        .map(|(i, v)| match v {
            None => 0,
            Some(v) => {
                let present: Vec<f64> = columns[i].iter().flatten().map(|x| *x as f64).collect();
                let min = present.iter().cloned().fold(f64::INFINITY, f64::min);
                let max = present.iter().cloned().fold(f64::NEG_INFINITY, f64::max);
                let normalized = if max == min { 0.0 } else { ((*v as f64 - min) / (max - min)).clamp(0.0, 1.0) };
                (normalized * max_coord).round() as usize
            }
        })
        .collect()
}

fn prepared_key(curve: &HilbertCurveAlgorithm, columns: &[Vec<Option<i64>>], values: &[Option<i64>]) -> Vec<u8> {
    let cells: Vec<ScalarValue> = values.iter().map(|v| match v {
        Some(x) => ScalarValue::Int64(Some(*x)),
        None => ScalarValue::Null,
    }).collect();
    curve
        .sort_key_from_coords(&cells, columns.len(), &grid_coords(curve, columns, values))
        .unwrap()
}

fn col(values: &[i64]) -> Vec<Option<i64>> {
    values.iter().map(|v| Some(*v)).collect()
}

#[test]
fn test_hilbert_curve_algorithm_2d() {
    let algo = HilbertCurveAlgorithm::new(2).with_bits(1);
    let columns = vec![col(&[0, 0, 1, 1]), col(&[0, 1, 1, 0])];
    let key_00 = prepared_key(&algo, &columns, &[Some(0), Some(0)]);
    let key_01 = prepared_key(&algo, &columns, &[Some(0), Some(1)]);
    let key_11 = prepared_key(&algo, &columns, &[Some(1), Some(1)]);
    let key_10 = prepared_key(&algo, &columns, &[Some(1), Some(0)]);
    assert!(key_00 < key_01);
    assert!(key_01 < key_11);
    assert!(key_11 < key_10);
    assert_eq!(key_10, vec![0, 0, 0, 0, 0, 0, 0, 3]);
}

#[test]
fn test_hilbert_curve_algorithm_3d() {
    let algo = HilbertCurveAlgorithm::new(3).with_bits(1);
    let columns = vec![
        col(&[0, 0, 0, 0, 1, 1, 1, 1]),
        col(&[0, 0, 1, 1, 0, 0, 1, 1]),
        col(&[0, 1, 0, 1, 0, 1, 0, 1]),
    ];
    let mut keys = Vec::new();
    for x in [0, 1] {
        for y in [0, 1] {
            for z in [0, 1] {
                keys.push(prepared_key(&algo, &columns, &[Some(x), Some(y), Some(z)]));
            }
        }
    }
    keys.sort();
    for i in 1..keys.len() {
        assert_ne!(keys[i - 1], keys[i], "Hilbert keys should be distinct");
    }
}

#[test]
fn test_hilbert_sort_key_locality() {
    let algo = HilbertCurveAlgorithm::new(2).with_bits(8);
    let columns = vec![col(&[0, 100]), col(&[0, 100])];
    let key_near = prepared_key(&algo, &columns, &[Some(0), Some(0)]);
    let key_far = prepared_key(&algo, &columns, &[Some(100), Some(100)]);
    assert!(!key_near.is_empty());
    assert!(!key_far.is_empty());
    assert_ne!(key_near, key_far);
}

#[test]
fn test_hilbert_algorithm_with_null_values() {
    let algo = HilbertCurveAlgorithm::new(2).with_bits(1);
    let columns = vec![col(&[0, 1]), vec![Some(0), None]];
    let key_valid = prepared_key(&algo, &columns, &[Some(0), Some(0)]);
    let key_null = prepared_key(&algo, &columns, &[Some(1), None]);
    assert!(key_null.is_empty());
    assert!(!key_valid.is_empty());
}

#[test]
fn hilbert_checks_count_preparation_and_dimension() {
    let algo = HilbertCurveAlgorithm::new(2);
    assert_eq!(algo.max_coordinate(), 65535);
    assert_eq!(algo.name(), "hilbert");
    let err = algo.sort_key_from_coords(&ints(&[1]), 2, &[1]).unwrap_err();
    assert_eq!(err.message(), "Hilbert curve requires exactly 2 values, got 1");
    let err = algo.sort_key_from_coords(&ints(&[1, 2]), 0, &[1, 2]).unwrap_err();
    assert_eq!(err, ClusterError::HilbertNotPrepared);
    assert_eq!(err.message(), "Hilbert algorithm not prepared");
    let five = HilbertCurveAlgorithm::new(5).with_bits(4);
    let err = five.sort_key_from_coords(&ints(&[1, 2, 3, 4, 5]), 5, &[1, 2, 3, 4, 5]).unwrap_err();
    assert_eq!(err.message(), "Hilbert curve does not support dimension 5");
    let mut with_null = ints(&[1, 1, 1, 1, 1]);
    with_null[0] = ScalarValue::Null;
    let key = five.sort_key_from_coords(&with_null, 5, &[0, 1, 1, 1, 1]).unwrap();
    assert!(key.is_empty());
}

#[test]
fn hilbert_keys_order_by_index_at_higher_levels() {
    let algo = HilbertCurveAlgorithm::new(2).with_bits(3);
    let points: [(i64, i64); 9] = [(0, 0), (0, 1), (1, 1), (1, 0), (2, 0), (3, 0), (3, 1), (2, 1), (2, 2)];
    let keys: Vec<Vec<u8>> = points
        .iter()
        .map(|(x, y)| algo.sort_key_from_coords(&ints(&[*x, *y]), 2, &[*x as usize, *y as usize]).unwrap())
        .collect();
    for (i, k) in keys.iter().enumerate() {
        assert_eq!(k, &vec![0, 0, 0, 0, 0, 0, 0, i as u8]);
    }
}

#[test]
fn hilbert_with_bits_defaults_and_limits() {
    let h = hilbert_with_bits(2, None).unwrap();
    assert_eq!((h.dimension(), h.bits()), (2, 16));
    let h = hilbert_with_bits(4, Some(16)).unwrap();
    assert_eq!((h.dimension(), h.bits()), (4, 16));
    assert_eq!(
        hilbert_with_bits(4, Some(17)).unwrap_err(),
        ClusterError::HilbertBitsExceed { dimension: 4, bits: 17 }
    );
    assert!(hilbert_with_bits(3, Some(u64::MAX)).is_err());
}

#[test]
fn a_new_configuration_names_the_algorithm_chosen_for_its_keys() {
    for n in 1..=4usize {
        let keys: Vec<String> = (0..n).map(|i| format!("k{}", i)).collect();
        let config = ClusterConfig::new(keys);
        let chosen = get_algorithm(n, Some(&config.algorithm), None).unwrap();
        assert_eq!(chosen.name(), config.algorithm);
        assert_eq!(chosen, get_algorithm(n, None, None).unwrap());
    }
}

#[test]
fn hilbert_keys_stay_below_two_to_the_dimension_times_bits() {
    let algo = HilbertCurveAlgorithm::new(3).with_bits(5);
    for x in [0usize, 7, 31] {
        for y in [0usize, 16, 31] {
            for z in [0usize, 1, 31] {
                let key = algo
                    .sort_key_from_coords(&ints(&[x as i64, y as i64, z as i64]), 3, &[x, y, z])
                    .unwrap();
                assert_eq!(key.len(), std::mem::size_of::<usize>());
                let index = usize::from_be_bytes(key.try_into().unwrap());
                assert!(index < 1 << 15);
            }
        }
    }
}
