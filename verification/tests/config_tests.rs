use lancedb_cluster::batch::{Field, Schema};
use lancedb_cluster::config::{validate_cluster_keys, ClusterConfig, ClusterStats, SCHEMA_METADATA_KEY};
use lancedb_cluster::error::ClusterError;
use lancedb_cluster::value::{DataType, TimeUnit};

fn create_test_schema() -> Schema {
    Schema::new(vec![
        Field::new("id", DataType::Int64, false),
        Field::new("timestamp", DataType::Int64, false),
        Field::new("value", DataType::Float64, true),
        Field::new("name", DataType::Utf8, true),
    ])
}

fn keys(names: &[&str]) -> Vec<String> {
    names.iter().map(|s| s.to_string()).collect()
}

#[test]
fn test_cluster_config_validation_success() {
    let schema = create_test_schema();
    let config = ClusterConfig::new(vec!["id".to_string()]);
    assert!(config.validate(&schema).is_ok());

    let config = ClusterConfig::new(vec!["id".to_string(), "timestamp".to_string()]);
    assert!(config.validate(&schema).is_ok());
}

#[test]
fn test_cluster_config_validation_empty_keys() {
    let schema = create_test_schema();
    let config = ClusterConfig::new(vec![]);
    let result = config.validate(&schema);
    assert!(result.is_err());
    assert!(result.unwrap_err().message().contains("cannot be empty"));
}

#[test]
fn test_cluster_config_validation_too_many_keys() {
    let schema = create_test_schema();
    let config = ClusterConfig::new(vec![
        "id".to_string(),
        "timestamp".to_string(),
        "value".to_string(),
        "name".to_string(),
        "extra".to_string(),
    ]);
    let result = config.validate(&schema);
    assert!(result.is_err());
    assert!(result.unwrap_err().message().contains("exceeds maximum of 4"));
}

#[test]
fn test_cluster_config_validation_duplicate_keys() {
    let schema = create_test_schema();
    let config = ClusterConfig::new(vec!["id".to_string(), "id".to_string()]);
    let result = config.validate(&schema);
    assert!(result.is_err());
    assert!(result.unwrap_err().message().contains("Duplicate clustering key"));
}

#[test]
fn test_cluster_config_validation_column_not_found() {
    let schema = create_test_schema();
    let config = ClusterConfig::new(vec!["nonexistent".to_string()]);
    let result = config.validate(&schema);
    assert!(result.is_err());
    assert!(result.unwrap_err().message().contains("not found in schema"));
}

#[test]
fn test_cluster_config_validation_unsupported_type() {
    let schema = create_test_schema();
    let config = ClusterConfig::new(vec!["name".to_string()]);
    let result = config.validate(&schema);
    assert!(result.is_err());
    assert!(result.unwrap_err().message().contains("not supported for clustering"));
}

#[test]
fn test_cluster_config_auto_algorithm_selection() {
    let config1 = ClusterConfig::new(vec!["id".to_string()]);
    assert_eq!(config1.algorithm, "direct");

    let config2 = ClusterConfig::new(vec!["id".to_string(), "timestamp".to_string()]);
    assert_eq!(config2.algorithm, "hilbert");
}

#[test]
fn validation_messages_name_the_key() {
    let schema = create_test_schema();
    let err = ClusterConfig::new(keys(&["id", "value", "id"])).validate(&schema).unwrap_err();
    assert_eq!(err.message(), "Duplicate clustering key column: id");
    let err = ClusterConfig::new(keys(&["id", "missing"])).validate(&schema).unwrap_err();
    assert_eq!(err.message(), "Clustering key column 'missing' not found in schema");
    let err = ClusterConfig::new(keys(&["name"])).validate(&schema).unwrap_err();
    assert_eq!(err, ClusterError::UnsupportedType { data_type: DataType::Utf8 });
    assert_eq!(err.message(), "Type 'Utf8' is not supported for clustering");
    let err = ClusterConfig::new(keys(&["a", "b", "c", "d", "e"])).validate(&schema).unwrap_err();
    assert_eq!(err.message(), "Clustering keys count 5 exceeds maximum of 4");
}

#[test]
fn validation_checks_names_before_the_schema() {
    let schema = create_test_schema();
    let err = ClusterConfig::new(keys(&["missing", ""])).validate(&schema).unwrap_err();
    assert_eq!(err, ClusterError::EmptyKeyName);
    assert_eq!(err.message(), "Empty clustering key column name");
    let err = ClusterConfig::new(keys(&["missing", "name"])).validate(&schema).unwrap_err();
    assert_eq!(err, ClusterError::KeyNotInSchema { key: "missing".to_string() });
}

#[test]
fn time_columns_can_be_clustered() {
    let schema = Schema::new(vec![
        Field::new("ts", DataType::Timestamp(TimeUnit::Microsecond, Some("UTC".to_string())), false),
        Field::new("day", DataType::Date32, true),
        Field::new("ms", DataType::Date64, true),
        Field::new("flag", DataType::Boolean, true),
    ]);
    assert!(ClusterConfig::new(keys(&["ts", "day", "ms"])).validate(&schema).is_ok());
    assert!(ClusterConfig::new(keys(&["flag"])).validate(&schema).is_err());
}

#[test]
fn validate_cluster_keys_builds_the_configuration() {
    let schema = create_test_schema();
    let config = validate_cluster_keys(&keys(&["id", "value"]), &schema).unwrap();
    assert_eq!(config.keys, keys(&["id", "value"]));
    assert_eq!(config.algorithm, "hilbert");
    assert_eq!(config.algorithm_params, None);
    assert!(validate_cluster_keys(&keys(&[]), &schema).is_err());
}

#[test]
fn with_algorithm_replaces_only_the_algorithm() {
    let config = ClusterConfig::new(keys(&["id", "timestamp"])).with_algorithm("zorder");
    assert_eq!(config.algorithm, "zorder");
    assert_eq!(config.keys, keys(&["id", "timestamp"]));
    assert_eq!(SCHEMA_METADATA_KEY, "lancedb.cluster.config");
}

#[test]
fn default_stats_are_zero() {
    let stats = ClusterStats::default();
    assert_eq!(stats.rows_processed, 0);
    assert_eq!(stats.fragments_written, 0);
    assert_eq!(stats.indices_rebuilt, 0);
}

#[test]
fn key_check_and_config_check_fail_alike() {
    let schema = create_test_schema();
    for names in [&["id", "id"][..], &["id", "missing", "name"][..], &["name"][..], &["", "id"][..], &[][..]] {
        let from_keys = validate_cluster_keys(&keys(names), &schema).unwrap_err();
        let from_config = ClusterConfig::new(keys(names)).validate(&schema).unwrap_err();
        assert_eq!(from_keys.message(), from_config.message());
        assert_eq!(from_keys, from_config);
    }
}
