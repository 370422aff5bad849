# lancedb_cluster

Multi-dimensional clustering of a columnar table: the rows are rewritten in
the order of their clustering keys so that range queries can skip data.

- `src/` is verified with Verus.
  - `value.rs`: column types and cells (floats are held as IEEE-754 bits).
  - `sort_key.rs`: order-preserving byte keys and the proofs that byte order
    follows value order.
  - `algorithm.rs`: the `ClusteringAlgorithm` trait, the direct sort, the
    Hilbert curve (on grid coordinates), and the choice of algorithm.
  - `config.rs`: the clustering configuration and its checks.
  - `batch.rs`: schemas and record batches.
  - `execute.rs`: sorting a batch by an algorithm, cutting it into fragments,
    and the computing part of a clustering rewrite.
  - `error.rs`: errors and their messages.
- `app/` holds what the library does not: JSON storage of the configuration,
  Arrow conversion, the floating-point scaling of the Hilbert curve, and the
  driver over Arrow batches.
- `tests/` runs the library on concrete values.
