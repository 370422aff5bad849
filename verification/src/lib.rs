//! Multi-dimensional clustering for columnar tables: configuration checks,
//! order-preserving sort keys, algorithm selection, and the row reordering
//! that a clustering rewrite performs.

pub mod error;
pub mod value;
pub mod batch;
pub mod algorithm;
pub mod config;
pub mod execute;
pub mod sort_key;
