//! Reordering rows along a clustering algorithm, and cutting the result into
//! fragments.

use arrow_array::{Array, BinaryArray};
use arrow_ord::sort::{SortOptions, sort_to_indices};
use vstd::prelude::*;
use vstd::set_lib::{lemma_int_range, lemma_set_subset_finite, lemma_subset_equality, set_int_range};

use crate::algorithm::{ClusteringAlgorithm, DirectSortAlgorithm};
use crate::batch::{Field, RecordBatch, Schema, concat_batches, concat_column, first_index_of, is_first_index, shaped, total_rows};
use crate::config::{ClusterConfig, ClusterStats};
use crate::error::ClusterError;
use crate::sort_key::{integer_value, lemma_integer_sort_key_order, lex_lt, same_type, spec_sort_key};
use crate::value::{ScalarValue, spec_is_null};

verus! {

/// The bytes of each optional sort key.
pub open spec fn key_views(keys: Seq<Option<Vec<u8>>>) -> Seq<Option<Seq<u8>>> {
    keys.map_values(|k: Option<Vec<u8>>| match k {
        Some(v) => Some(v@),
        None => None,
    })
}

/// Whether the row with key `a` at position `ia` may come before the row
/// with key `b` at position `ib`: keys in ascending byte order, rows without
/// a key last, in their original order.
pub open spec fn may_precede(a: Option<Seq<u8>>, b: Option<Seq<u8>>, ia: int, ib: int) -> bool {
    match (a, b) {
        (Some(x), Some(y)) => !lex_lt(y, x),
        (Some(_), None) => true,
        (None, Some(_)) => false,
        (None, None) => ia < ib,
    }
}

/// Whether `idx` lists every row of `keys` once, in an order that sorts the keys.
pub open spec fn sorts_keys(keys: Seq<Option<Seq<u8>>>, idx: Seq<u32>) -> bool {
    &&& idx.len() == keys.len()
    &&& forall|i: int| 0 <= i < idx.len() ==> (#[trigger] idx[i]) < keys.len()
    &&& forall|i: int, j: int| 0 <= i < j < idx.len() ==> #[trigger] idx[i] != #[trigger] idx[j]
    &&& forall|i: int, j: int|
        0 <= i < j < idx.len() ==> may_precede(
            keys[#[trigger] idx[i] as int],
            keys[#[trigger] idx[j] as int],
            idx[i] as int,
            idx[j] as int,
        )
}

/// The number of bytes of all keys together.
pub open spec fn key_bytes(keys: Seq<Option<Seq<u8>>>) -> nat
    decreases keys.len(),
{
    if keys.len() == 0 {
        0
    } else {
        key_bytes(keys.drop_last()) + match keys.last() {
            Some(k) => k.len(),
            None => 0,
        }
    }
}

/// `sort_to_indices` of `arrow_ord` on a binary array of the keys, ascending
/// with nulls last. The crate's byte-array sort lists the valid entries
/// ordered by `Ord` on byte slices (an unstable sort, so rows with equal keys
/// come in some order), then the null entries in ascending position; a
/// binary array is always accepted. The positions are `u32`, and the keys'
/// bytes are counted with `i32` offsets, hence the two limits.
#[verifier::external_body]
fn sort_keys_to_indices(keys: &Vec<Option<Vec<u8>>>) -> (idx: Vec<u32>)
    requires
        keys@.len() <= u32::MAX,
        key_bytes(key_views(keys@)) <= i32::MAX,
    ensures
        sorts_keys(key_views(keys@), idx@),
{
    let array = BinaryArray::from(keys.iter().map(|k| k.as_deref()).collect::<Vec<Option<&[u8]>>>());
    let options = SortOptions { descending: false, nulls_first: false };
    match sort_to_indices(&array as &dyn Array, Some(options), None) {
        Ok(indices) => indices.values().to_vec(),
        // Not reached: sorting a binary array never fails.
        Err(_) => Vec::new(),
    }
}

/// The names of the fields of a batch.
pub open spec fn field_names(b: RecordBatch) -> Seq<Seq<char>> {
    b.fields().map_values(|f: Field| f.name@)
}

/// The column that `key` names in a batch, the first of that name.
pub open spec fn key_column(b: RecordBatch, key: Seq<char>) -> Option<int> {
    first_index_of(field_names(b), key)
}

/// Whether every key names a column of the batch.
pub open spec fn all_keys_found(b: RecordBatch, keys: Seq<Seq<char>>) -> bool {
    forall|i: int| 0 <= i < keys.len() ==> (#[trigger] key_column(b, keys[i])) is Some
}

/// Whether key `i` is the first that names no column of the batch.
pub open spec fn first_missing_key(b: RecordBatch, keys: Seq<Seq<char>>, i: int) -> bool {
    &&& 0 <= i < keys.len()
    &&& key_column(b, keys[i]) is None
    &&& forall|j: int| 0 <= j < i ==> (#[trigger] key_column(b, keys[j])) is Some
}

/// The values of row `r` in the key columns, in key order.
pub open spec fn row_key_values(b: RecordBatch, keys: Seq<Seq<char>>, r: int) -> Seq<ScalarValue> {
    keys.map_values(|k: Seq<char>| b.columns()[key_column(b, k).unwrap()][r])
}

/// The columns that the keys name in a schema, the first column of each
/// name; the first key that names no column is refused.
pub fn key_column_indices(schema: &Schema, keys: &[String]) -> (r: Result<Vec<usize>, ClusterError>)
    ensures
        r is Ok <==> forall|i: int|
            0 <= i < keys@.len() ==> (#[trigger] first_index_of(schema.names(), keys@[i]@)) is Some,
        r matches Ok(cols) ==> cols@.len() == keys@.len() && forall|i: int|
            0 <= i < keys@.len() ==> first_index_of(schema.names(), keys@[i]@) == Some(
                #[trigger] cols@[i] as int,
            ),
        r matches Err(e) ==> exists|i: int|
            {
                &&& 0 <= i < keys@.len()
                &&& first_index_of(schema.names(), keys@[i]@) is None
                &&& forall|j: int|
                    0 <= j < i ==> (#[trigger] first_index_of(schema.names(), keys@[j]@)) is Some
                &&& e matches ClusterError::ColumnNotFoundInBatch { column } && column@ == keys@[i]@
            },
{
    let mut cols: Vec<usize> = Vec::new();
    let n = keys.len();
    for k in 0..n
        invariant
            n == keys@.len(),
            cols@.len() == k,
            forall|i: int|
                0 <= i < k ==> first_index_of(schema.names(), keys@[i]@) == Some(#[trigger] cols@[i] as int),
    {
        let name = keys[k].as_str();
        assert(name@ == keys@[k as int]@);
        match schema.index_of(name) {
            Some(c) => {
                cols.push(c);
                assert(cols@[k as int] == c);
            },
            None => {
                let column = keys[k].clone();
                proof {
                    assert forall|j: int| 0 <= j < k implies (#[trigger] first_index_of(
                        schema.names(),
                        keys@[j]@,
                    )) is Some by {
                        assert(first_index_of(schema.names(), keys@[j]@) == Some(cols@[j] as int));
                    }
                    assert(first_index_of(schema.names(), keys@[k as int]@) is None);
                }
                return Err(ClusterError::ColumnNotFoundInBatch { column });
            },
        }
    }
    proof {
        assert forall|i: int| 0 <= i < keys@.len() implies (#[trigger] first_index_of(
            schema.names(),
            keys@[i]@,
        )) is Some by {
            assert(first_index_of(schema.names(), keys@[i]@) == Some(cols@[i] as int));
        }
    }
    Ok(cols)
}

/// Whether row `r` has a NULL in a key column.
pub open spec fn row_has_null(b: RecordBatch, keys: Seq<Seq<char>>, r: int) -> bool {
    exists|i: int| 0 <= i < keys.len() && spec_is_null(#[trigger] row_key_values(b, keys, r)[i])
}

/// Whether `ks` holds, for each row, no key where the row has a NULL key
/// value and otherwise a key that the algorithm gives for the row's values.
pub open spec fn row_keys<A: ClusteringAlgorithm>(
    alg: A,
    b: RecordBatch,
    keys: Seq<Seq<char>>,
    ks: Seq<Option<Seq<u8>>>,
) -> bool {
    &&& ks.len() == b.num_rows_spec()
    &&& forall|r: int|
        0 <= r < ks.len() ==> ((#[trigger] ks[r]) is None <==> row_has_null(b, keys, r))
    &&& forall|r: int|
        0 <= r < ks.len() ==> (#[trigger] ks[r] matches Some(k) ==> alg.admits_key(
            row_key_values(b, keys, r),
            k,
        ))
}

/// Whether `out` holds the rows of `b` in the order `idx`, and `idx` sorts `ks`.
pub open spec fn sorted_rows(out: RecordBatch, b: RecordBatch, ks: Seq<Option<Seq<u8>>>, idx: Seq<u32>) -> bool {
    &&& sorts_keys(ks, idx)
    &&& out.fields() == b.fields()
    &&& out.num_rows_spec() == idx.len()
    &&& out.columns().len() == b.columns().len()
    &&& forall|c: int, i: int|
        0 <= c < b.columns().len() && 0 <= i < idx.len() ==> #[trigger] out.columns()[c][i]
            == b.columns()[c][idx[i] as int]
}

/// Whether `out` holds the rows of `b` ordered by sort keys that the
/// algorithm gives for their key values, rows with a NULL key value last in
/// their original order.
pub open spec fn clustered_by<A: ClusteringAlgorithm>(
    alg: A,
    b: RecordBatch,
    keys: Seq<Seq<char>>,
    out: RecordBatch,
) -> bool {
    exists|ks: Seq<Option<Seq<u8>>>, idx: Seq<u32>|
        {
            &&& row_keys(alg, b, keys, ks)
            &&& sorted_rows(out, b, ks, idx)
        }
}

/// The names of a list of strings.
pub open spec fn key_names(keys: Seq<String>) -> Seq<Seq<char>> {
    keys.map_values(|k: String| k@)
}

/// Whether every row of `b` can get its key: each key names a column (where
/// there are rows), the algorithm gives a key for every row without a NULL
/// key value, and the keys together stay within `i32` offsets.
pub open spec fn keys_computable<A: ClusteringAlgorithm>(alg: A, b: RecordBatch, keys: Seq<Seq<char>>) -> bool {
    &&& b.num_rows_spec() == 0 || all_keys_found(b, keys)
    &&& forall|row: int|
        0 <= row < b.num_rows_spec() && !row_has_null(b, keys, row) ==> alg.accepts(
            #[trigger] row_key_values(b, keys, row),
        )
    &&& forall|ks: Seq<Option<Seq<u8>>>| #[trigger] row_keys(alg, b, keys, ks) ==> key_bytes(ks) <= i32::MAX
}

/// Whether `e` is an error that ordering the rows of `b` can end with: the
/// first key that names no column (where there are rows), an error that the
/// algorithm gives for the key values of a row without a NULL, or keys that
/// together exceed `i32` offsets.
pub open spec fn sort_error<A: ClusteringAlgorithm>(
    alg: A,
    b: RecordBatch,
    keys: Seq<Seq<char>>,
    e: ClusterError,
) -> bool {
    ||| b.num_rows_spec() > 0 && exists|i: int|
        {
            &&& first_missing_key(b, keys, i)
            &&& e matches ClusterError::ColumnNotFoundInBatch { column } && column@ == keys[i]
        }
    ||| exists|row: int|
        0 <= row < b.num_rows_spec() && !row_has_null(b, keys, row) && alg.refuses_with(
            #[trigger] row_key_values(b, keys, row),
            e,
        )
    ||| e == ClusterError::SortKeysTooLarge && exists|ks: Seq<Option<Seq<u8>>>|
        #[trigger] row_keys(alg, b, keys, ks) && key_bytes(ks) > i32::MAX
}

/// Whether `row` is the first row of `b` that the algorithm refuses, with
/// `e`: every key names a column, the row has no NULL key value, the result
/// that the algorithm fixes for its values is the error `e`, and every earlier
/// row without a NULL key value gets a key.
pub open spec fn first_refusal<A: ClusteringAlgorithm>(
    alg: A,
    b: RecordBatch,
    keys: Seq<Seq<char>>,
    row: int,
    e: ClusterError,
) -> bool {
    &&& all_keys_found(b, keys)
    &&& 0 <= row < b.num_rows_spec()
    &&& !row_has_null(b, keys, row)
    &&& alg.key_of(row_key_values(b, keys, row)) == Some(Err::<Seq<u8>, ClusterError>(e))
    &&& forall|r: int|
        0 <= r < row && !row_has_null(b, keys, r) ==> (#[trigger] alg.key_of(row_key_values(b, keys, r)))
            matches Some(Ok(_))
}

/// Reorders the rows of a batch by the sort keys that the algorithm gives
/// for their values in the key columns; rows with a NULL key value come
/// last, in their original order.
///
/// A key that names no column is reported first; then the first row that the
/// algorithm refuses gives its error, unchanged.
pub fn sort_batch_by_algorithm<A: ClusteringAlgorithm>(batch: &RecordBatch, keys: &[String], algorithm: &A)
    -> (r: Result<RecordBatch, ClusterError>)
    requires
        batch.num_rows_spec() <= u32::MAX,
    ensures
        batch.num_rows_spec() > 0 && !all_keys_found(*batch, key_names(keys@)) ==> exists|i: int|
            {
                &&& first_missing_key(*batch, key_names(keys@), i)
                &&& r matches Err(ClusterError::ColumnNotFoundInBatch { column }) && column@ == keys@[i]@
            },
        r matches Ok(out) ==> clustered_by(*algorithm, *batch, key_names(keys@), out),
        r matches Ok(out) ==> (all_keys_found(*batch, key_names(keys@)) ==> forall|i: int, j: int|
            0 <= i < j < out.num_rows_spec() && #[trigger] null_in_key_column(out, *batch, key_names(keys@), i)
                ==> #[trigger] null_in_key_column(out, *batch, key_names(keys@), j)),
        r matches Err(e) ==> sort_error(*algorithm, *batch, key_names(keys@), e),
        keys_computable(*algorithm, *batch, key_names(keys@)) ==> r is Ok,
        forall|row: int, e: ClusterError|
            #[trigger] first_refusal(*algorithm, *batch, key_names(keys@), row, e) ==> r == Err::<
                RecordBatch,
                ClusterError,
            >(e),
{
    let n = batch.num_rows();
    let m = keys.len();
    proof {
        use_type_invariant(batch);
        batch.lemma_shape();
    }
    let mut sort_keys: Vec<Option<Vec<u8>>> = Vec::new();
    let mut total_bytes: usize = 0;
    let mut too_large = false;
    for row in 0..n
        invariant
            n == batch.num_rows_spec(),
            n <= u32::MAX,
            m == keys@.len(),
            shaped(batch.fields(), batch.columns(), batch.num_rows_spec()),
            sort_keys@.len() == row,
            !too_large ==> total_bytes == key_bytes(key_views(sort_keys@)),
            total_bytes <= i32::MAX,
            too_large ==> key_bytes(key_views(sort_keys@)) > i32::MAX,
            row > 0 ==> all_keys_found(*batch, key_names(keys@)),
            forall|r: int|
                0 <= r < row ==> ((#[trigger] key_views(sort_keys@)[r]) is None <==> row_has_null(
                    *batch,
                    key_names(keys@),
                    r,
                )),
            forall|r: int|
                0 <= r < row ==> (#[trigger] key_views(sort_keys@)[r] matches Some(k)
                    ==> algorithm.admits_key(row_key_values(*batch, key_names(keys@), r), k)),
            forall|r: int|
                0 <= r < row && !row_has_null(*batch, key_names(keys@), r) ==> !((#[trigger] algorithm.key_of(
                    row_key_values(*batch, key_names(keys@), r),
                )) matches Some(Err(_))),
    {
        let mut values: Vec<ScalarValue> = Vec::new();
        let mut has_null = false;
        for k in 0..m
            invariant
                n == batch.num_rows_spec(),
                row < n,
                m == keys@.len(),
                shaped(batch.fields(), batch.columns(), batch.num_rows_spec()),
                row > 0 ==> all_keys_found(*batch, key_names(keys@)),
                forall|i: int| 0 <= i < k ==> (#[trigger] key_column(*batch, key_names(keys@)[i])) is Some,
                values@ =~= row_key_values(*batch, key_names(keys@), row as int).take(k as int),
                has_null <==> exists|i: int| 0 <= i < k && spec_is_null(#[trigger] values@[i]),
        {
            let schema = batch.schema();
            assert(schema.names() =~= field_names(*batch));
            assert(keys@[k as int]@ == key_names(keys@)[k as int]);
            let col = match schema.index_of(keys[k].as_str()) {
                Some(c) => c,
                None => {
                    proof {
                        assert(row == 0);
                        assert(first_missing_key(*batch, key_names(keys@), k as int));
                        assert(key_names(keys@)[k as int] == keys@[k as int]@);
                        assert(!all_keys_found(*batch, key_names(keys@)));
                    }
                    return Err(ClusterError::ColumnNotFoundInBatch { column: keys[k].clone() });
                },
            };
            proof {
                let c = col as int;
                assert(is_first_index(field_names(*batch), key_names(keys@)[k as int], c)) by {
                    let w = choose|i: int| is_first_index(field_names(*batch), key_names(keys@)[k as int], i);
                    assert(is_first_index(field_names(*batch), key_names(keys@)[k as int], w));
                }
            }
            let v = batch.column(col)[row].duplicate();
            let ghost gv = v;
            let ghost old_values = values@;
            if v.is_null() {
                has_null = true;
            }
            values.push(v);
            proof {
                assert(values@.last() == row_key_values(*batch, key_names(keys@), row as int)[k as int]);
                assert(values@[k as int] == gv);
                assert(forall|i: int| 0 <= i < k ==> values@[i] == old_values[i]);
            }
        }
        proof {
            assert(all_keys_found(*batch, key_names(keys@)));
            assert(values@ =~= row_key_values(*batch, key_names(keys@), row as int));
        }
        let ghost before = sort_keys@;
        if has_null {
            sort_keys.push(None);
        } else {
            proof {
                assert(!row_has_null(*batch, key_names(keys@), row as int));
            }
            let key = match algorithm.compute_sort_key(values.as_slice()) {
                Ok(k) => k,
                Err(e) => {
                    proof {
                        assert(values@ == row_key_values(*batch, key_names(keys@), row as int));
                        assert(sort_error(*algorithm, *batch, key_names(keys@), e));
                        assert forall|row0: int, e0: ClusterError|
                            #[trigger] first_refusal(*algorithm, *batch, key_names(keys@), row0, e0) implies e
                            == e0 by {
                            if row0 > row {
                                assert(algorithm.key_of(row_key_values(*batch, key_names(keys@), row as int))
                                    matches Some(Ok(_)));
                            }
                        }
                    }
                    return Err(e);
                },
            };
            if !too_large {
                if key.len() > 0x7fff_ffff - total_bytes {
                    too_large = true;
                } else {
                    total_bytes = total_bytes + key.len();
                }
            }
            sort_keys.push(Some(key));
        }
        proof {
            assert(key_views(sort_keys@).drop_last() =~= key_views(before));
            assert(key_views(sort_keys@) =~= key_views(before).push(key_views(sort_keys@).last()));
        }
    }
    proof {
        assert(row_keys(*algorithm, *batch, key_names(keys@), key_views(sort_keys@)));
    }
    if too_large {
        return Err(ClusterError::SortKeysTooLarge);
    }
    assert(total_bytes == key_bytes(key_views(sort_keys@)));
    let indices = sort_keys_to_indices(&sort_keys);
    let out = batch.take(&indices);
    proof {
        assert(row_keys(*algorithm, *batch, key_names(keys@), key_views(sort_keys@)));
        assert(sorted_rows(out, *batch, key_views(sort_keys@), indices@));
        assert(exists|ks: Seq<Option<Seq<u8>>>, idx: Seq<u32>|
            {
                &&& row_keys(*algorithm, *batch, key_names(keys@), ks)
                &&& sorted_rows(out, *batch, ks, idx)
            });
    }
    proof {
        assert(clustered_by(*algorithm, *batch, key_names(keys@), out));
        if all_keys_found(*batch, key_names(keys@)) {
            lemma_null_key_rows_last(*algorithm, *batch, key_names(keys@), out);
        }
    }
    Ok(out)
}


/// Cuts a batch into pieces of `chunk_size` rows, the last piece holding
/// what remains.
pub struct RecordBatchChunkIterator {
    batch: RecordBatch,
    /// The first row not handed out yet, and the number of pieces handed
    /// out so far; the two move together.
    cursor: (usize, Ghost<nat>),
    chunk_size: usize,
    total_rows: usize,
}

/// The number of pieces of `size` rows that `n` rows are cut into: none for
/// no rows, else `ceil(n / size)`.
pub open spec fn piece_count(n: nat, size: nat) -> nat {
    if n == 0 {
        0
    } else {
        ((n + size - 1) / (size as int)) as nat
    }
}

impl RecordBatchChunkIterator {
    #[verifier::type_invariant]
    spec fn inv(self) -> bool {
        &&& self.total_rows == self.batch.num_rows_spec()
        &&& self.cursor.0 as int == if self.cursor.1@ * self.chunk_size < self.total_rows {
            self.cursor.1@ * self.chunk_size
        } else {
            self.total_rows as int
        }
    }

    /// The number of pieces handed out so far.
    pub closed spec fn spec_handed(self) -> nat {
        self.cursor.1@
    }

    /// The batch being cut.
    pub closed spec fn spec_batch(self) -> RecordBatch {
        self.batch
    }

    /// The first row not handed out yet.
    pub closed spec fn spec_offset(self) -> nat {
        self.cursor.0 as nat
    }

    /// The number of rows of each piece.
    pub closed spec fn spec_chunk_size(self) -> nat {
        self.chunk_size as nat
    }

    /// Pieces of `chunk_size` rows of `batch`, from its first row on.
    pub fn new(batch: RecordBatch, chunk_size: usize) -> (it: RecordBatchChunkIterator)
        ensures
            it.spec_batch() == batch,
            it.spec_offset() == 0,
            it.spec_chunk_size() == chunk_size,
            it.spec_handed() == 0,
    {
        let total_rows = batch.num_rows();
        assert(0 * chunk_size == 0) by (nonlinear_arith);
        RecordBatchChunkIterator { batch, cursor: (0, Ghost(0)), chunk_size, total_rows }
    }

    /// The next piece: the rows from the offset on, at most `chunk_size` of
    /// them; `None` once every row has been handed out.
    ///
    /// Over repeated calls from a new iterator, call `k` (counted from 0)
    /// hands out the piece at row `k * chunk_size`; with a positive chunk
    /// size exactly `piece_count(n, chunk_size)` calls hand out a piece, and
    /// every later call gives `None`.
    pub fn next(&mut self) -> (r: Option<RecordBatch>)
        ensures
            final(self).spec_handed() == old(self).spec_handed() + if r is Some { 1nat } else { 0nat },
            r matches Some(c) ==> is_chunk(
                old(self).spec_batch(),
                old(self).spec_handed() * old(self).spec_chunk_size(),
                old(self).spec_chunk_size(),
                c,
            ),
            old(self).spec_chunk_size() > 0 ==> (r is Some <==> old(self).spec_handed() < piece_count(
                old(self).spec_batch().num_rows_spec(),
                old(self).spec_chunk_size(),
            )),
            final(self).spec_batch() == old(self).spec_batch(),
            final(self).spec_chunk_size() == old(self).spec_chunk_size(),
            old(self).spec_offset() >= old(self).spec_batch().num_rows_spec() ==> (r is None
                && final(self).spec_offset() == old(self).spec_offset()),
            old(self).spec_offset() < old(self).spec_batch().num_rows_spec() ==> (r matches Some(c)
                && is_chunk(
                old(self).spec_batch(),
                old(self).spec_offset(),
                old(self).spec_chunk_size(),
                c,
            ) && final(self).spec_offset() == old(self).spec_offset() + c.num_rows_spec()),
    {
        proof {
            use_type_invariant(&*self);
        }
        let ghost h = self.cursor.1@;
        let ghost sz = self.chunk_size as int;
        let ghost n = self.total_rows as int;
        proof {
            let hh = h as int;
            if sz > 0 {
                assert(hh * sz < n <==> (n > 0 && hh < (n + sz - 1) / sz)) by (nonlinear_arith)
                    requires
                        sz > 0,
                        n >= 0,
                        hh >= 0,
                ;
            }
        }
        let offset = self.cursor.0;
        if offset >= self.total_rows {
            return None;
        }
        let end = if self.chunk_size < self.total_rows - offset {
            offset + self.chunk_size
        } else {
            self.total_rows
        };
        let num_rows = end - offset;
        let chunk = self.batch.slice(offset, num_rows);
        proof {
            assert((h + 1) * sz == h * sz + sz) by (nonlinear_arith);
        }
        self.cursor = (end, Ghost(h + 1));
        Some(chunk)
    }
}

/// Whether `c` is the piece of `b` that starts at row `offset` and holds
/// `size` rows, or the rest of `b` when fewer remain.
pub open spec fn is_chunk(b: RecordBatch, offset: nat, size: nat, c: RecordBatch) -> bool {
    let len = if size < b.num_rows_spec() - offset {
        size
    } else {
        (b.num_rows_spec() - offset) as nat
    };
    &&& c.fields() == b.fields()
    &&& c.num_rows_spec() == len
    &&& c.columns().len() == b.columns().len()
    &&& forall|col: int|
        0 <= col < b.columns().len() ==> #[trigger] c.columns()[col] == b.columns()[col].subrange(
            offset as int,
            (offset + len) as int,
        )
}

/// Whether `chunks` cut `b` into consecutive pieces of `size` rows, the last
/// piece holding what remains.
pub open spec fn chunks_of(b: RecordBatch, size: nat, chunks: Seq<RecordBatch>) -> bool {
    &&& chunks.len() == piece_count(b.num_rows_spec(), size)
    &&& forall|i: int| 0 <= i < chunks.len() ==> is_chunk(b, (i * size) as nat, size, #[trigger] chunks[i])
}

/// Cuts a batch into pieces of `chunk_size` rows, the last piece holding
/// what remains; a batch without rows gives no piece.
pub fn split_into_chunks(batch: RecordBatch, chunk_size: usize) -> (chunks: Vec<RecordBatch>)
    requires
        chunk_size > 0 || batch.num_rows_spec() == 0,
    ensures
        chunks_of(batch, chunk_size as nat, chunks@),
{
    let ghost b = batch;
    let total = batch.num_rows();
    let mut it = RecordBatchChunkIterator::new(batch, chunk_size);
    let mut chunks: Vec<RecordBatch> = Vec::new();
    assert(0 * chunk_size == 0) by (nonlinear_arith);
    loop
        invariant
            chunk_size > 0 || total == 0,
            it.spec_batch() == b,
            it.spec_chunk_size() == chunk_size,
            total == b.num_rows_spec(),
            it.spec_offset() == chunks@.len() * chunk_size || (it.spec_offset() == total
                && chunks@.len() * chunk_size >= total),
            it.spec_offset() <= total,
            chunks@.len() > 0 ==> (chunks@.len() - 1) * chunk_size < total,
            forall|i: int|
                0 <= i < chunks@.len() ==> is_chunk(b, (i * chunk_size) as nat, chunk_size as nat, #[trigger] chunks@[i]),
        ensures
            chunks@.len() * chunk_size >= total,
            chunks@.len() > 0 ==> (chunks@.len() - 1) * chunk_size < total,
            forall|i: int|
                0 <= i < chunks@.len() ==> is_chunk(b, (i * chunk_size) as nat, chunk_size as nat, #[trigger] chunks@[i]),
        decreases total - it.spec_offset(),
    {
        let ghost before = it.spec_offset();
        let ghost k = chunks@.len();
        proof {
            use_type_invariant(&it);
        }
        match it.next() {
            Some(c) => {
                proof {
                    use_type_invariant(&it);
                    assert(before < total);
                    assert(before == k * chunk_size);
                    assert((k + 1) * chunk_size == k * chunk_size + chunk_size) by (nonlinear_arith);
                    assert(((k + 1) - 1) * chunk_size == k * chunk_size) by (nonlinear_arith);
                }
                chunks.push(c);
                proof {
                    assert(chunks@[k as int] == c);
                }
            },
            None => {
                break;
            },
        }
    }
    proof {
        let k = chunks@.len();
        let s = chunk_size as int;
        let t = total as int;
        if t == 0 {
            assert(k == 0);
        } else {
        assert(k == (t + s - 1) / s) by (nonlinear_arith)
            requires
                s > 0,
                t >= 0,
                k * s >= t,
                k > 0 ==> (k - 1) * s < t,
                k >= 0,
        ;
        }
    }
    chunks
}


/// The rows per fragment when no target is given.
pub const DEFAULT_BATCH_SIZE: usize = 10000;

/// A given target is the number of rows per fragment, exactly; without one
/// a fragment holds 10000 rows.
pub proof fn lemma_target_rows(target: Option<usize>)
    ensures
        target matches Some(n) ==> target_rows(target) == n,
        target is None ==> target_rows(target) == 10000,
{
}

/// The rows per fragment for a target.
pub open spec fn target_rows(target: Option<usize>) -> nat {
    match target {
        Some(n) => n as nat,
        None => DEFAULT_BATCH_SIZE as nat,
    }
}

/// The sorted fragments that a clustering rewrite writes, and its statistics.
pub struct ClusterOutput {
    pub fragments: Vec<RecordBatch>,
    pub stats: ClusterStats,
}

/// Whether `b` holds the rows of `batches`, one batch after another, under
/// `fields`.
pub open spec fn combines(b: RecordBatch, fields: Seq<Field>, batches: Seq<RecordBatch>) -> bool {
    &&& b.fields() == fields
    &&& b.num_rows_spec() == total_rows(batches)
    &&& b.columns().len() == fields.len()
    &&& forall|c: int| 0 <= c < fields.len() ==> #[trigger] b.columns()[c] == concat_column(batches, c)
}

/// Whether, in the batch that combines `batches` under `fields`, `row` is
/// the first row that the algorithm refuses, with `e`.
pub open spec fn combined_first_refusal<A: ClusteringAlgorithm>(
    alg: A,
    fields: Seq<Field>,
    batches: Seq<RecordBatch>,
    keys: Seq<Seq<char>>,
    row: int,
    e: ClusterError,
) -> bool {
    forall|b: RecordBatch| #[trigger] combines(b, fields, batches) ==> first_refusal(alg, b, keys, row, e)
}

/// Whether `out` is a clustering rewrite of `batches`: their rows, combined
/// under the fields, ordered by the algorithm, cut into fragments of `size`
/// rows, with statistics that count the rows and fragments.
pub open spec fn rewrite_of<A: ClusteringAlgorithm>(
    alg: A,
    fields: Seq<Field>,
    batches: Seq<RecordBatch>,
    keys: Seq<Seq<char>>,
    size: nat,
    out: ClusterOutput,
) -> bool {
    &&& exists|combined: RecordBatch, sorted: RecordBatch|
        {
            &&& combines(combined, fields, batches)
            &&& clustered_by(alg, combined, keys, sorted)
            &&& chunks_of(sorted, size, out.fragments@)
        }
    &&& out.stats == (ClusterStats {
        rows_processed: total_rows(batches) as usize,
        fragments_written: out.fragments@.len() as usize,
        indices_rebuilt: 0,
    })
}

/// The computing part of a clustering rewrite: prepares the algorithm on all
/// batches, combines them, orders the rows by the configured keys, and cuts
/// the result into fragments of `target_rows_per_fragment` rows (10000 by
/// default). With no batches there is nothing to write.
///
/// It succeeds where the algorithm prepares on these batches and keys and
/// every row of the combined batch can get its key; otherwise the error is
/// the algorithm's, from preparing or from the first row it refuses, or one
/// of ordering the combined rows.
pub fn execute_cluster_direct<A: ClusteringAlgorithm>(
    schema: &Schema,
    batches: &Vec<RecordBatch>,
    config: &ClusterConfig,
    algorithm: &A,
    target_rows_per_fragment: Option<usize>,
) -> (r: Result<ClusterOutput, ClusterError>)
    requires
        target_rows_per_fragment != Some(0usize) || total_rows(batches@) == 0,
        forall|b: int|
            0 <= b < batches@.len() ==> (#[trigger] batches@[b]).fields().len() == schema.fields@.len(),
        total_rows(batches@) <= u32::MAX,
    ensures
        batches@.len() == 0 ==> (r matches Ok(o) && o.fragments@.len() == 0 && o.stats == (ClusterStats {
            rows_processed: 0,
            fragments_written: 0,
            indices_rebuilt: 0,
        })),
        total_rows(batches@) > 0 && (exists|i: int|
            0 <= i < config.keys@.len() && (#[trigger] first_index_of(schema.names(), config.keys@[i]@))
                is None) ==> r is Err,
        batches@.len() > 0 ==> (r matches Ok(o) ==> rewrite_of(
            *algorithm,
            schema.fields@,
            batches@,
            key_names(config.keys@),
            target_rows(target_rows_per_fragment),
            o,
        )),
        batches@.len() > 0 && algorithm.prepares(batches@, config.keys@) && (forall|b: RecordBatch|
            #[trigger] combines(b, schema.fields@, batches@) ==> keys_computable(
                *algorithm,
                b,
                key_names(config.keys@),
            )) ==> r is Ok,
        r matches Err(e) ==> algorithm.prepare_refuses_with(batches@, config.keys@, e) || exists|
            b: RecordBatch,
        | #[trigger] combines(b, schema.fields@, batches@) && sort_error(
            *algorithm,
            b,
            key_names(config.keys@),
            e,
        ),
        algorithm.prepares(batches@, config.keys@) ==> (r matches Err(e) ==> exists|b: RecordBatch|
            #[trigger] combines(b, schema.fields@, batches@) && sort_error(
                *algorithm,
                b,
                key_names(config.keys@),
                e,
            )),
        batches@.len() > 0 ==> (r matches Ok(o) ==> ({
            let n: int = match target_rows_per_fragment {
                Some(t) => t as int,
                None => 10000,
            };
            let rows = total_rows(batches@) as int;
            &&& o.stats.rows_processed == rows
            &&& o.stats.fragments_written == o.fragments@.len()
            &&& o.fragments@.len() == if rows == 0 { 0 } else { (rows + n - 1) / n }
            &&& forall|f: int| 0 <= f < o.fragments@.len() - 1 ==> (#[trigger] o.fragments@[f]).num_rows_spec() == n
            &&& o.fragments@.len() > 0 ==> o.fragments@.last().num_rows_spec() == rows - n * (o.fragments@.len() - 1)
        })),
        batches@.len() > 0 && algorithm.prepares(batches@, config.keys@) ==> forall|row: int, e: ClusterError|
            #[trigger] combined_first_refusal(
                *algorithm,
                schema.fields@,
                batches@,
                key_names(config.keys@),
                row,
                e,
            ) ==> r == Err::<ClusterOutput, ClusterError>(e),
{
    let target = match target_rows_per_fragment {
        Some(n) => n,
        None => DEFAULT_BATCH_SIZE,
    };
    if batches.len() == 0 {
        return Ok(ClusterOutput { fragments: Vec::new(), stats: ClusterStats::default() });
    }
    let batch_slice = batches.as_slice();
    let key_slice = config.keys.as_slice();
    assert(batch_slice@ == batches@);
    assert(key_slice@ == config.keys@);
    match algorithm.prepare(batch_slice, key_slice) {
        Ok(()) => {},
        Err(e) => {
            return Err(e);
        },
    }
    let combined = concat_batches(schema, batches);
    assert(combines(combined, schema.fields@, batches@));
    proof {
        assert(field_names(combined) =~= schema.names());
        if exists|i: int|
            0 <= i < config.keys@.len() && (#[trigger] first_index_of(schema.names(), config.keys@[i]@)) is None {
            let i = choose|i: int|
                0 <= i < config.keys@.len() && (#[trigger] first_index_of(schema.names(), config.keys@[i]@)) is None;
            assert(key_names(key_slice@)[i] == config.keys@[i]@);
            assert(key_column(combined, key_names(key_slice@)[i]) is None);
            assert(!all_keys_found(combined, key_names(key_slice@)));
        }
    }
    let sort_result = sort_batch_by_algorithm(&combined, key_slice, algorithm);
    proof {
        assert forall|row: int, e: ClusterError|
            #[trigger] combined_first_refusal(
                *algorithm,
                schema.fields@,
                batches@,
                key_names(config.keys@),
                row,
                e,
            ) implies sort_result == Err::<RecordBatch, ClusterError>(e) by {
            assert(first_refusal(*algorithm, combined, key_names(key_slice@), row, e));
        }
    }
    let sorted = match sort_result {
        Ok(s) => s,
        Err(e) => {
            return Err(e);
        },
    };
    let row_count = sorted.num_rows();
    let fragments = split_into_chunks(sorted, target);
    let fragments_written = fragments.len();
    let out = ClusterOutput {
        fragments,
        stats: ClusterStats { rows_processed: row_count, fragments_written, indices_rebuilt: 0 },
    };
    proof {
        assert(rewrite_of(*algorithm, schema.fields@, batches@, key_names(config.keys@), target as nat, out));
        lemma_clustering_keeps_rows(*algorithm, combined, key_names(key_slice@), sorted);
        if target > 0 {
            lemma_chunk_sizes(sorted, target as nat, out.fragments@);
        }
    }
    Ok(out)
}


/// Whether every cell of a column is NULL or an integer, timestamp or date,
/// all of one type.
pub open spec fn integer_column(col: Seq<ScalarValue>) -> bool {
    &&& forall|i: int| 0 <= i < col.len() ==> spec_is_null(#[trigger] col[i]) || integer_value(col[i]) is Some
    &&& forall|i: int, j: int|
        0 <= i < col.len() && 0 <= j < col.len() && !spec_is_null(#[trigger] col[i]) && !spec_is_null(
            #[trigger] col[j],
        ) ==> same_type(col[i], col[j])
}

/// Whether cell `x` may stand above cell `y` in an ascending integer
/// column: NULLs after all values, values in ascending order.
pub open spec fn ascending_cells(x: ScalarValue, y: ScalarValue) -> bool {
    &&& spec_is_null(x) ==> spec_is_null(y)
    &&& !spec_is_null(y) ==> integer_value(x).unwrap() <= integer_value(y).unwrap()
}

/// Sorting by one integer-like column with the direct algorithm puts the
/// rows in ascending order of that column, with NULLs after all values.
pub proof fn lemma_direct_sort_orders_rows(b: RecordBatch, key: Seq<char>, out: RecordBatch)
    requires
        key_column(b, key) is Some,
        integer_column(b.columns()[key_column(b, key).unwrap()]),
        shaped(b.fields(), b.columns(), b.num_rows_spec()),
        clustered_by(DirectSortAlgorithm, b, seq![key], out),
    ensures
        out.num_rows_spec() == b.num_rows_spec(),
        forall|i: int, j: int|
            0 <= i < j < out.num_rows_spec() ==> #[trigger] ascending_cells(
                out.columns()[key_column(b, key).unwrap()][i],
                out.columns()[key_column(b, key).unwrap()][j],
            ),
{
    let keys = seq![key];
    let c = key_column(b, key).unwrap();
    let (ks, idx) = choose|ks: Seq<Option<Seq<u8>>>, idx: Seq<u32>|
        {
            &&& row_keys(DirectSortAlgorithm, b, keys, ks)
            &&& sorted_rows(out, b, ks, idx)
        };
    assert forall|r: int| 0 <= r < b.num_rows_spec() implies row_key_values(b, keys, r) =~= seq![b.columns()[c][r]]
        && (#[trigger] ks[r] is None <==> spec_is_null(b.columns()[c][r])) by {
        assert(row_key_values(b, keys, r)[0] == b.columns()[c][r]);
        if spec_is_null(b.columns()[c][r]) {
            assert(spec_is_null(row_key_values(b, keys, r)[0]));
        }
    }
    assert forall|i: int, j: int|
        0 <= i < j < out.num_rows_spec() implies #[trigger] ascending_cells(
            out.columns()[c][i],
            out.columns()[c][j],
        ) by {
        let ri = idx[i] as int;
        let rj = idx[j] as int;
        assert(out.columns()[c][i] == b.columns()[c][ri]);
        assert(out.columns()[c][j] == b.columns()[c][rj]);
        assert(may_precede(ks[ri], ks[rj], ri, rj));
        let x = b.columns()[c][ri];
        let y = b.columns()[c][rj];
        if !spec_is_null(x) && !spec_is_null(y) {
            assert(ks[ri] == Some(spec_sort_key(x)));
            assert(ks[rj] == Some(spec_sort_key(y)));
            lemma_integer_sort_key_order(y, x);
        }
    }
}


/// A list of distinct positions below its own length names every position.
proof fn lemma_distinct_indices_cover(idx: Seq<u32>, r: int)
    requires
        forall|i: int| 0 <= i < idx.len() ==> (#[trigger] idx[i]) < idx.len(),
        forall|i: int, j: int| 0 <= i < j < idx.len() ==> #[trigger] idx[i] != #[trigger] idx[j],
        0 <= r < idx.len(),
    ensures
        exists|i: int| 0 <= i < idx.len() && idx[i] == r,
{
    let n = idx.len() as int;
    let positions = idx.map_values(|x: u32| x as int);
    assert(positions.no_duplicates()) by {
        assert forall|i: int, j: int| 0 <= i < positions.len() && 0 <= j < positions.len() && i != j
            implies positions[i] != positions[j] by {
            if i < j {
                assert(idx[i] != idx[j]);
            } else {
                assert(idx[j] != idx[i]);
            }
        }
    }
    positions.unique_seq_to_set();
    lemma_int_range(0, n);
    assert(positions.to_set().subset_of(set_int_range(0, n))) by {
        assert forall|x: int| positions.to_set().contains(x) implies set_int_range(0, n).contains(x) by {
            let i = choose|i: int| 0 <= i < positions.len() && positions[i] == x;
            assert(idx[i] < n);
        }
    }
    lemma_set_subset_finite(set_int_range(0, n), positions.to_set());
    lemma_subset_equality(positions.to_set(), set_int_range(0, n));
    assert(set_int_range(0, n).contains(r));
    assert(positions.to_set().contains(r));
    let i = choose|i: int| 0 <= i < positions.len() && positions[i] == r;
    assert(idx[i] == r);
}

/// Whether row `i` of `out` equals row `r` of `b` in every column of `b`.
pub open spec fn same_row(out: RecordBatch, i: int, b: RecordBatch, r: int) -> bool {
    forall|c: int| 0 <= c < b.columns().len() ==> #[trigger] out.columns()[c][i] == b.columns()[c][r]
}

/// Whether row `r` of `b` stands at some position of `out`.
pub open spec fn row_kept(out: RecordBatch, b: RecordBatch, r: int) -> bool {
    exists|i: int| 0 <= i < out.num_rows_spec() && #[trigger] same_row(out, i, b, r)
}

/// Clustering keeps every row: the output has as many rows as the input,
/// and each input row stands, whole, at some position of the output.
pub proof fn lemma_clustering_keeps_rows<A: ClusteringAlgorithm>(
    alg: A,
    b: RecordBatch,
    keys: Seq<Seq<char>>,
    out: RecordBatch,
)
    requires
        clustered_by(alg, b, keys, out),
    ensures
        out.num_rows_spec() == b.num_rows_spec(),
        forall|r: int| 0 <= r < b.num_rows_spec() ==> #[trigger] row_kept(out, b, r),
{
    let (ks, idx) = choose|ks: Seq<Option<Seq<u8>>>, idx: Seq<u32>|
        {
            &&& row_keys(alg, b, keys, ks)
            &&& sorted_rows(out, b, ks, idx)
        };
    assert forall|r: int| 0 <= r < b.num_rows_spec() implies #[trigger] row_kept(out, b, r) by {
        lemma_distinct_indices_cover(idx, r);
        let i = choose|i: int| 0 <= i < idx.len() && idx[i] == r;
        assert(same_row(out, i, b, r));
    }
}

/// A row has a NULL key value exactly when any one of the key columns, at
/// whatever position among the keys, holds NULL in that row.
pub proof fn lemma_row_has_null_any_key(b: RecordBatch, keys: Seq<Seq<char>>, r: int)
    requires
        all_keys_found(b, keys),
    ensures
        row_has_null(b, keys, r) <==> exists|k: int|
            0 <= k < keys.len() && spec_is_null(#[trigger] b.columns()[key_column(b, keys[k]).unwrap()][r]),
{
    if exists|k: int|
        0 <= k < keys.len() && spec_is_null(#[trigger] b.columns()[key_column(b, keys[k]).unwrap()][r]) {
        let k = choose|k: int|
            0 <= k < keys.len() && spec_is_null(#[trigger] b.columns()[key_column(b, keys[k]).unwrap()][r]);
        assert(row_key_values(b, keys, r)[k] == b.columns()[key_column(b, keys[k]).unwrap()][r]);
    }
    if row_has_null(b, keys, r) {
        let k = choose|k: int| 0 <= k < keys.len() && spec_is_null(#[trigger] row_key_values(b, keys, r)[k]);
        assert(row_key_values(b, keys, r)[k] == b.columns()[key_column(b, keys[k]).unwrap()][r]);
    }
}

/// Whether row `i` of `out` holds NULL in a column that one of the keys
/// names in `b`.
pub open spec fn null_in_key_column(out: RecordBatch, b: RecordBatch, keys: Seq<Seq<char>>, i: int) -> bool {
    exists|k: int|
        0 <= k < keys.len() && spec_is_null(#[trigger] out.columns()[key_column(b, keys[k]).unwrap()][i])
}

/// Clustering puts every row that holds NULL in any key column after every
/// row that holds none.
pub proof fn lemma_null_key_rows_last<A: ClusteringAlgorithm>(
    alg: A,
    b: RecordBatch,
    keys: Seq<Seq<char>>,
    out: RecordBatch,
)
    requires
        clustered_by(alg, b, keys, out),
        all_keys_found(b, keys),
        shaped(b.fields(), b.columns(), b.num_rows_spec()),
    ensures
        forall|i: int, j: int|
            0 <= i < j < out.num_rows_spec() && #[trigger] null_in_key_column(out, b, keys, i)
                ==> #[trigger] null_in_key_column(out, b, keys, j),
{
    let (ks, idx) = choose|ks: Seq<Option<Seq<u8>>>, idx: Seq<u32>|
        {
            &&& row_keys(alg, b, keys, ks)
            &&& sorted_rows(out, b, ks, idx)
        };
    assert forall|i: int| 0 <= i < out.num_rows_spec() implies null_in_key_column(out, b, keys, i)
        == row_has_null(b, keys, idx[i] as int) by {
        lemma_row_has_null_any_key(b, keys, idx[i] as int);
        assert forall|k: int| 0 <= k < keys.len() implies #[trigger] out.columns()[key_column(
            b,
            keys[k],
        ).unwrap()][i] == b.columns()[key_column(b, keys[k]).unwrap()][idx[i] as int] by {
            assert(key_column(b, keys[k]) is Some);
            assert(key_column(b, keys[k]).unwrap() < field_names(b).len());
        }
        let r = idx[i] as int;
        if null_in_key_column(out, b, keys, i) {
            let k = choose|k: int|
                0 <= k < keys.len() && spec_is_null(#[trigger] out.columns()[key_column(b, keys[k]).unwrap()][i]);
            assert(out.columns()[key_column(b, keys[k]).unwrap()][i] == b.columns()[key_column(b, keys[k]).unwrap()][r]);
        }
        if exists|k: int|
            0 <= k < keys.len() && spec_is_null(#[trigger] b.columns()[key_column(b, keys[k]).unwrap()][r]) {
            let k = choose|k: int|
                0 <= k < keys.len() && spec_is_null(#[trigger] b.columns()[key_column(b, keys[k]).unwrap()][r]);
            assert(out.columns()[key_column(b, keys[k]).unwrap()][i] == b.columns()[key_column(b, keys[k]).unwrap()][r]);
        }
    }
    assert forall|i: int, j: int|
        0 <= i < j < out.num_rows_spec() && #[trigger] null_in_key_column(out, b, keys, i)
            implies #[trigger] null_in_key_column(out, b, keys, j) by {
        assert(may_precede(ks[idx[i] as int], ks[idx[j] as int], idx[i] as int, idx[j] as int));
        assert(ks[idx[i] as int] is None);
    }
}

/// Every piece but the last holds exactly `size` rows, the last holds what
/// remains, and there are `ceil(n / size)` pieces of `n` rows.
pub proof fn lemma_chunk_sizes(b: RecordBatch, size: nat, chunks: Seq<RecordBatch>)
    requires
        size > 0,
        chunks_of(b, size, chunks),
    ensures
        chunks.len() == if b.num_rows_spec() == 0 {
            0
        } else {
            (b.num_rows_spec() + size - 1) / (size as int)
        },
        forall|f: int| 0 <= f < chunks.len() - 1 ==> (#[trigger] chunks[f]).num_rows_spec() == size,
        chunks.len() > 0 ==> chunks.last().num_rows_spec() == b.num_rows_spec() - size * (chunks.len() - 1),
{
    let n = b.num_rows_spec() as int;
    let s = size as int;
    let len = chunks.len() as int;
    if n > 0 {
        assert((len - 1) * s < n && n <= len * s) by (nonlinear_arith)
            requires
                s > 0,
                n > 0,
                len == (n + s - 1) / s,
        ;
    }
    assert forall|f: int| 0 <= f < chunks.len() - 1 implies (#[trigger] chunks[f]).num_rows_spec() == size by {
        assert(is_chunk(b, (f * size) as nat, size, chunks[f]));
        assert((f + 1) * s <= (len - 1) * s && f * s + s == (f + 1) * s && f * s >= 0) by (nonlinear_arith)
            requires
                0 <= f < len - 1,
                s > 0,
        ;
    }
    if len > 0 {
        assert(is_chunk(b, ((len - 1) * size) as nat, size, chunks[len - 1]));
        assert((len - 1) * s >= 0 && s * (len - 1) == (len - 1) * s && len * s == (len - 1) * s + s)
            by (nonlinear_arith)
            requires
                len > 0,
                s > 0,
        ;
        assert(n > 0);
        assert(n - (len - 1) * s <= s);
    }
}

/// The pieces of a batch hold all its rows in order: row `r` is row
/// `r % size` of piece `r / size`.
pub proof fn lemma_chunks_cover_rows(b: RecordBatch, size: nat, chunks: Seq<RecordBatch>)
    requires
        size > 0,
        shaped(b.fields(), b.columns(), b.num_rows_spec()),
        chunks_of(b, size, chunks),
    ensures
        forall|r: int, c: int|
            0 <= r < b.num_rows_spec() && 0 <= c < b.columns().len() ==> #[trigger] b.columns()[c][r]
                == chunks[r / (size as int)].columns()[c][r % (size as int)],
{
    assert forall|r: int, c: int|
        0 <= r < b.num_rows_spec() && 0 <= c < b.columns().len() implies #[trigger] b.columns()[c][r]
            == chunks[r / (size as int)].columns()[c][r % (size as int)] by {
        let s = size as int;
        let n = b.num_rows_spec() as int;
        let i = r / s;
        let m = r % s;
        assert(r == i * s + m && 0 <= m < s && 0 <= i) by (nonlinear_arith)
            requires
                s > 0,
                r >= 0,
                i == r / s,
                m == r % s,
        ;
        assert(i < (n + s - 1) / s) by (nonlinear_arith)
            requires
                s > 0,
                r < n,
                r == i * s + m,
                0 <= m < s,
                0 <= i,
        ;
        assert(is_chunk(b, (i * size) as nat, size, chunks[i]));
        let off = i * s;
        let len: int = if s < n - off { s } else { n - off };
        assert(0 <= m < len);
        assert(chunks[i].columns()[c] == b.columns()[c].subrange(off, off + len));
        assert(chunks[i].columns()[c][m] == b.columns()[c][off + m]);
    }
}

} // verus!
