//! Schemas and record batches: named, typed columns of equal length.

use vstd::prelude::*;
use vstd::string::StringExecFns;

use crate::error::ClusterError;
use crate::value::{DataType, ScalarValue, clone_opt_string};

verus! {

impl DataType {
    /// A copy of this type, equal to it.
    pub fn duplicate(&self) -> (r: DataType)
        ensures
            r == *self,
    {
        match self {
            DataType::Int8 => DataType::Int8,
            DataType::Int16 => DataType::Int16,
            DataType::Int32 => DataType::Int32,
            DataType::Int64 => DataType::Int64,
            DataType::UInt8 => DataType::UInt8,
            DataType::UInt16 => DataType::UInt16,
            DataType::UInt32 => DataType::UInt32,
            DataType::UInt64 => DataType::UInt64,
            DataType::Float32 => DataType::Float32,
            DataType::Float64 => DataType::Float64,
            DataType::Timestamp(unit, tz) => DataType::Timestamp(*unit, clone_opt_string(tz)),
            DataType::Date32 => DataType::Date32,
            DataType::Date64 => DataType::Date64,
            DataType::Boolean => DataType::Boolean,
            DataType::Utf8 => DataType::Utf8,
            DataType::Other(name) => DataType::Other(name.clone()),
        }
    }
}

/// A named, typed column of a schema.
#[derive(Clone, Debug, PartialEq)]
pub struct Field {
    pub name: String,
    pub data_type: DataType,
    pub nullable: bool,
}

impl Field {
    /// A field with the given name, type and nullability.
    pub fn new(name: &str, data_type: DataType, nullable: bool) -> (f: Field)
        ensures
            f.name@ == name@,
            f.data_type == data_type,
            f.nullable == nullable,
    {
        Field { name: String::from_str(name), data_type, nullable }
    }

    /// A copy of this field, equal to it.
    pub fn duplicate(&self) -> (r: Field)
        ensures
            r == *self,
    {
        Field { name: self.name.clone(), data_type: self.data_type.duplicate(), nullable: self.nullable }
    }
}

/// The ordered fields of a table.
#[derive(Clone, Debug, PartialEq)]
pub struct Schema {
    pub fields: Vec<Field>,
}

/// The position of the first name equal to `name`, if any.
pub open spec fn first_index_of(names: Seq<Seq<char>>, name: Seq<char>) -> Option<int> {
    if exists|i: int| is_first_index(names, name, i) {
        Some(choose|i: int| is_first_index(names, name, i))
    } else {
        None
    }
}

/// Whether `i` is the first position of `name` in `names`.
pub open spec fn is_first_index(names: Seq<Seq<char>>, name: Seq<char>, i: int) -> bool {
    &&& 0 <= i < names.len()
    &&& names[i] == name
    &&& forall|j: int| 0 <= j < i ==> names[j] != name
}

/// The first position of `name` is unique, so `first_index_of` names it.
pub proof fn lemma_first_index_of(names: Seq<Seq<char>>, name: Seq<char>, i: int)
    requires
        is_first_index(names, name, i),
    ensures
        first_index_of(names, name) == Some(i),
{
    let k = choose|k: int| is_first_index(names, name, k);
    assert(is_first_index(names, name, k));
    if k < i {
        assert(names[k] != name);
    } else if k > i {
        assert(names[i] != name);
    }
}

/// Without an occurrence there is no first one.
pub proof fn lemma_first_index_of_none(names: Seq<Seq<char>>, name: Seq<char>)
    requires
        forall|j: int| 0 <= j < names.len() ==> names[j] != name,
    ensures
        first_index_of(names, name) is None,
{
}

impl Schema {
    /// A schema with the given fields.
    pub fn new(fields: Vec<Field>) -> (s: Schema)
        ensures
            s.fields == fields,
    {
        Schema { fields }
    }

    /// The names of the fields, in order.
    pub open spec fn names(&self) -> Seq<Seq<char>> {
        self.fields@.map_values(|f: Field| f.name@)
    }

    /// The position of the first field called `name`, if any.
    pub fn index_of(&self, name: &str) -> (r: Option<usize>)
        ensures
            match r {
                Some(i) => first_index_of(self.names(), name@) == Some(i as int),
                None => first_index_of(self.names(), name@) is None,
            },
    {
        let target = String::from_str(name);
        let n = self.fields.len();
        let mut i: usize = 0;
        while i < n
            invariant
                n == self.fields@.len(),
                i <= n,
                target@ == name@,
                forall|j: int| 0 <= j < i ==> self.names()[j] != name@,
            decreases n - i,
        {
            if self.fields[i].name == target {
                proof {
                    lemma_first_index_of(self.names(), name@, i as int);
                }
                return Some(i);
            }
            i = i + 1;
        }
        proof {
            lemma_first_index_of_none(self.names(), name@);
        }
        None
    }

    /// The first field called `name`, if any.
    pub fn field_with_name(&self, name: &str) -> (r: Option<&Field>)
        ensures
            match first_index_of(self.names(), name@) {
                Some(i) => r == Some(&self.fields@[i]),
                None => r is None,
            },
    {
        match self.index_of(name) {
            Some(i) => Some(&self.fields[i]),
            None => None,
        }
    }

    /// A copy of this schema, with equal fields.
    pub fn duplicate(&self) -> (r: Schema)
        ensures
            r.fields@ == self.fields@,
    {
        let mut fields: Vec<Field> = Vec::new();
        let n = self.fields.len();
        for i in 0..n
            invariant
                n == self.fields@.len(),
                fields@ == self.fields@.take(i as int),
        {
            fields.push(self.fields[i].duplicate());
            assert(fields@ =~= self.fields@.take(i + 1));
        }
        assert(fields@ =~= self.fields@);
        Schema { fields }
    }
}


/// Whether columns fit a schema: one column per field, all with `rows` cells.
pub open spec fn shaped(fields: Seq<Field>, columns: Seq<Seq<ScalarValue>>, rows: nat) -> bool {
    &&& columns.len() == fields.len()
    &&& forall|c: int| 0 <= c < columns.len() ==> #[trigger] columns[c].len() == rows
}

/// The cells of column `c` of each batch, one batch after the other.
pub open spec fn concat_column(batches: Seq<RecordBatch>, c: int) -> Seq<ScalarValue>
    decreases batches.len(),
{
    if batches.len() == 0 {
        Seq::empty()
    } else {
        concat_column(batches.drop_last(), c) + batches.last().columns()[c]
    }
}

/// The number of rows of all batches together.
pub open spec fn total_rows(batches: Seq<RecordBatch>) -> nat
    decreases batches.len(),
{
    if batches.len() == 0 {
        0
    } else {
        total_rows(batches.drop_last()) + batches.last().num_rows_spec()
    }
}

/// Columns of equal length under a schema.
#[derive(Debug)]
pub struct RecordBatch {
    schema: Schema,
    columns: Vec<Vec<ScalarValue>>,
    num_rows: usize,
}

impl RecordBatch {
    #[verifier::type_invariant]
    pub closed spec fn wf(self) -> bool {
        shaped(self.schema.fields@, self.columns(), self.num_rows as nat)
    }

    /// The fields of the batch's schema.
    pub closed spec fn fields(self) -> Seq<Field> {
        self.schema.fields@
    }

    /// The cells of the batch, column by column.
    pub closed spec fn columns(self) -> Seq<Seq<ScalarValue>> {
        self.columns@.map_values(|c: Vec<ScalarValue>| c@)
    }

    /// The number of rows.
    pub closed spec fn num_rows_spec(self) -> nat {
        self.num_rows as nat
    }

    /// The shape that every batch has.
    pub proof fn lemma_shape(self)
        requires
            self.wf(),
        ensures
            shaped(self.fields(), self.columns(), self.num_rows_spec()),
    {
    }

    /// A batch of the given columns, checked against the schema as a record
    /// batch is: one column per field, at least one column, and columns of
    /// equal length.
    pub fn try_new(schema: Schema, columns: Vec<Vec<ScalarValue>>) -> (r: Result<RecordBatch, ClusterError>)
        ensures
            columns@.len() != schema.fields@.len() ==> (r matches Err(e) && e
                == (ClusterError::ColumnCountMismatch {
                fields: schema.fields@.len() as usize,
                columns: columns@.len() as usize,
            })),
            columns@.len() == schema.fields@.len() && columns@.len() == 0 ==> (r matches Err(e) && e
                == ClusterError::NoColumns),
            columns@.len() == schema.fields@.len() && columns@.len() > 0 ==> match r {
                Ok(b) => {
                    &&& forall|c: int| 0 <= c < columns@.len() ==> (#[trigger] columns@[c])@.len() == columns@[0]@.len()
                    &&& b.fields() == schema.fields@
                    &&& b.columns() == columns@.map_values(|c: Vec<ScalarValue>| c@)
                    &&& b.num_rows_spec() == columns@[0]@.len()
                },
                Err(e) => exists|c: int| {
                    &&& 0 <= c < columns@.len()
                    &&& (#[trigger] columns@[c])@.len() != columns@[0]@.len()
                    &&& forall|d: int| 0 <= d < c ==> (#[trigger] columns@[d])@.len() == columns@[0]@.len()
                    &&& e == (ClusterError::ColumnLengthMismatch {
                        index: c as usize,
                        expected: columns@[0]@.len() as usize,
                        got: columns@[c]@.len() as usize,
                    })
                },
            },
    {
        if columns.len() != schema.fields.len() {
            let e = ClusterError::ColumnCountMismatch {
                fields: schema.fields.len(),
                columns: columns.len(),
            };
            assert(e == ClusterError::ColumnCountMismatch {
                fields: schema.fields@.len() as usize,
                columns: columns@.len() as usize,
            });
            return Err(e);
        }
        if columns.len() == 0 {
            return Err(ClusterError::NoColumns);
        }
        let rows = columns[0].len();
        let n = columns.len();
        for c in 0..n
            invariant
                n == columns@.len(),
                n == schema.fields@.len(),
                n > 0,
                rows == columns@[0]@.len(),
                forall|d: int| 0 <= d < c ==> #[trigger] columns@[d]@.len() == rows,
        {
            if columns[c].len() != rows {
                return Err(ClusterError::ColumnLengthMismatch {
                    index: c,
                    expected: rows,
                    got: columns[c].len(),
                });
            }
        }
        let b = RecordBatch { schema, columns, num_rows: rows };
        assert(b.columns() =~= columns@.map_values(|c: Vec<ScalarValue>| c@));
        Ok(b)
    }

    /// A batch with no rows under the schema.
    pub fn new_empty(schema: Schema) -> (b: RecordBatch)
        ensures
            b.fields() == schema.fields@,
            b.num_rows_spec() == 0,
    {
        let mut columns: Vec<Vec<ScalarValue>> = Vec::new();
        let n = schema.fields.len();
        for i in 0..n
            invariant
                columns@.len() == i,
                forall|c: int| 0 <= c < i ==> (#[trigger] columns@[c])@.len() == 0,
        {
            columns.push(Vec::new());
        }
        RecordBatch { schema, columns, num_rows: 0 }
    }

    /// The schema of the batch.
    pub fn schema(&self) -> (s: &Schema)
        ensures
            s.fields@ == self.fields(),
    {
        &self.schema
    }

    /// The number of rows.
    pub fn num_rows(&self) -> (n: usize)
        ensures
            n == self.num_rows_spec(),
    {
        self.num_rows
    }

    /// The number of columns.
    pub fn num_columns(&self) -> (n: usize)
        ensures
            n == self.columns().len(),
            n == self.fields().len(),
    {
        proof {
            use_type_invariant(self);
        }
        self.columns.len()
    }

    /// The cells of column `i`.
    pub fn column(&self, i: usize) -> (col: &Vec<ScalarValue>)
        requires
            i < self.columns().len(),
        ensures
            col@ == self.columns()[i as int],
            col@.len() == self.num_rows_spec(),
    {
        proof {
            use_type_invariant(self);
            assert(self.columns()[i as int] == self.columns@[i as int]@);
        }
        &self.columns[i]
    }

    /// The rows at `indices`, in that order, under the same schema.
    pub fn take(&self, indices: &Vec<u32>) -> (b: RecordBatch)
        requires
            forall|i: int| 0 <= i < indices@.len() ==> (#[trigger] indices@[i]) < self.num_rows_spec(),
        ensures
            b.fields() == self.fields(),
            b.num_rows_spec() == indices@.len(),
            b.columns().len() == self.columns().len(),
            forall|c: int, i: int|
                0 <= c < self.columns().len() && 0 <= i < indices@.len() ==> #[trigger] b.columns()[c][i]
                    == self.columns()[c][indices@[i] as int],
    {
        proof {
            use_type_invariant(self);
        }
        let n = self.columns.len();
        let m = indices.len();
        let mut columns: Vec<Vec<ScalarValue>> = Vec::new();
        for c in 0..n
            invariant
                n == self.columns@.len(),
                m == indices@.len(),
                shaped(self.schema.fields@, self.columns(), self.num_rows as nat),
                forall|i: int| 0 <= i < indices@.len() ==> (#[trigger] indices@[i]) < self.num_rows,
                columns@.len() == c,
                forall|d: int| 0 <= d < c ==> (#[trigger] columns@[d])@.len() == m,
                forall|d: int, i: int|
                    0 <= d < c && 0 <= i < m ==> #[trigger] columns@[d]@[i] == self.columns@[d]@[indices@[i] as int],
        {
            let src = &self.columns[c];
            assert(src@ == self.columns()[c as int]);
            let mut out: Vec<ScalarValue> = Vec::new();
            for i in 0..m
                invariant
                    m == indices@.len(),
                    src@.len() == self.num_rows,
                    forall|i: int| 0 <= i < indices@.len() ==> (#[trigger] indices@[i]) < self.num_rows,
                    out@.len() == i,
                    forall|j: int| 0 <= j < i ==> #[trigger] out@[j] == src@[indices@[j] as int],
            {
                out.push(src[indices[i] as usize].duplicate());
            }
            columns.push(out);
        }
        let b = RecordBatch { schema: self.schema.duplicate(), columns, num_rows: m };
        assert(shaped(b.schema.fields@, b.columns(), b.num_rows as nat));
        b
    }

    /// `length` rows starting at row `offset`, under the same schema.
    pub fn slice(&self, offset: usize, length: usize) -> (b: RecordBatch)
        requires
            offset + length <= self.num_rows_spec(),
        ensures
            b.fields() == self.fields(),
            b.num_rows_spec() == length,
            b.columns().len() == self.columns().len(),
            forall|c: int|
                0 <= c < self.columns().len() ==> #[trigger] b.columns()[c] == self.columns()[c].subrange(
                    offset as int,
                    offset + length,
                ),
    {
        proof {
            use_type_invariant(self);
        }
        let n = self.columns.len();
        let mut columns: Vec<Vec<ScalarValue>> = Vec::new();
        for c in 0..n
            invariant
                n == self.columns@.len(),
                offset + length <= self.num_rows,
                shaped(self.schema.fields@, self.columns(), self.num_rows as nat),
                columns@.len() == c,
                forall|d: int| 0 <= d < c ==> (#[trigger] columns@[d])@ == self.columns@[d]@.subrange(
                    offset as int,
                    offset + length,
                ),
        {
            let src = &self.columns[c];
            assert(src@ == self.columns()[c as int]);
            let mut out: Vec<ScalarValue> = Vec::new();
            for i in 0..length
                invariant
                    src@.len() == self.num_rows,
                    offset + length <= self.num_rows,
                    out@ == src@.subrange(offset as int, offset + i),
            {
                out.push(src[offset + i].duplicate());
                assert(out@ =~= src@.subrange(offset as int, offset + i + 1));
            }
            columns.push(out);
        }
        assert forall|d: int| 0 <= d < columns@.len() implies (#[trigger] columns@[d])@.len() == length by {
            assert(self.columns@[d]@ == self.columns()[d]);
        }
        let b = RecordBatch { schema: self.schema.duplicate(), columns, num_rows: length };
        assert(b.columns().len() == self.columns().len());
        assert forall|c: int| 0 <= c < self.columns().len() implies #[trigger] b.columns()[c]
            == self.columns()[c].subrange(offset as int, offset + length) by {}
        b
    }
}


/// Appends copies of the cells of `col` to `out`.
fn append_cells(out: &mut Vec<ScalarValue>, col: &Vec<ScalarValue>)
    ensures
        final(out)@ == old(out)@ + col@,
{
    let n = col.len();
    for i in 0..n
        invariant
            n == col@.len(),
            out@ == old(out)@ + col@.take(i as int),
    {
        out.push(col[i].duplicate());
        assert(out@ =~= old(out)@ + col@.take(i + 1));
    }
    assert(col@.take(n as int) =~= col@);
}

/// The rows of all batches, one batch after the other, under `schema`.
///
/// Each batch has one column per field of `schema`.
pub fn concat_batches(schema: &Schema, batches: &Vec<RecordBatch>) -> (r: RecordBatch)
    requires
        forall|b: int| 0 <= b < batches@.len() ==> (#[trigger] batches@[b]).fields().len()
            == schema.fields@.len(),
        total_rows(batches@) <= usize::MAX,
    ensures
        r.fields() == schema.fields@,
        r.num_rows_spec() == total_rows(batches@),
        r.columns().len() == schema.fields@.len(),
        forall|c: int| 0 <= c < schema.fields@.len() ==> #[trigger] r.columns()[c] == concat_column(batches@, c),
{
    let nb = batches.len();
    let nf = schema.fields.len();
    let mut rows: usize = 0;
    for b in 0..nb
        invariant
            nb == batches@.len(),
            total_rows(batches@) <= usize::MAX,
            rows == total_rows(batches@.take(b as int)),
    {
        proof {
            lemma_total_rows_prefix(batches@, b as int);
            lemma_total_rows_prefix(batches@, b + 1);
            assert(batches@.take(b + 1).drop_last() =~= batches@.take(b as int));
        }
        rows = rows + batches[b].num_rows();
    }
    assert(batches@.take(nb as int) =~= batches@);
    let mut columns: Vec<Vec<ScalarValue>> = Vec::new();
    for c in 0..nf
        invariant
            nb == batches@.len(),
            nf == schema.fields@.len(),
            rows == total_rows(batches@),
            forall|b: int| 0 <= b < batches@.len() ==> (#[trigger] batches@[b]).fields().len()
                == schema.fields@.len(),
            columns@.len() == c,
            forall|d: int| 0 <= d < c ==> (#[trigger] columns@[d])@ == concat_column(batches@, d),
            forall|d: int| 0 <= d < c ==> (#[trigger] columns@[d])@.len() == rows,
    {
        let mut out: Vec<ScalarValue> = Vec::new();
        for b in 0..nb
            invariant
                nb == batches@.len(),
                c < nf,
                nf == schema.fields@.len(),
                forall|b: int| 0 <= b < batches@.len() ==> (#[trigger] batches@[b]).fields().len()
                    == schema.fields@.len(),
                out@ == concat_column(batches@.take(b as int), c as int),
                out@.len() == total_rows(batches@.take(b as int)),
        {
            let batch = &batches[b];
            proof {
                use_type_invariant(batch);
                batch.lemma_shape();
                assert(batches@.take(b + 1).drop_last() =~= batches@.take(b as int));
                assert(batches@.take(b + 1).last() == batches@[b as int]);
            }
            append_cells(&mut out, batch.column(c));
        }
        assert(batches@.take(nb as int) =~= batches@);
        columns.push(out);
    }
    let r = RecordBatch { schema: schema.duplicate(), columns, num_rows: rows };
    assert(r.columns().len() == nf);
    r
}

proof fn lemma_total_rows_prefix(batches: Seq<RecordBatch>, b: int)
    requires
        0 <= b <= batches.len(),
    ensures
        total_rows(batches.take(b)) <= total_rows(batches),
    decreases batches.len(),
{
    if b < batches.len() {
        assert(batches.drop_last().take(b) =~= batches.take(b));
        lemma_total_rows_prefix(batches.drop_last(), b);
    } else {
        assert(batches.take(b) =~= batches);
    }
}

} // verus!
