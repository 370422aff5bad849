//! Clustering algorithms: how a row's key values become a sort key.

use hilbert_index::ToHilbertIndex;
use vstd::arithmetic::power2::{lemma2_to64_rest, lemma_pow2_strictly_increases, lemma_pow2_unfold, pow2};
use vstd::prelude::*;
use vstd::string::StringExecFns;

use crate::batch::RecordBatch;
use crate::error::ClusterError;
use crate::sort_key::{be_bytes, lemma_be_bytes_order, lemma_pow256_values, lex_lt, push_be_bytes, scalar_value_to_sort_key, spec_sort_key};
use crate::value::{ScalarValue, spec_is_numeric};

verus! {

/// A way to order rows by their clustering key values.
///
/// `prepare` sees every batch once before any key is computed, so that an
/// algorithm can gather what it needs (such as the bounds of each column).
/// `compute_sort_key` maps the key values of one row to bytes; rows are then
/// ordered by the lexicographic order of those bytes.
pub trait ClusteringAlgorithm {
    /// Whether `key` is a sort key that this algorithm gives for `values`.
    /// By default any key may be given.
    open spec fn admits_key(&self, values: Seq<ScalarValue>, key: Seq<u8>) -> bool {
        true
    }

    /// Whether the algorithm gives a key, rather than an error, for `values`.
    /// By default nothing is promised.
    open spec fn accepts(&self, values: Seq<ScalarValue>) -> bool {
        false
    }

    /// Whether `e` is an error that the algorithm may give for `values`.
    /// By default any error may be given.
    open spec fn refuses_with(&self, values: Seq<ScalarValue>, e: ClusterError) -> bool {
        true
    }

    /// The key result that the algorithm gives for `values`, where it fixes
    /// one: the key's bytes, or the error. By default none is fixed.
    open spec fn key_of(&self, values: Seq<ScalarValue>) -> Option<Result<Seq<u8>, ClusterError>> {
        None
    }

    /// Whether preparing on these batches and keys succeeds. By default
    /// nothing is promised.
    open spec fn prepares(&self, batches: Seq<RecordBatch>, keys: Seq<String>) -> bool {
        false
    }

    /// Whether `e` is an error that preparing on these batches and keys may
    /// give. By default any error may be given.
    open spec fn prepare_refuses_with(&self, batches: Seq<RecordBatch>, keys: Seq<String>, e: ClusterError) -> bool {
        true
    }

    /// The name of the algorithm.
    fn name(&self) -> &str;

    /// Looks at all batches before keys are computed. By default, nothing to do.
    fn prepare(&self, batches: &[RecordBatch], keys: &[String]) -> (r: Result<(), ClusterError>)
        ensures
            self.prepares(batches@, keys@) ==> r is Ok,
            r matches Err(e) ==> self.prepare_refuses_with(batches@, keys@, e),
        default_ensures
            r is Ok,
    {
        Ok(())
    }

    /// The sort key of a row, given the values of its clustering keys in order.
    fn compute_sort_key(&self, values: &[ScalarValue]) -> (r: Result<Vec<u8>, ClusterError>)
        ensures
            r matches Ok(k) ==> self.admits_key(values@, k@),
            r matches Err(e) ==> self.refuses_with(values@, e),
            self.accepts(values@) ==> r is Ok,
            self.key_of(values@) matches Some(kr) ==> kr == match r {
                Ok(k) => Ok::<Seq<u8>, ClusterError>(k@),
                Err(e) => Err::<Seq<u8>, ClusterError>(e),
            },
    ;
}

/// Orders rows by the value of a single clustering column.
#[derive(Clone, Copy, Debug, PartialEq, Eq, Structural)]
pub struct DirectSortAlgorithm;

impl DirectSortAlgorithm {
    /// The direct sort.
    pub fn new() -> (a: DirectSortAlgorithm)
        ensures
            a == DirectSortAlgorithm,
    {
        DirectSortAlgorithm
    }
}

impl Default for DirectSortAlgorithm {
    fn default() -> (a: DirectSortAlgorithm)
        ensures
            a == DirectSortAlgorithm,
    {
        DirectSortAlgorithm::new()
    }
}

impl ClusteringAlgorithm for DirectSortAlgorithm {
    /// The key of exactly one value is that value's sort key.
    open spec fn admits_key(&self, values: Seq<ScalarValue>, key: Seq<u8>) -> bool {
        values.len() == 1 && key == spec_sort_key(values[0])
    }

    /// Exactly one value has a key.
    open spec fn accepts(&self, values: Seq<ScalarValue>) -> bool {
        values.len() == 1
    }

    /// Any other number of values is refused with the count it had.
    open spec fn refuses_with(&self, values: Seq<ScalarValue>, e: ClusterError) -> bool {
        values.len() != 1 && e == (ClusterError::DirectValueCount { got: values.len() as usize })
    }

    /// The sort key of the one value, or the count error.
    open spec fn key_of(&self, values: Seq<ScalarValue>) -> Option<Result<Seq<u8>, ClusterError>> {
        if values.len() == 1 {
            Some(Ok(spec_sort_key(values[0])))
        } else {
            Some(Err(ClusterError::DirectValueCount { got: values.len() as usize }))
        }
    }

    /// There is nothing to prepare.
    open spec fn prepares(&self, batches: Seq<RecordBatch>, keys: Seq<String>) -> bool {
        true
    }

    fn name(&self) -> (n: &str)
        ensures
            n@ == "direct"@,
    {
        "direct"
    }

    fn compute_sort_key(&self, values: &[ScalarValue]) -> (r: Result<Vec<u8>, ClusterError>)
        ensures
            values@.len() != 1 ==> r == Err::<Vec<u8>, ClusterError>(
                ClusterError::DirectValueCount { got: values@.len() as usize },
            ),
            values@.len() == 1 ==> (r matches Ok(k) && k@ == spec_sort_key(values@[0])),
    {
        if values.len() != 1 {
            return Err(ClusterError::DirectValueCount { got: values.len() });
        }
        Ok(scalar_value_to_sort_key(&values[0]))
    }
}

/// The Hilbert index of a grid point whose coordinates each have `level`
/// bits, as the `hilbert_index` crate numbers the points of its curve.
pub uninterp spec fn hilbert_index_of(coords: Seq<usize>, level: usize) -> usize;

/// `ToHilbertIndex::to_hilbert_index` on a point of `D` coordinates: the
/// result is the crate's Hilbert index of the point. The crate documents its
/// curve of level `l` as a map from the indices `0..2^(D * l)` onto the grid
/// points whose coordinates are below `2^l`, filling all of them; as there are
/// as many such points as indices, no two of them share an index. So for such
/// a point, where `D * level` bits fit in a `usize`, the index is below
/// `2^(D * level)` and is the index of no other such point; which index a
/// point gets is not restated. The
/// crate shifts each coordinate right by up to `level - 1` bits, shifts
/// `usize::MAX` and the index left by `D` bits, and rotates within `D` bits
/// (reducing modulo `D`), so no shift reaches the width of `usize` when
/// `level` is at most that width and `D` is from 1 to one less than it.
#[verifier::external_body]
fn hilbert_index<const D: usize>(coords: [usize; D], level: usize) -> (h: usize)
    requires
        1 <= D < usize::BITS,
        level <= usize::BITS,
    ensures
        h == hilbert_index_of(coords@, level),
        (forall|i: int| 0 <= i < D ==> coords@[i] < pow2(level as nat)) && D * level <= usize::BITS
            ==> h < pow2((D * level) as nat),
        (forall|i: int| 0 <= i < D ==> coords@[i] < pow2(level as nat)) && D * level <= usize::BITS
            ==> forall|p: Seq<usize>|
            p.len() == D && (forall|i: int| 0 <= i < D ==> p[i] < pow2(level as nat)) && p != coords@
                ==> #[trigger] hilbert_index_of(p, level) != h,
{
    coords.to_hilbert_index(level)
}

/// Orders rows of 2 to 4 clustering columns along a Hilbert curve.
///
/// Each value is scaled to a grid coordinate of `bits` bits between the
/// bounds of its column; the key is the big-endian Hilbert index of the point.
#[derive(Clone, Copy, Debug, PartialEq, Eq, Structural)]
pub struct HilbertCurveAlgorithm {
    dimension: usize,
    bits: usize,
}

/// The number of bytes of a `usize`, the width of a Hilbert key.
pub open spec fn usize_bytes() -> nat {
    (usize::BITS / 8) as nat
}

/// The key that the Hilbert curve gives for `values`, when `prepared` column
/// bounds are known and `coords` holds the grid coordinate of each value.
///
/// The number of values must match the dimension, and the bounds must have
/// been prepared; a row with a value that is not a number gets the empty key;
/// only 2 to 4 dimensions have a curve.
pub open spec fn hilbert_key(
    alg: HilbertCurveAlgorithm,
    values: Seq<ScalarValue>,
    prepared: usize,
    coords: Seq<usize>,
) -> Result<Seq<u8>, ClusterError> {
    if values.len() != alg.spec_dimension() {
        Err(ClusterError::HilbertValueCount { expected: alg.spec_dimension(), got: values.len() as usize })
    } else if prepared != alg.spec_dimension() {
        Err(ClusterError::HilbertNotPrepared)
    } else if exists|i: int| 0 <= i < values.len() && !spec_is_numeric(#[trigger] values[i]) {
        Ok(Seq::empty())
    } else if alg.spec_dimension() < 2 || alg.spec_dimension() > 4 {
        Err(ClusterError::HilbertUnsupportedDimension { dimension: alg.spec_dimension() })
    } else {
        Ok(be_bytes(hilbert_index_of(coords.take(alg.spec_dimension() as int), alg.spec_bits()) as nat, usize_bytes()))
    }
}

impl HilbertCurveAlgorithm {
    /// The number of clustering columns.
    pub closed spec fn spec_dimension(self) -> usize {
        self.dimension
    }

    /// The number of bits of each grid coordinate.
    pub closed spec fn spec_bits(self) -> usize {
        self.bits
    }

    /// The Hilbert curve in `dimension` dimensions, with 16 bits per coordinate.
    pub fn new(dimension: usize) -> (a: HilbertCurveAlgorithm)
        ensures
            a.spec_dimension() == dimension,
            a.spec_bits() == 16,
    {
        HilbertCurveAlgorithm { dimension, bits: 16 }
    }

    /// The same curve with `bits` bits per coordinate.
    pub fn with_bits(self, bits: usize) -> (a: HilbertCurveAlgorithm)
        ensures
            a.spec_dimension() == self.spec_dimension(),
            a.spec_bits() == bits,
    {
        HilbertCurveAlgorithm { dimension: self.dimension, bits }
    }

    /// The number of clustering columns.
    pub fn dimension(&self) -> (d: usize)
        ensures
            d == self.spec_dimension(),
    {
        self.dimension
    }

    /// The number of bits of each grid coordinate.
    pub fn bits(&self) -> (b: usize)
        ensures
            b == self.spec_bits(),
    {
        self.bits
    }

    /// The name of the algorithm.
    pub fn name(&self) -> (n: &str)
        ensures
            n@ == "hilbert"@,
    {
        "hilbert"
    }

    /// The largest grid coordinate, `2^bits - 1`.
    pub fn max_coordinate(&self) -> (m: u64)
        requires
            self.spec_bits() < usize::BITS,
        ensures
            m as nat == pow2(self.spec_bits() as nat) - 1,
    {
        let mut p: u64 = 1;
        let mut i: usize = 0;
        proof {
            vstd::arithmetic::power2::lemma2_to64();
        }
        while i < self.bits
            invariant
                i <= self.bits < usize::BITS <= 64,
                p as nat == pow2(i as nat),
            decreases self.bits - i,
        {
            proof {
                lemma_pow2_unfold((i + 1) as nat);
                lemma_pow2_strictly_increases((i + 1) as nat, 64);
                lemma2_to64_rest();
            }
            p = p * 2;
            i = i + 1;
        }
        proof {
            vstd::arithmetic::power2::lemma_pow2_pos(self.bits as nat);
        }
        p - 1
    }

    /// The sort key of a row whose values have been placed on the grid.
    ///
    /// `prepared` is the number of column bounds that have been prepared, and
    /// `coords[i]` is the grid coordinate of `values[i]` where that value is a
    /// number. Scaling values to coordinates is left to the caller.
    pub fn sort_key_from_coords(&self, values: &[ScalarValue], prepared: usize, coords: &[usize])
        -> (r: Result<Vec<u8>, ClusterError>)
        requires
            coords@.len() == values@.len(),
            self.spec_bits() < usize::BITS || values@.len() != self.spec_dimension() || prepared
                != self.spec_dimension(),
        ensures
            match r {
                Ok(k) => hilbert_key(*self, values@, prepared, coords@) == Ok::<Seq<u8>, ClusterError>(k@),
                Err(e) => hilbert_key(*self, values@, prepared, coords@) == Err::<Seq<u8>, ClusterError>(e),
            },
            self.spec_dimension() * self.spec_bits() <= usize::BITS && (forall|i: int|
                0 <= i < coords@.len() ==> coords@[i] < pow2(self.spec_bits() as nat)) ==> (r matches Ok(
                k,
            ) ==> k@.len() == 0 || exists|h: nat|
                h < pow2((self.spec_dimension() * self.spec_bits()) as nat) && k@ == be_bytes(
                    h,
                    usize_bytes(),
                )),
            values@.len() == self.spec_dimension() && prepared == self.spec_dimension() && 2
                <= self.spec_dimension() <= 4 && (forall|i: int|
                0 <= i < values@.len() ==> spec_is_numeric(#[trigger] values@[i])) ==> (r matches Ok(k)
                && k@ == be_bytes(hilbert_index_of(coords@, self.spec_bits()) as nat, usize_bytes())),
            values@.len() == self.spec_dimension() && prepared == self.spec_dimension() && 2
                <= self.spec_dimension() <= 4 && (forall|i: int|
                0 <= i < values@.len() ==> spec_is_numeric(#[trigger] values@[i]))
                && self.spec_dimension() * self.spec_bits() <= usize::BITS && (forall|i: int|
                0 <= i < coords@.len() ==> coords@[i] < pow2(self.spec_bits() as nat)) ==> (r matches Ok(k)
                && forall|p: Seq<usize>|
                p.len() == coords@.len() && (forall|i: int|
                    0 <= i < p.len() ==> p[i] < pow2(self.spec_bits() as nat)) && p != coords@
                    ==> be_bytes(#[trigger] hilbert_index_of(p, self.spec_bits()) as nat, usize_bytes())
                    != k@),
    {
        if values.len() != self.dimension {
            return Err(ClusterError::HilbertValueCount { expected: self.dimension, got: values.len() });
        }
        if prepared != self.dimension {
            return Err(ClusterError::HilbertNotPrepared);
        }
        let n = values.len();
        for i in 0..n
            invariant
                n == values@.len(),
                n == self.spec_dimension(),
                prepared == self.spec_dimension(),
                forall|j: int| 0 <= j < i ==> spec_is_numeric(#[trigger] values@[j]),
        {
            if !values[i].is_numeric() {
                assert(!spec_is_numeric(values@[i as int]));
                let empty: Vec<u8> = Vec::new();
                assert(empty@ =~= Seq::<u8>::empty());
                return Ok(empty);
            }
        }
        let index: usize = if self.dimension == 2 {
            assert(coords@.take(2) =~= [coords[0], coords[1]]@);
            assert(coords@ =~= [coords[0], coords[1]]@);
            hilbert_index([coords[0], coords[1]], self.bits)
        } else if self.dimension == 3 {
            assert(coords@.take(3) =~= [coords[0], coords[1], coords[2]]@);
            assert(coords@ =~= [coords[0], coords[1], coords[2]]@);
            hilbert_index([coords[0], coords[1], coords[2]], self.bits)
        } else if self.dimension == 4 {
            assert(coords@.take(4) =~= [coords[0], coords[1], coords[2], coords[3]]@);
            assert(coords@ =~= [coords[0], coords[1], coords[2], coords[3]]@);
            hilbert_index([coords[0], coords[1], coords[2], coords[3]], self.bits)
        } else {
            return Err(ClusterError::HilbertUnsupportedDimension { dimension: self.dimension });
        };
        let width: usize = (usize::BITS / 8) as usize;
        let mut key: Vec<u8> = Vec::new();
        push_be_bytes(&mut key, index as u64, width);
        assert(key@ =~= be_bytes(index as nat, usize_bytes()));
        proof {
            assert forall|p: Seq<usize>| hilbert_index_of(p, self.bits) != index implies be_bytes(
                #[trigger] hilbert_index_of(p, self.bits) as nat,
                usize_bytes(),
            ) != key@ by {
                lemma_hilbert_key_order(hilbert_index_of(p, self.bits), index);
            }
        }
        Ok(key)
    }
}


/// The algorithm chosen for a number of clustering columns.
#[derive(Clone, Copy, Debug, PartialEq, Eq, Structural)]
pub enum Algorithm {
    Direct(DirectSortAlgorithm),
    Hilbert(HilbertCurveAlgorithm),
}

impl Algorithm {
    /// The name of the chosen algorithm.
    pub fn name(&self) -> (n: &str)
        ensures
            self is Direct ==> n@ == "direct"@,
            self is Hilbert ==> n@ == "hilbert"@,
    {
        match self {
            Algorithm::Direct(a) => a.name(),
            Algorithm::Hilbert(a) => a.name(),
        }
    }
}

/// What `serde_json` gives for three calls in a row: parsing `text` into a
/// `Value`, looking up the member `key`, and reading that member as a `u64`.
/// `None` where `text` is not JSON, holds no such member, or the member is
/// not an integer that fits in 64 bits.
pub uninterp spec fn json_u64_member(text: Seq<char>, key: Seq<char>) -> Option<u64>;

/// `serde_json::from_str` into a `Value`, then `Value::get` and
/// `Value::as_u64`: the result is the crate's reading of the member, which
/// depends on the two strings alone; what that reading is, is not restated.
#[verifier::external_body]
fn json_u64_field(text: &str, key: &str) -> (r: Option<u64>)
    ensures
        r == json_u64_member(text@, key@),
{
    match serde_json::from_str::<serde_json::Value>(text) {
        Ok(value) => value.get(key).and_then(serde_json::Value::as_u64),
        Err(_) => None,
    }
}

/// A given name is the name asked for, as it is; none asks for `"auto"`.
pub proof fn lemma_name_or_auto(name: Option<&str>)
    ensures
        name matches Some(n) ==> name_or_auto(name) == n@,
        name is None ==> name_or_auto(name) == "auto"@,
{
}

/// The algorithm name asked for, `"auto"` when none is.
pub open spec fn name_or_auto(name: Option<&str>) -> Seq<char> {
    match name {
        Some(n) => n@,
        None => "auto"@,
    }
}

/// The number of bits per coordinate asked for: the `bits` member of the
/// JSON parameters, 16 when there is none.
pub open spec fn bits_param(params: Option<&str>) -> u64 {
    match params {
        Some(p) => match json_u64_member(p@, "bits"@) {
            Some(b) => b,
            None => 16,
        },
        None => 16,
    }
}

/// The Hilbert curve in `dimension` dimensions with `bits` bits per
/// coordinate (16 when not given), as long as the index fits in 64 bits.
pub fn hilbert_with_bits(dimension: usize, bits: Option<u64>) -> (r: Result<HilbertCurveAlgorithm, ClusterError>)
    requires
        2 <= dimension <= 4,
    ensures
        ({
            let b: u64 = match bits {
                Some(b) => b,
                None => 16,
            };
            &&& dimension * b <= 64 ==> (r matches Ok(h) && h.spec_dimension() == dimension
                && h.spec_bits() == b)
            &&& dimension * b > 64 ==> r == Err::<HilbertCurveAlgorithm, ClusterError>(
                (ClusterError::HilbertBitsExceed { dimension, bits: b }),
            )
        }),
{
    let bits: u64 = match bits {
        Some(b) => b,
        None => 16,
    };
    if bits > 64 {
        assert(dimension * bits > 64) by (nonlinear_arith)
            requires
                dimension >= 2,
                bits > 64,
        ;
        return Err(ClusterError::HilbertBitsExceed { dimension, bits });
    }
    assert(dimension * bits <= 4 * 64) by (nonlinear_arith)
        requires
            dimension <= 4,
            bits <= 64,
    ;
    if (dimension as u64) * bits > 64 {
        return Err(ClusterError::HilbertBitsExceed { dimension, bits });
    }
    assert(bits <= 32) by (nonlinear_arith)
        requires
            dimension >= 2,
            dimension * bits <= 64,
    ;
    Ok(HilbertCurveAlgorithm::new(dimension).with_bits(bits as usize))
}

/// Chooses the clustering algorithm for `dimension` clustering columns.
///
/// One column is sorted directly (name `"auto"` or `"direct"`); two to four
/// columns follow a Hilbert curve (name `"auto"` or `"hilbert"`), with the
/// `bits` member of the JSON parameters (16 by default) as long as the index
/// fits in 64 bits.
pub fn get_algorithm(dimension: usize, algorithm_name: Option<&str>, algorithm_params: Option<&str>)
    -> (r: Result<Algorithm, ClusterError>)
    ensures
        dimension == 1 && (name_or_auto(algorithm_name) == "auto"@ || name_or_auto(algorithm_name)
            == "direct"@) ==> r == Ok::<Algorithm, ClusterError>(Algorithm::Direct(DirectSortAlgorithm)),
        2 <= dimension <= 4 && (name_or_auto(algorithm_name) == "auto"@ || name_or_auto(
            algorithm_name,
        ) == "hilbert"@) && dimension * bits_param(algorithm_params) <= 64 ==> (r matches Ok(
            Algorithm::Hilbert(h),
        ) && h.spec_dimension() == dimension && h.spec_bits() == bits_param(algorithm_params)),
        2 <= dimension <= 4 && (name_or_auto(algorithm_name) == "auto"@ || name_or_auto(
            algorithm_name,
        ) == "hilbert"@) && dimension * bits_param(algorithm_params) > 64 ==> r == Err::<
            Algorithm,
            ClusterError,
        >(
            (ClusterError::HilbertBitsExceed { dimension, bits: bits_param(algorithm_params) }),
        ),
        dimension == 1 && name_or_auto(algorithm_name) != "auto"@ && name_or_auto(algorithm_name)
            != "direct"@ ==> (r matches Err(ClusterError::UnknownAlgorithm { name, dimension: d })
            && name@ == name_or_auto(algorithm_name) && d == 1),
        2 <= dimension <= 4 && name_or_auto(algorithm_name) != "auto"@ && name_or_auto(
            algorithm_name,
        ) != "hilbert"@ ==> (r matches Err(ClusterError::UnknownAlgorithm { name, dimension: d })
            && name@ == name_or_auto(algorithm_name) && d == dimension),
        dimension == 0 || dimension > 4 ==> r == Err::<Algorithm, ClusterError>(
            (ClusterError::InvalidDimension { dimension }),
        ),
        match algorithm_name {
            Some(n) => 1 <= dimension <= 4 && n@ != "auto"@ && !(dimension == 1 && n@ == "direct"@) && !(2
                <= dimension <= 4 && n@ == "hilbert"@) ==> (r matches Err(
                ClusterError::UnknownAlgorithm { name, dimension: d },
            ) && name@ == n@ && d == dimension),
            None => true,
        },
        match algorithm_name {
            Some(n) => (dimension == 1 && (n@ == "auto"@ || n@ == "direct"@)) ==> r == Ok::<
                Algorithm,
                ClusterError,
            >(Algorithm::Direct(DirectSortAlgorithm)),
            None => dimension == 1 ==> r == Ok::<Algorithm, ClusterError>(Algorithm::Direct(DirectSortAlgorithm)),
        },
        match algorithm_name {
            Some(n) => (2 <= dimension <= 4 && (n@ == "auto"@ || n@ == "hilbert"@)) ==> r is Ok || r
                is Err && r->Err_0 is HilbertBitsExceed,
            None => 2 <= dimension <= 4 ==> r is Ok || r is Err && r->Err_0 is HilbertBitsExceed,
        },
{
    let name = match algorithm_name {
        Some(n) => String::from_str(n),
        None => String::from_str("auto"),
    };
    let is_auto = name == String::from_str("auto");
    if dimension == 1 {
        if is_auto || name == String::from_str("direct") {
            Ok(Algorithm::Direct(DirectSortAlgorithm::new()))
        } else {
            Err(ClusterError::UnknownAlgorithm { name, dimension })
        }
    } else if 2 <= dimension && dimension <= 4 {
        if is_auto || name == String::from_str("hilbert") {
            let bits_param = match algorithm_params {
                Some(p) => json_u64_field(p, "bits"),
                None => None,
            };
            match hilbert_with_bits(dimension, bits_param) {
                Ok(h) => Ok(Algorithm::Hilbert(h)),
                Err(e) => Err(e),
            }
        } else {
            Err(ClusterError::UnknownAlgorithm { name, dimension })
        }
    } else {
        Err(ClusterError::InvalidDimension { dimension })
    }
}


/// The Hilbert key of a row of 2 to 4 numbers, with its bounds prepared, is
/// the index of the whole grid point: every one of its coordinates, in order.
pub proof fn lemma_hilbert_key_whole_point(
    alg: HilbertCurveAlgorithm,
    values: Seq<ScalarValue>,
    prepared: usize,
    coords: Seq<usize>,
)
    requires
        values.len() == alg.spec_dimension(),
        prepared == alg.spec_dimension(),
        2 <= alg.spec_dimension() <= 4,
        coords.len() == values.len(),
        forall|i: int| 0 <= i < values.len() ==> spec_is_numeric(#[trigger] values[i]),
    ensures
        hilbert_key(alg, values, prepared, coords) == Ok::<Seq<u8>, ClusterError>(
            be_bytes(hilbert_index_of(coords, alg.spec_bits()) as nat, usize_bytes()),
        ),
{
    assert(coords.take(alg.spec_dimension() as int) =~= coords);
}

/// Hilbert keys compare as the indices they hold: the key of the smaller
/// index comes first, and distinct indices have distinct keys.
pub proof fn lemma_hilbert_key_order(h1: usize, h2: usize)
    ensures
        h1 < h2 <==> lex_lt(be_bytes(h1 as nat, usize_bytes()), be_bytes(h2 as nat, usize_bytes())),
        h1 == h2 <==> be_bytes(h1 as nat, usize_bytes()) == be_bytes(h2 as nat, usize_bytes()),
{
    lemma_pow256_values();
    lemma_be_bytes_order(h1 as nat, h2 as nat, usize_bytes());
}

} // verus!
