//! Byte sort keys whose lexicographic order follows the order of the values.

use vstd::prelude::*;

use crate::value::ScalarValue;

verus! {

/// Lexicographic order on byte strings, as `Ord` orders `[u8]` and `Vec<u8>`:
/// the first differing byte decides, and a proper prefix comes first.
pub open spec fn lex_lt(a: Seq<u8>, b: Seq<u8>) -> bool
    decreases a.len(),
{
    if a.len() == 0 {
        b.len() > 0
    } else if b.len() == 0 {
        false
    } else if a[0] != b[0] {
        a[0] < b[0]
    } else {
        lex_lt(a.drop_first(), b.drop_first())
    }
}

/// `256` to the power `n`.
pub open spec fn pow256(n: nat) -> nat
    decreases n,
{
    if n == 0 {
        1
    } else {
        256 * pow256((n - 1) as nat)
    }
}

/// The `n` low-order bytes of `x`, most significant first.
pub open spec fn be_bytes(x: nat, n: nat) -> Seq<u8>
    decreases n,
{
    if n == 0 {
        Seq::empty()
    } else {
        be_bytes(x / 256, (n - 1) as nat).push((x % 256) as u8)
    }
}

pub proof fn lemma_be_bytes_len(x: nat, n: nat)
    ensures
        be_bytes(x, n).len() == n,
    decreases n,
{
    if n > 0 {
        lemma_be_bytes_len(x / 256, (n - 1) as nat);
    }
}

/// For byte strings of one length, appending one byte to each keeps the
/// order of the prefixes and breaks ties by the appended bytes.
pub proof fn lemma_lex_lt_push(a: Seq<u8>, b: Seq<u8>, c: u8, d: u8)
    requires
        a.len() == b.len(),
    ensures
        lex_lt(a.push(c), b.push(d)) <==> (lex_lt(a, b) || (a == b && c < d)),
    decreases a.len(),
{
    if a.len() == 0 {
        assert(a.push(c)[0] == c);
        assert(b.push(d)[0] == d);
        assert(a.push(c).drop_first() =~= Seq::<u8>::empty());
        assert(b.push(d).drop_first() =~= Seq::<u8>::empty());
        assert(a =~= b);
        assert(lex_lt(a.push(c).drop_first(), b.push(d).drop_first()) == false);
    } else {
        assert(a.push(c)[0] == a[0]);
        assert(b.push(d)[0] == b[0]);
        assert(a.push(c).drop_first() =~= a.drop_first().push(c));
        assert(b.push(d).drop_first() =~= b.drop_first().push(d));
        lemma_lex_lt_push(a.drop_first(), b.drop_first(), c, d);
        if a[0] == b[0] && a.drop_first() == b.drop_first() {
            assert(a =~= b) by {
                assert forall|i: int| 0 <= i < a.len() implies a[i] == b[i] by {
                    if i > 0 {
                        assert(a[i] == a.drop_first()[i - 1]);
                        assert(b[i] == b.drop_first()[i - 1]);
                    }
                }
            }
        }
        if a == b {
            assert(a.drop_first() == b.drop_first());
        }
    }
}

/// Big-endian bytes of a fixed width order numbers: for `x`, `y` that fit in
/// `n` bytes, `x < y` exactly when the bytes of `x` come first, and the bytes
/// are equal exactly when the numbers are.
pub proof fn lemma_be_bytes_order(x: nat, y: nat, n: nat)
    requires
        x < pow256(n),
        y < pow256(n),
    ensures
        x < y <==> lex_lt(be_bytes(x, n), be_bytes(y, n)),
        x == y <==> be_bytes(x, n) == be_bytes(y, n),
    decreases n,
{
    if n == 0 {
    } else {
        let p = pow256((n - 1) as nat);
        assert(x / 256 < p && y / 256 < p) by (nonlinear_arith)
            requires
                x < 256 * p,
                y < 256 * p,
        ;
        lemma_be_bytes_order(x / 256, y / 256, (n - 1) as nat);
        lemma_be_bytes_len(x / 256, (n - 1) as nat);
        lemma_be_bytes_len(y / 256, (n - 1) as nat);
        lemma_lex_lt_push(be_bytes(x / 256, (n - 1) as nat), be_bytes(y / 256, (n - 1) as nat),
            (x % 256) as u8, (y % 256) as u8);
        assert(x < y <==> (x / 256 < y / 256 || (x / 256 == y / 256 && x % 256 < y % 256)))
            by (nonlinear_arith);
        assert(x == y <==> (x / 256 == y / 256 && x % 256 == y % 256)) by (nonlinear_arith);
        let bx = be_bytes(x, n);
        let by_ = be_bytes(y, n);
        if bx == by_ {
            lemma_be_bytes_len(x, n);
            assert(bx.drop_last() =~= be_bytes(x / 256, (n - 1) as nat));
            assert(by_.drop_last() =~= be_bytes(y / 256, (n - 1) as nat));
            assert(bx.last() == (x % 256) as u8);
            assert(by_.last() == (y % 256) as u8);
        }
    }
}

/// Appends the `n` low-order bytes of `x` to `out`, most significant first.
pub fn push_be_bytes(out: &mut Vec<u8>, x: u64, n: usize)
    requires
        n <= 8,
    ensures
        final(out)@ == old(out)@ + be_bytes(x as nat, n as nat),
    decreases n,
{
    if n > 0 {
        push_be_bytes(out, x / 256, n - 1);
        out.push((x % 256) as u8);
        assert(final(out)@ =~= old(out)@ + be_bytes(x as nat, n as nat));
    }
}


/// `256^n` for the widths that keys use.
pub proof fn lemma_pow256_values()
    ensures
        pow256(1) == 0x100,
        pow256(2) == 0x1_0000,
        pow256(4) == 0x1_0000_0000,
        pow256(8) == 0x1_0000_0000_0000_0000,
{
    reveal_with_fuel(pow256, 9);
}

/// The value of a signed integer shifted by half the range of its width
/// (`half`), so that the smallest value becomes 0. In two's complement this
/// is the value with its sign bit flipped.
pub open spec fn offset_code(x: int, half: int) -> nat {
    (x + half) as nat
}

/// Whether an `f32` bit pattern is a NaN.
pub open spec fn f32_is_nan(bits: u32) -> bool {
    bits & 0x7f80_0000 == 0x7f80_0000 && bits & 0x007f_ffff != 0
}

/// Whether an `f64` bit pattern is a NaN.
pub open spec fn f64_is_nan(bits: u64) -> bool {
    bits & 0x7ff0_0000_0000_0000 == 0x7ff0_0000_0000_0000 && bits & 0x000f_ffff_ffff_ffff != 0
}

/// The 32-bit code whose big-endian bytes form the key of an `f32`: NaN
/// takes the largest code; values with the sign bit clear get it set; `-0.0`
/// takes the code of `+0.0`, as the two are equal; other negative values get
/// all their bits flipped.
pub open spec fn f32_code(bits: u32) -> u32 {
    if f32_is_nan(bits) {
        0xffff_ffff
    } else if bits == 0x8000_0000 {
        0x8000_0000
    } else if bits & 0x8000_0000 == 0 {
        bits ^ 0x8000_0000
    } else {
        !bits
    }
}

/// The 64-bit code whose big-endian bytes form the key of an `f64`.
pub open spec fn f64_code(bits: u64) -> u64 {
    if f64_is_nan(bits) {
        0xffff_ffff_ffff_ffff
    } else if bits == 0x8000_0000_0000_0000 {
        0x8000_0000_0000_0000
    } else if bits & 0x8000_0000_0000_0000 == 0 {
        bits ^ 0x8000_0000_0000_0000
    } else {
        !bits
    }
}

/// The sort key of a cell.
///
/// Signed integers, timestamps and dates: big-endian bytes of the value with
/// its sign bit flipped (NULL as the smallest value of the type). Unsigned
/// integers: big-endian bytes (NULL as 0). Floats: big-endian bytes of
/// `f32_code`/`f64_code` (NULL as NaN). NULL of unknown type, booleans and
/// strings: no bytes.
pub open spec fn spec_sort_key(v: ScalarValue) -> Seq<u8> {
    match v {
        ScalarValue::Int8(o) => be_bytes(offset_code(
            match o { Some(x) => x as int, None => i8::MIN as int }, 0x80), 1),
        ScalarValue::Int16(o) => be_bytes(offset_code(
            match o { Some(x) => x as int, None => i16::MIN as int }, 0x8000), 2),
        ScalarValue::Int32(o) => be_bytes(offset_code(
            match o { Some(x) => x as int, None => i32::MIN as int }, 0x8000_0000), 4),
        ScalarValue::Int64(o) => be_bytes(offset_code(
            match o { Some(x) => x as int, None => i64::MIN as int }, 0x8000_0000_0000_0000), 8),
        ScalarValue::UInt8(o) => be_bytes(match o { Some(x) => x as nat, None => 0 }, 1),
        ScalarValue::UInt16(o) => be_bytes(match o { Some(x) => x as nat, None => 0 }, 2),
        ScalarValue::UInt32(o) => be_bytes(match o { Some(x) => x as nat, None => 0 }, 4),
        ScalarValue::UInt64(o) => be_bytes(match o { Some(x) => x as nat, None => 0 }, 8),
        ScalarValue::Float32(o) => be_bytes(
            match o { Some(b) => f32_code(b) as nat, None => 0xffff_ffff }, 4),
        ScalarValue::Float64(o) => be_bytes(
            match o { Some(b) => f64_code(b) as nat, None => 0xffff_ffff_ffff_ffff }, 8),
        ScalarValue::TimestampSecond(o, _) => be_bytes(offset_code(
            match o { Some(x) => x as int, None => i64::MIN as int }, 0x8000_0000_0000_0000), 8),
        ScalarValue::TimestampMillisecond(o, _) => be_bytes(offset_code(
            match o { Some(x) => x as int, None => i64::MIN as int }, 0x8000_0000_0000_0000), 8),
        ScalarValue::TimestampMicrosecond(o, _) => be_bytes(offset_code(
            match o { Some(x) => x as int, None => i64::MIN as int }, 0x8000_0000_0000_0000), 8),
        ScalarValue::TimestampNanosecond(o, _) => be_bytes(offset_code(
            match o { Some(x) => x as int, None => i64::MIN as int }, 0x8000_0000_0000_0000), 8),
        ScalarValue::Date32(o) => be_bytes(offset_code(
            match o { Some(x) => x as int, None => i32::MIN as int }, 0x8000_0000), 4),
        ScalarValue::Date64(o) => be_bytes(offset_code(
            match o { Some(x) => x as int, None => i64::MIN as int }, 0x8000_0000_0000_0000), 8),
        _ => Seq::empty(),
    }
}

fn i8_code(x: i8) -> (c: u64)
    ensures
        c as int == offset_code(x as int, 0x80),
{
    let c: u8 = (x as u8) ^ 0x80;
    assert(((x as u8) ^ 0x80u8) as int == x as int + 0x80) by (bit_vector);
    c as u64
}

fn i16_code(x: i16) -> (c: u64)
    ensures
        c as int == offset_code(x as int, 0x8000),
{
    let c: u16 = (x as u16) ^ 0x8000;
    assert(((x as u16) ^ 0x8000u16) as int == x as int + 0x8000) by (bit_vector);
    c as u64
}

fn i32_code(x: i32) -> (c: u64)
    ensures
        c as int == offset_code(x as int, 0x8000_0000),
{
    let c: u32 = (x as u32) ^ 0x8000_0000;
    assert(((x as u32) ^ 0x8000_0000u32) as int == x as int + 0x8000_0000) by (bit_vector);
    c as u64
}

fn i64_code(x: i64) -> (c: u64)
    ensures
        c as int == offset_code(x as int, 0x8000_0000_0000_0000),
{
    let c: u64 = (x as u64) ^ 0x8000_0000_0000_0000;
    assert(((x as u64) ^ 0x8000_0000_0000_0000u64) as int == x as int + 0x8000_0000_0000_0000)
        by (bit_vector);
    c
}

fn f32_key_code(bits: u32) -> (c: u64)
    ensures
        c as int == f32_code(bits) as int,
{
    let c: u32 = if (bits & 0x7f80_0000) == 0x7f80_0000 && (bits & 0x007f_ffff) != 0 {
        0xffff_ffff
    } else if bits == 0x8000_0000 {
        0x8000_0000
    } else if (bits & 0x8000_0000) == 0 {
        bits ^ 0x8000_0000
    } else {
        !bits
    };
    c as u64
}

fn f64_key_code(bits: u64) -> (c: u64)
    ensures
        c == f64_code(bits),
{
    if (bits & 0x7ff0_0000_0000_0000) == 0x7ff0_0000_0000_0000 && (bits & 0x000f_ffff_ffff_ffff)
        != 0 {
        0xffff_ffff_ffff_ffff
    } else if bits == 0x8000_0000_0000_0000 {
        0x8000_0000_0000_0000
    } else if (bits & 0x8000_0000_0000_0000) == 0 {
        bits ^ 0x8000_0000_0000_0000
    } else {
        !bits
    }
}

/// Converts a cell to bytes whose lexicographic order matches the natural
/// order of the cells of one type.
pub fn scalar_value_to_sort_key(value: &ScalarValue) -> (key: Vec<u8>)
    ensures
        key@ == spec_sort_key(*value),
{
    let mut bytes: Vec<u8> = Vec::new();
    let (code, width): (u64, usize) = match value {
        ScalarValue::Int8(v) => (i8_code(match v { Some(x) => *x, None => i8::MIN }), 1),
        ScalarValue::Int16(v) => (i16_code(match v { Some(x) => *x, None => i16::MIN }), 2),
        ScalarValue::Int32(v) => (i32_code(match v { Some(x) => *x, None => i32::MIN }), 4),
        ScalarValue::Int64(v) => (i64_code(match v { Some(x) => *x, None => i64::MIN }), 8),
        ScalarValue::UInt8(v) => (match v { Some(x) => *x as u64, None => 0 }, 1),
        ScalarValue::UInt16(v) => (match v { Some(x) => *x as u64, None => 0 }, 2),
        ScalarValue::UInt32(v) => (match v { Some(x) => *x as u64, None => 0 }, 4),
        ScalarValue::UInt64(v) => (match v { Some(x) => *x, None => 0 }, 8),
        ScalarValue::Float32(v) => (match v { Some(b) => f32_key_code(*b), None => 0xffff_ffff }, 4),
        ScalarValue::Float64(v) => (
            match v { Some(b) => f64_key_code(*b), None => 0xffff_ffff_ffff_ffff },
            8,
        ),
        ScalarValue::TimestampNanosecond(v, _) => (i64_code(match v { Some(x) => *x, None => i64::MIN }), 8),
        ScalarValue::TimestampMicrosecond(v, _) => (i64_code(match v { Some(x) => *x, None => i64::MIN }), 8),
        ScalarValue::TimestampMillisecond(v, _) => (i64_code(match v { Some(x) => *x, None => i64::MIN }), 8),
        ScalarValue::TimestampSecond(v, _) => (i64_code(match v { Some(x) => *x, None => i64::MIN }), 8),
        ScalarValue::Date32(v) => (i32_code(match v { Some(x) => *x, None => i32::MIN }), 4),
        ScalarValue::Date64(v) => (i64_code(match v { Some(x) => *x, None => i64::MIN }), 8),
        _ => (0, 0),
    };
    push_be_bytes(&mut bytes, code, width);
    assert(bytes@ =~= spec_sort_key(*value));
    bytes
}


/// The value of a non-NULL integer, timestamp or date cell.
pub open spec fn integer_value(v: ScalarValue) -> Option<int> {
    match v {
        ScalarValue::Int8(Some(x)) => Some(x as int),
        ScalarValue::Int16(Some(x)) => Some(x as int),
        ScalarValue::Int32(Some(x)) => Some(x as int),
        ScalarValue::Int64(Some(x)) => Some(x as int),
        ScalarValue::UInt8(Some(x)) => Some(x as int),
        ScalarValue::UInt16(Some(x)) => Some(x as int),
        ScalarValue::UInt32(Some(x)) => Some(x as int),
        ScalarValue::UInt64(Some(x)) => Some(x as int),
        ScalarValue::TimestampSecond(Some(x), _) => Some(x as int),
        ScalarValue::TimestampMillisecond(Some(x), _) => Some(x as int),
        ScalarValue::TimestampMicrosecond(Some(x), _) => Some(x as int),
        ScalarValue::TimestampNanosecond(Some(x), _) => Some(x as int),
        ScalarValue::Date32(Some(x)) => Some(x as int),
        ScalarValue::Date64(Some(x)) => Some(x as int),
        _ => None,
    }
}

/// Whether two cells have the same type (time zones aside).
pub open spec fn same_type(a: ScalarValue, b: ScalarValue) -> bool {
    match (a, b) {
        (ScalarValue::Null, ScalarValue::Null) => true,
        (ScalarValue::Boolean(_), ScalarValue::Boolean(_)) => true,
        (ScalarValue::Int8(_), ScalarValue::Int8(_)) => true,
        (ScalarValue::Int16(_), ScalarValue::Int16(_)) => true,
        (ScalarValue::Int32(_), ScalarValue::Int32(_)) => true,
        (ScalarValue::Int64(_), ScalarValue::Int64(_)) => true,
        (ScalarValue::UInt8(_), ScalarValue::UInt8(_)) => true,
        (ScalarValue::UInt16(_), ScalarValue::UInt16(_)) => true,
        (ScalarValue::UInt32(_), ScalarValue::UInt32(_)) => true,
        (ScalarValue::UInt64(_), ScalarValue::UInt64(_)) => true,
        (ScalarValue::Float32(_), ScalarValue::Float32(_)) => true,
        (ScalarValue::Float64(_), ScalarValue::Float64(_)) => true,
        (ScalarValue::TimestampSecond(_, _), ScalarValue::TimestampSecond(_, _)) => true,
        (ScalarValue::TimestampMillisecond(_, _), ScalarValue::TimestampMillisecond(_, _)) => true,
        (ScalarValue::TimestampMicrosecond(_, _), ScalarValue::TimestampMicrosecond(_, _)) => true,
        (ScalarValue::TimestampNanosecond(_, _), ScalarValue::TimestampNanosecond(_, _)) => true,
        (ScalarValue::Date32(_), ScalarValue::Date32(_)) => true,
        (ScalarValue::Date64(_), ScalarValue::Date64(_)) => true,
        (ScalarValue::Utf8(_), ScalarValue::Utf8(_)) => true,
        _ => false,
    }
}

/// The NULL cell of the same type as `v`.
pub open spec fn null_of_type(v: ScalarValue) -> ScalarValue {
    match v {
        ScalarValue::Null => ScalarValue::Null,
        ScalarValue::Boolean(_) => ScalarValue::Boolean(None),
        ScalarValue::Int8(_) => ScalarValue::Int8(None),
        ScalarValue::Int16(_) => ScalarValue::Int16(None),
        ScalarValue::Int32(_) => ScalarValue::Int32(None),
        ScalarValue::Int64(_) => ScalarValue::Int64(None),
        ScalarValue::UInt8(_) => ScalarValue::UInt8(None),
        ScalarValue::UInt16(_) => ScalarValue::UInt16(None),
        ScalarValue::UInt32(_) => ScalarValue::UInt32(None),
        ScalarValue::UInt64(_) => ScalarValue::UInt64(None),
        ScalarValue::Float32(_) => ScalarValue::Float32(None),
        ScalarValue::Float64(_) => ScalarValue::Float64(None),
        ScalarValue::TimestampSecond(_, tz) => ScalarValue::TimestampSecond(None, tz),
        ScalarValue::TimestampMillisecond(_, tz) => ScalarValue::TimestampMillisecond(None, tz),
        ScalarValue::TimestampMicrosecond(_, tz) => ScalarValue::TimestampMicrosecond(None, tz),
        ScalarValue::TimestampNanosecond(_, tz) => ScalarValue::TimestampNanosecond(None, tz),
        ScalarValue::Date32(_) => ScalarValue::Date32(None),
        ScalarValue::Date64(_) => ScalarValue::Date64(None),
        ScalarValue::Utf8(_) => ScalarValue::Utf8(None),
    }
}

/// The number behind the key of an integer-like cell and the width of its key.
spec fn integer_code(v: ScalarValue) -> (nat, nat) {
    match v {
        ScalarValue::Int8(Some(x)) => (offset_code(x as int, 0x80), 1),
        ScalarValue::Int16(Some(x)) => (offset_code(x as int, 0x8000), 2),
        ScalarValue::Int32(Some(x)) => (offset_code(x as int, 0x8000_0000), 4),
        ScalarValue::Int64(Some(x)) => (offset_code(x as int, 0x8000_0000_0000_0000), 8),
        ScalarValue::UInt8(Some(x)) => (x as nat, 1),
        ScalarValue::UInt16(Some(x)) => (x as nat, 2),
        ScalarValue::UInt32(Some(x)) => (x as nat, 4),
        ScalarValue::UInt64(Some(x)) => (x as nat, 8),
        ScalarValue::TimestampSecond(Some(x), _) => (offset_code(x as int, 0x8000_0000_0000_0000), 8),
        ScalarValue::TimestampMillisecond(Some(x), _) => (offset_code(x as int, 0x8000_0000_0000_0000), 8),
        ScalarValue::TimestampMicrosecond(Some(x), _) => (offset_code(x as int, 0x8000_0000_0000_0000), 8),
        ScalarValue::TimestampNanosecond(Some(x), _) => (offset_code(x as int, 0x8000_0000_0000_0000), 8),
        ScalarValue::Date32(Some(x)) => (offset_code(x as int, 0x8000_0000), 4),
        ScalarValue::Date64(Some(x)) => (offset_code(x as int, 0x8000_0000_0000_0000), 8),
        _ => (0, 0),
    }
}

proof fn lemma_integer_code(v: ScalarValue)
    requires
        integer_value(v) is Some,
    ensures
        spec_sort_key(v) == be_bytes(integer_code(v).0, integer_code(v).1),
        integer_code(v).0 < pow256(integer_code(v).1),
        integer_code(v).0 == integer_value(v).unwrap() + pow256(integer_code(v).1) / 2
            || integer_code(v).0 == integer_value(v).unwrap(),
        integer_code(v).0 == integer_value(v).unwrap() + pow256(integer_code(v).1) / 2 <==>
            !(v is UInt8 || v is UInt16 || v is UInt32 || v is UInt64),
{
    lemma_pow256_values();
}

/// Keys of integers, timestamps and dates follow the order of the values:
/// for two non-NULL cells of one such type, the key of the smaller value
/// comes first, and the keys are equal exactly when the values are.
pub proof fn lemma_integer_sort_key_order(a: ScalarValue, b: ScalarValue)
    requires
        same_type(a, b),
        integer_value(a) is Some,
        integer_value(b) is Some,
    ensures
        integer_value(a).unwrap() < integer_value(b).unwrap() <==> lex_lt(
            spec_sort_key(a),
            spec_sort_key(b),
        ),
        integer_value(a) == integer_value(b) <==> spec_sort_key(a) == spec_sort_key(b),
{
    lemma_integer_code(a);
    lemma_integer_code(b);
    lemma_be_bytes_order(integer_code(a).0, integer_code(b).0, integer_code(a).1);
}

/// A NULL integer, timestamp or date has the key of the smallest value of
/// its type, so it sorts with it, before every other value.
pub proof fn lemma_integer_null_sorts_first(v: ScalarValue)
    requires
        integer_value(v) is Some,
    ensures
        !lex_lt(spec_sort_key(v), spec_sort_key(null_of_type(v))),
        match v {
            ScalarValue::Int8(_) => spec_sort_key(null_of_type(v)) == spec_sort_key(ScalarValue::Int8(Some(i8::MIN))),
            ScalarValue::Int16(_) => spec_sort_key(null_of_type(v)) == spec_sort_key(ScalarValue::Int16(Some(i16::MIN))),
            ScalarValue::Int32(_) => spec_sort_key(null_of_type(v)) == spec_sort_key(ScalarValue::Int32(Some(i32::MIN))),
            ScalarValue::Int64(_) => spec_sort_key(null_of_type(v)) == spec_sort_key(ScalarValue::Int64(Some(i64::MIN))),
            ScalarValue::UInt8(_) => spec_sort_key(null_of_type(v)) == spec_sort_key(ScalarValue::UInt8(Some(0))),
            ScalarValue::UInt16(_) => spec_sort_key(null_of_type(v)) == spec_sort_key(ScalarValue::UInt16(Some(0))),
            ScalarValue::UInt32(_) => spec_sort_key(null_of_type(v)) == spec_sort_key(ScalarValue::UInt32(Some(0))),
            ScalarValue::UInt64(_) => spec_sort_key(null_of_type(v)) == spec_sort_key(ScalarValue::UInt64(Some(0))),
            ScalarValue::Date32(_) => spec_sort_key(null_of_type(v)) == spec_sort_key(ScalarValue::Date32(Some(i32::MIN))),
            _ => spec_sort_key(null_of_type(v)) == be_bytes(0, 8),
        },
{
    lemma_integer_code(v);
    lemma_pow256_values();
    lemma_be_bytes_order(integer_code(v).0, 0, integer_code(v).1);
}


/// Where a non-NaN float stands in numeric order, read from its bits: the
/// magnitude bits, negated when the sign bit is set (IEEE-754 orders
/// non-NaN values by sign and magnitude; `+0.0` and `-0.0` both stand at 0).
pub open spec fn float_rank(v: ScalarValue) -> Option<int> {
    match v {
        ScalarValue::Float32(Some(b)) => if f32_is_nan(b) {
            None
        } else if b < 0x8000_0000 {
            Some(b as int)
        } else {
            Some(-(b - 0x8000_0000))
        },
        ScalarValue::Float64(Some(b)) => if f64_is_nan(b) {
            None
        } else if b < 0x8000_0000_0000_0000 {
            Some(b as int)
        } else {
            Some(-(b - 0x8000_0000_0000_0000))
        },
        _ => None,
    }
}

/// Whether a cell is a float NaN or a NULL float.
pub open spec fn is_nan_or_null_float(v: ScalarValue) -> bool {
    match v {
        ScalarValue::Float32(Some(b)) => f32_is_nan(b),
        ScalarValue::Float64(Some(b)) => f64_is_nan(b),
        ScalarValue::Float32(None) => true,
        ScalarValue::Float64(None) => true,
        _ => false,
    }
}

proof fn lemma_f32_code(b: u32)
    ensures
        !f32_is_nan(b) && b < 0x8000_0000 ==> f32_code(b) == b + 0x8000_0000,
        !f32_is_nan(b) && b == 0x8000_0000 ==> f32_code(b) == 0x8000_0000,
        !f32_is_nan(b) && b > 0x8000_0000 ==> f32_code(b) == 0xffff_ffff - b,
{
    assert(b < 0x8000_0000 ==> b & 0x8000_0000 == 0 && b ^ 0x8000_0000 == b + 0x8000_0000)
        by (bit_vector);
    assert(b > 0x8000_0000 ==> b & 0x8000_0000 != 0 && !b == 0xffff_ffff - b) by (bit_vector);
}

proof fn lemma_f64_code(b: u64)
    ensures
        !f64_is_nan(b) && b < 0x8000_0000_0000_0000 ==> f64_code(b) == b + 0x8000_0000_0000_0000,
        !f64_is_nan(b) && b == 0x8000_0000_0000_0000 ==> f64_code(b) == 0x8000_0000_0000_0000,
        !f64_is_nan(b) && b > 0x8000_0000_0000_0000 ==> f64_code(b) == 0xffff_ffff_ffff_ffff - b,
{
    assert(b < 0x8000_0000_0000_0000 ==> b & 0x8000_0000_0000_0000 == 0 && b
        ^ 0x8000_0000_0000_0000 == b + 0x8000_0000_0000_0000) by (bit_vector);
    assert(b > 0x8000_0000_0000_0000 ==> b & 0x8000_0000_0000_0000 != 0 && !b
        == 0xffff_ffff_ffff_ffff - b) by (bit_vector);
}

/// Keys of floats follow numeric order: for two non-NaN floats of one type,
/// the key of the smaller value comes first, and the keys are equal exactly
/// when the values are (so `-0.0` and `+0.0` share a key).
pub proof fn lemma_float_sort_key_order(a: ScalarValue, b: ScalarValue)
    requires
        same_type(a, b),
        float_rank(a) is Some,
        float_rank(b) is Some,
    ensures
        float_rank(a).unwrap() < float_rank(b).unwrap() <==> lex_lt(
            spec_sort_key(a),
            spec_sort_key(b),
        ),
        float_rank(a) == float_rank(b) <==> spec_sort_key(a) == spec_sort_key(b),
{
    lemma_pow256_values();
    match (a, b) {
        (ScalarValue::Float32(Some(x)), ScalarValue::Float32(Some(y))) => {
            lemma_f32_code(x);
            lemma_f32_code(y);
            lemma_be_bytes_order(f32_code(x) as nat, f32_code(y) as nat, 4);
        },
        (ScalarValue::Float64(Some(x)), ScalarValue::Float64(Some(y))) => {
            lemma_f64_code(x);
            lemma_f64_code(y);
            lemma_be_bytes_order(f64_code(x) as nat, f64_code(y) as nat, 8);
        },
        _ => {},
    }
}

/// NaN and NULL floats share the largest key of their type, so they sort
/// after every other float of that type.
pub proof fn lemma_nan_sorts_last(nan: ScalarValue, v: ScalarValue)
    requires
        same_type(nan, v),
        is_nan_or_null_float(nan),
    ensures
        !lex_lt(spec_sort_key(nan), spec_sort_key(v)),
        is_nan_or_null_float(v) ==> spec_sort_key(nan) == spec_sort_key(v),
{
    lemma_pow256_values();
    match (nan, v) {
        (ScalarValue::Float32(_), ScalarValue::Float32(o)) => {
            let c: nat = match o { Some(b) => f32_code(b) as nat, None => 0xffff_ffff };
            lemma_be_bytes_order(0xffff_ffff, c, 4);
        },
        (ScalarValue::Float64(_), ScalarValue::Float64(o)) => {
            let c: nat = match o { Some(b) => f64_code(b) as nat, None => 0xffff_ffff_ffff_ffff };
            lemma_be_bytes_order(0xffff_ffff_ffff_ffff, c, 8);
        },
        _ => {},
    }
}

} // verus!
