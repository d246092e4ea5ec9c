use vstd::prelude::*;
use vstd::arithmetic::power2::{pow2, lemma_pow2_pos, lemma_pow2_unfold, lemma_pow2_adds, lemma_pow2_strictly_increases, lemma2_to64, lemma2_to64_rest};
use super::entry::ScalarType;
use super::errors::{ExportFailure, LayoutError};
use super::settings::{radix, lemma_radix_values, lemma_radix_positive};
use super::value::DataValue;

verus! {

/// Two to the power 52: the weight of the hidden bit of a binary64 number.
pub open spec fn hidden_bit() -> nat {
    0x10_0000_0000_0000
}

/// True for a binary64 pattern with the sign bit set.
pub open spec fn f64_negative(bits: u64) -> bool {
    bits >= 0x8000_0000_0000_0000
}

/// The eleven exponent bits of a binary64 pattern.
pub open spec fn f64_exponent_field(bits: u64) -> nat {
    (bits as nat / hidden_bit()) % 2048
}

/// The fifty-two fraction bits of a binary64 pattern.
pub open spec fn f64_fraction_field(bits: u64) -> nat {
    bits as nat % hidden_bit()
}

/// True for every pattern but the infinities and the NaNs.
pub open spec fn f64_is_finite(bits: u64) -> bool {
    f64_exponent_field(bits) != 2047
}

pub open spec fn f64_is_nan(bits: u64) -> bool {
    f64_exponent_field(bits) == 2047 && f64_fraction_field(bits) != 0
}

/// The integer `m` in the value `m * 2^e` of a finite pattern.
pub open spec fn f64_significand(bits: u64) -> nat {
    if f64_exponent_field(bits) == 0 {
        f64_fraction_field(bits)
    } else {
        f64_fraction_field(bits) + hidden_bit()
    }
}

/// The exponent `e` in the value `m * 2^e` of a finite pattern.
pub open spec fn f64_exponent(bits: u64) -> int {
    if f64_exponent_field(bits) == 0 {
        -1074
    } else {
        f64_exponent_field(bits) as int - 1075
    }
}

/// The magnitude of a finite pattern's value, rounded down to an integer.
pub open spec fn f64_whole_magnitude(bits: u64) -> nat {
    let m = f64_significand(bits);
    let e = f64_exponent(bits);
    if e >= 0 {
        m * pow2(e as nat)
    } else {
        m / pow2((-e) as nat)
    }
}

/// A finite pattern's value, rounded toward zero to an integer.
pub open spec fn f64_truncated(bits: u64) -> int {
    if f64_negative(bits) {
        -(f64_whole_magnitude(bits) as int)
    } else {
        f64_whole_magnitude(bits) as int
    }
}

/// True where a finite pattern's value is an integer.
pub open spec fn f64_is_whole(bits: u64) -> bool {
    let m = f64_significand(bits);
    let e = f64_exponent(bits);
    e >= 0 || m % pow2((-e) as nat) == 0
}

/// `value` held to the range from `low` to `high`.
pub open spec fn saturate(value: int, low: int, high: int) -> int {
    if value < low {
        low
    } else if value > high {
        high
    } else {
        value
    }
}

/// The value of `ty` that has the bit pattern of `value`'s low bits: the one
/// number in the type's range that differs from `value` by a multiple of
/// `radix(size)`.
pub open spec fn wrap_into(value: int, ty: ScalarType) -> int {
    let m = radix(ty.spec_size_bytes()) as int;
    let low = value % m;
    if ty.spec_is_signed() && low >= m / 2 {
        low - m
    } else {
        low
    }
}

/// What becomes of an integer stored in an integer type: itself where it
/// fits; else an error in strict mode and its low bits otherwise.
pub open spec fn integer_into(value: int, ty: ScalarType, strict: bool) -> Result<
    int,
    ExportFailure,
> {
    if ty.min_value() <= value <= ty.max_value() {
        Ok(value)
    } else if strict {
        Err(ExportFailure::OutOfRange)
    } else {
        Ok(wrap_into(value, ty))
    }
}

/// What becomes of a binary64 number stored in an integer type. In strict
/// mode it must be finite, whole and in range. Otherwise its fraction is
/// dropped and the result held to the type's range; a NaN gives zero.
pub open spec fn float_into(bits: u64, ty: ScalarType, strict: bool) -> Result<int, ExportFailure> {
    if !f64_is_finite(bits) {
        if strict {
            Err(ExportFailure::NonFinite)
        } else if f64_is_nan(bits) {
            Ok(0)
        } else if f64_negative(bits) {
            Ok(ty.min_value())
        } else {
            Ok(ty.max_value())
        }
    } else if strict && !f64_is_whole(bits) {
        Err(ExportFailure::Fractional)
    } else if strict && !(ty.min_value() <= f64_truncated(bits) <= ty.max_value()) {
        Err(ExportFailure::OutOfRange)
    } else {
        Ok(saturate(f64_truncated(bits), ty.min_value(), ty.max_value()))
    }
}

/// The integer that an integer type stores for `value`.
pub open spec fn to_integer(value: DataValue, ty: ScalarType, strict: bool) -> Result<
    int,
    ExportFailure,
> {
    match value {
        DataValue::Bool(b) => Ok(
            if b {
                1
            } else {
                0
            },
        ),
        DataValue::U64(n) => integer_into(n as int, ty, strict),
        DataValue::I64(n) => integer_into(n as int, ty, strict),
        DataValue::F64(bits) => float_into(bits, ty, strict),
        DataValue::Str(_) => Err(ExportFailure::StringNotScalar),
    }
}

/// Zero lies in the range of every integer type.
proof fn lemma_range_holds_zero(ty: ScalarType)
    requires
        ty.spec_is_integer(),
    ensures
        ty.min_value() <= 0 <= ty.max_value(),
        radix(ty.spec_size_bytes()) >= 2,
{
    lemma_radix_values();
    let size = ty.spec_size_bytes();
    assert(size == 1 || size == 2 || size == 4 || size == 8);
}

/// What `integer_into` yields lies in the type's range.
proof fn lemma_integer_into_in_range(n: int, ty: ScalarType, strict: bool)
    requires
        ty.spec_is_integer(),
        integer_into(n, ty, strict) is Ok,
    ensures
        ty.min_value() <= integer_into(n, ty, strict)->Ok_0 <= ty.max_value(),
{
    lemma_range_holds_zero(ty);
    let m = radix(ty.spec_size_bytes()) as int;
    if !(ty.min_value() <= n <= ty.max_value()) {
        vstd::arithmetic::div_mod::lemma_mod_bound(n, m);
        let low = n % m;
        assert(0 <= low < m);
        assert(wrap_into(n, ty) == (if ty.spec_is_signed() && low >= m / 2 {
            low - m
        } else {
            low
        }));
    }
}

/// What `float_into` yields lies in the type's range.
proof fn lemma_float_into_in_range(bits: u64, ty: ScalarType, strict: bool)
    requires
        ty.spec_is_integer(),
        float_into(bits, ty, strict) is Ok,
    ensures
        ty.min_value() <= float_into(bits, ty, strict)->Ok_0 <= ty.max_value(),
{
    lemma_range_holds_zero(ty);
}

/// What `to_integer` yields lies in the type's range.
pub proof fn lemma_to_integer_in_range(value: DataValue, ty: ScalarType, strict: bool)
    requires
        ty.spec_is_integer(),
        to_integer(value, ty, strict) is Ok,
    ensures
        ty.min_value() <= to_integer(value, ty, strict)->Ok_0 <= ty.max_value(),
{
    lemma_range_holds_zero(ty);
    match value {
        DataValue::U64(n) => {
            lemma_integer_into_in_range(n as int, ty, strict);
        },
        DataValue::I64(n) => {
            lemma_integer_into_in_range(n as int, ty, strict);
        },
        DataValue::F64(bits) => {
            lemma_float_into_in_range(bits, ty, strict);
        },
        _ => {},
    }
}

/// In strict mode nothing is lost: an integer is stored as it is, a binary64
/// number only where it is that integer.
pub proof fn lemma_strict_is_exact(value: DataValue, ty: ScalarType)
    requires
        to_integer(value, ty, true) is Ok,
    ensures
        match value {
            DataValue::Bool(b) => to_integer(value, ty, true)->Ok_0 == (if b {
                1int
            } else {
                0int
            }),
            DataValue::U64(n) => to_integer(value, ty, true)->Ok_0 == n,
            DataValue::I64(n) => to_integer(value, ty, true)->Ok_0 == n,
            DataValue::F64(bits) => f64_is_finite(bits) && f64_is_whole(bits) && to_integer(
                value,
                ty,
                true,
            )->Ok_0 == f64_truncated(bits),
            DataValue::Str(_) => false,
        },
{
}

/// The parts of a binary64 pattern.
pub struct FloatParts {
    pub negative: bool,
    pub exponent_field: u16,
    pub significand: u64,
    pub exponent: i32,
}

/// Takes a binary64 pattern apart.
pub fn decode_f64(bits: u64) -> (parts: FloatParts)
    ensures
        parts.negative == f64_negative(bits),
        parts.exponent_field == f64_exponent_field(bits),
        parts.significand == f64_significand(bits),
        parts.exponent == f64_exponent(bits),
        parts.significand < 0x20_0000_0000_0000,
        parts.exponent_field != 0 ==> parts.significand >= 0x10_0000_0000_0000,
        parts.exponent_field == 0 ==> parts.significand < 0x10_0000_0000_0000,
        f64_is_nan(bits) == (parts.exponent_field == 2047 && parts.significand
            != 0x10_0000_0000_0000),
{
    let field: u64 = (bits >> 52) & 0x7FF;
    let fraction: u64 = bits & 0xF_FFFF_FFFF_FFFF;
    let negative = (bits >> 63) == 1;
    proof {
        assert((bits >> 52) & 0x7FF == (bits / 0x10_0000_0000_0000) % 2048) by (bit_vector);
        assert(bits & 0xF_FFFF_FFFF_FFFF == bits % 0x10_0000_0000_0000) by (bit_vector);
        assert(((bits >> 63) == 1) == (bits >= 0x8000_0000_0000_0000)) by (bit_vector);
    }
    let significand: u64 = if field == 0 {
        fraction
    } else {
        fraction + 0x10_0000_0000_0000
    };
    let exponent: i32 = if field == 0 {
        -1074
    } else {
        field as i32 - 1075
    };
    FloatParts { negative, exponent_field: field as u16, significand, exponent }
}

/// Two to the power `e`.
pub fn power_of_two(e: u32) -> (r: u128)
    requires
        e < 128,
    ensures
        r == pow2(e as nat),
{
    let mut r: u128 = 1;
    let mut i: u32 = 0;
    proof {
        lemma2_to64();
    }
    while i < e
        invariant
            i <= e < 128,
            r == pow2(i as nat),
        decreases e - i,
    {
        proof {
            lemma_pow2_unfold((i + 1) as nat);
            lemma_pow2_127();
            if i + 1 < 127 {
                lemma_pow2_strictly_increases((i + 1) as nat, 127);
            }
        }
        r = r * 2;
        i = i + 1;
    }
    r
}

pub proof fn lemma_pow2_127()
    ensures
        pow2(127) == 0x8000_0000_0000_0000_0000_0000_0000_0000,
        pow2(64) == 0x1_0000_0000_0000_0000,
        pow2(63) == 0x8000_0000_0000_0000,
        pow2(53) == 0x20_0000_0000_0000,
        pow2(52) == 0x10_0000_0000_0000,
{
    lemma2_to64();
    lemma2_to64_rest();
    lemma_pow2_adds(64, 63);
}

/// `value` held to the range of `i128`.
pub open spec fn saturate_i128(value: int) -> int {
    saturate(value, i128::MIN as int, i128::MAX as int)
}

/// A finite binary64 number rounded toward zero, held to the range of `i128`.
#[verifier::rlimit(40)]
pub fn truncate_f64(bits: u64) -> (r: i128)
    requires
        f64_is_finite(bits),
    ensures
        r == saturate_i128(f64_truncated(bits)),
{
    let parts = decode_f64(bits);
    proof {
        lemma_pow2_127();
    }
    if parts.exponent >= 0 {
        let e: u32 = parts.exponent as u32;
        if e >= 75 {
            proof {
                let m = parts.significand as nat;
                if e > 75 {
                    lemma_pow2_strictly_increases(75, e as nat);
                }
                lemma_pow2_adds(52, 75);
                assert(m * pow2(e as nat) >= pow2(52) * pow2(75)) by (nonlinear_arith)
                    requires
                        m >= pow2(52),
                        pow2(e as nat) >= pow2(75),
                ;
            }
            if parts.negative {
                i128::MIN
            } else {
                i128::MAX
            }
        } else {
            let p = power_of_two(e);
            proof {
                let m = parts.significand as nat;
                if e < 74 {
                    lemma_pow2_strictly_increases(e as nat, 74);
                }
                lemma_pow2_pos(e as nat);
                lemma_pow2_pos(53);
                lemma_pow2_adds(53, 74);
                assert(m * pow2(e as nat) < pow2(53) * pow2(74)) by (nonlinear_arith)
                    requires
                        m < pow2(53),
                        0 < pow2(e as nat) <= pow2(74),
                        pow2(53) > 0,
                ;
                lemma_pow2_pos(e as nat);
            }
            let magnitude: u128 = (parts.significand as u128) * p;
            if parts.negative {
                -(magnitude as i128)
            } else {
                magnitude as i128
            }
        }
    } else {
        let k: u32 = (-parts.exponent) as u32;
        let magnitude: u64 = if k >= 53 {
            proof {
                if k > 53 {
                    lemma_pow2_strictly_increases(53, k as nat);
                }
                vstd::arithmetic::div_mod::lemma_basic_div(
                    parts.significand as int,
                    pow2(k as nat) as int,
                );
            }
            0
        } else {
            let p = power_of_two(k);
            proof {
                lemma_pow2_pos(k as nat);
                lemma_pow2_strictly_increases(k as nat, 64);
            }
            parts.significand / (p as u64)
        };
        if parts.negative {
            -(magnitude as i128)
        } else {
            magnitude as i128
        }
    }
}

/// Tells whether a finite binary64 number is an integer.
pub fn is_whole_f64(bits: u64) -> (r: bool)
    requires
        f64_is_finite(bits),
    ensures
        r == f64_is_whole(bits),
{
    let parts = decode_f64(bits);
    proof {
        lemma_pow2_127();
    }
    if parts.exponent >= 0 {
        true
    } else {
        let k: u32 = (-parts.exponent) as u32;
        if k >= 53 {
            proof {
                if k > 53 {
                    lemma_pow2_strictly_increases(53, k as nat);
                }
                vstd::arithmetic::div_mod::lemma_small_mod(
                    parts.significand as nat,
                    pow2(k as nat),
                );
            }
            parts.significand == 0
        } else {
            let p = power_of_two(k);
            proof {
                lemma_pow2_pos(k as nat);
                lemma_pow2_strictly_increases(k as nat, 64);
            }
            parts.significand % (p as u64) == 0
        }
    }
}

/// The least and the greatest value of an integer type.
pub fn integer_bounds(ty: ScalarType) -> (r: (i128, i128))
    requires
        ty.spec_is_integer(),
    ensures
        r.0 == ty.min_value(),
        r.1 == ty.max_value(),
{
    proof {
        lemma_radix_values();
    }
    match ty {
        ScalarType::U8 => (0, 0xFF),
        ScalarType::U16 => (0, 0xFFFF),
        ScalarType::U32 => (0, 0xFFFF_FFFF),
        ScalarType::U64 => (0, 0xFFFF_FFFF_FFFF_FFFF),
        ScalarType::I8 => (-0x80, 0x7F),
        ScalarType::I16 => (-0x8000, 0x7FFF),
        ScalarType::I32 => (-0x8000_0000, 0x7FFF_FFFF),
        _ => (-0x8000_0000_0000_0000, 0x7FFF_FFFF_FFFF_FFFF),
    }
}

/// The number of values of an integer type.
fn integer_span(ty: ScalarType) -> (r: i128)
    requires
        ty.spec_is_integer(),
    ensures
        r == radix(ty.spec_size_bytes()),
{
    proof {
        lemma_radix_values();
    }
    match ty {
        ScalarType::U8 | ScalarType::I8 => 0x100,
        ScalarType::U16 | ScalarType::I16 => 0x1_0000,
        ScalarType::U32 | ScalarType::I32 => 0x1_0000_0000,
        _ => 0x1_0000_0000_0000_0000,
    }
}

/// Stores an integer in an integer type: see `integer_into`.
#[verifier::rlimit(40)]
fn store_integer(value: i128, ty: ScalarType, strict: bool) -> (r: Result<i128, ExportFailure>)
    requires
        ty.spec_is_integer(),
        -0x8000_0000_0000_0000 <= value < 0x1_0000_0000_0000_0000,
    ensures
        match r {
            Ok(v) => integer_into(value as int, ty, strict) == Ok::<int, ExportFailure>(v as int),
            Err(f) => integer_into(value as int, ty, strict) == Err::<int, ExportFailure>(f),
        },
{
    let (low, high) = integer_bounds(ty);
    if low <= value && value <= high {
        Ok(value)
    } else if strict {
        Err(ExportFailure::OutOfRange)
    } else {
        let span = integer_span(ty);
        let big: i128 = 0x1_0000_0000_0000_0000;
        let lifted: i128 = if value >= 0 {
            value
        } else {
            value + big
        };
        proof {
            lemma_radix_values();
        }
        let kept: i128 = lifted % span;
        proof {
            let m = span as int;
            let q: int = if m == 0x100 {
                0x100_0000_0000_0000
            } else if m == 0x1_0000 {
                0x1_0000_0000_0000
            } else if m == 0x1_0000_0000 {
                0x1_0000_0000
            } else {
                1
            };
            assert(big as int == m * q);
            if value < 0 {
                vstd::arithmetic::div_mod::lemma_mod_multiples_vanish(q, value as int, m);
            }
            assert(kept == value as int % m);
        }
        if ty.is_signed() && kept >= span / 2 {
            Ok(kept - span)
        } else {
            Ok(kept)
        }
    }
}

/// Stores a binary64 number in an integer type: see `float_into`.
#[verifier::rlimit(40)]
fn store_float(bits: u64, ty: ScalarType, strict: bool) -> (r: Result<i128, ExportFailure>)
    requires
        ty.spec_is_integer(),
    ensures
        match r {
            Ok(v) => float_into(bits, ty, strict) == Ok::<int, ExportFailure>(v as int),
            Err(f) => float_into(bits, ty, strict) == Err::<int, ExportFailure>(f),
        },
{
    let parts = decode_f64(bits);
    let (low, high) = integer_bounds(ty);
    proof {
        lemma_radix_values();
    }
    if parts.exponent_field == 2047 {
        if strict {
            Err(ExportFailure::NonFinite)
        } else if parts.significand != 0x10_0000_0000_0000 {
            Ok(0)
        } else if parts.negative {
            Ok(low)
        } else {
            Ok(high)
        }
    } else {
        let whole = truncate_f64(bits);
        if strict && !is_whole_f64(bits) {
            Err(ExportFailure::Fractional)
        } else if strict && !(low <= whole && whole <= high) {
            Err(ExportFailure::OutOfRange)
        } else if whole < low {
            Ok(low)
        } else if whole > high {
            Ok(high)
        } else {
            Ok(whole)
        }
    }
}

/// The integer that an integer type stores for `value`: see `to_integer`.
pub fn convert_to_integer(value: &DataValue, ty: ScalarType, strict: bool) -> (r: Result<
    i128,
    ExportFailure,
>)
    requires
        ty.spec_is_integer(),
    ensures
        match r {
            Ok(v) => to_integer(*value, ty, strict) == Ok::<int, ExportFailure>(v as int)
                && ty.min_value() <= v <= ty.max_value(),
            Err(f) => to_integer(*value, ty, strict) == Err::<int, ExportFailure>(f),
        },
{
    proof {
        if to_integer(*value, ty, strict) is Ok {
            lemma_to_integer_in_range(*value, ty, strict);
        }
    }
    match value {
        DataValue::Bool(b) => Ok(
            if *b {
                1
            } else {
                0
            },
        ),
        DataValue::U64(n) => store_integer(*n as i128, ty, strict),
        DataValue::I64(n) => store_integer(*n as i128, ty, strict),
        DataValue::F64(bits) => store_float(*bits, ty, strict),
        DataValue::Str(_) => Err(ExportFailure::StringNotScalar),
    }
}

/// The two binary floating-point formats that a field can have.
#[derive(Debug, Clone, Copy, PartialEq, Eq, Structural)]
pub enum FloatFormat {
    Binary32,
    Binary64,
}

impl FloatFormat {
    /// The number of significand bits, the hidden bit included.
    pub open spec fn precision(self) -> nat {
        match self {
            FloatFormat::Binary32 => 24,
            FloatFormat::Binary64 => 53,
        }
    }

    /// The exponent of the last place of the subnormal numbers: the least
    /// power of two that the format holds.
    pub open spec fn least_exponent(self) -> int {
        match self {
            FloatFormat::Binary32 => -149,
            FloatFormat::Binary64 => -1074,
        }
    }

    /// The pattern of positive infinity.
    pub open spec fn infinity(self) -> nat {
        match self {
            FloatFormat::Binary32 => 0x7F80_0000,
            FloatFormat::Binary64 => 0x7FF0_0000_0000_0000,
        }
    }

    /// The pattern of the quiet NaN without payload.
    pub open spec fn quiet_nan(self) -> nat {
        match self {
            FloatFormat::Binary32 => 0x7FC0_0000,
            FloatFormat::Binary64 => 0x7FF8_0000_0000_0000,
        }
    }

    /// The sign bit.
    pub open spec fn sign_bit(self) -> nat {
        match self {
            FloatFormat::Binary32 => 0x8000_0000,
            FloatFormat::Binary64 => 0x8000_0000_0000_0000,
        }
    }
}

/// The number of bits of `m`: zero for zero, else one more than the place of
/// the highest set bit.
pub open spec fn bit_length(m: nat) -> nat
    decreases m,
{
    if m == 0 {
        0
    } else {
        1 + bit_length(m / 2)
    }
}

/// `m / 2^s` rounded to the nearest integer, a tie going to the even one.
pub open spec fn round_half_even(m: nat, s: nat) -> nat {
    let q = m / pow2(s);
    let r = m % pow2(s);
    if 2 * r > pow2(s) || (2 * r == pow2(s) && q % 2 == 1) {
        q + 1
    } else {
        q
    }
}

/// The exponent of the last place of the numbers of `format` near `m * 2^e`,
/// for `m` above zero.
pub open spec fn unit_exponent(m: nat, e: int, format: FloatFormat) -> int {
    let q = bit_length(m) + e - format.precision();
    if q < format.least_exponent() {
        format.least_exponent()
    } else {
        q
    }
}

/// `m * 2^e` in units of the last place, rounded to nearest, ties to even.
pub open spec fn rounded_significand(m: nat, e: int, format: FloatFormat) -> nat {
    let q = unit_exponent(m, e, format);
    if q <= e {
        m * pow2((e - q) as nat)
    } else {
        round_half_even(m, (q - e) as nat)
    }
}

/// The pattern, without sign, of the number of `format` nearest to
/// `m * 2^e`; infinity where that is beyond the format's range.
///
/// With `q` the exponent of the last place and `s` the rounded significand,
/// the pattern is `(q - least_exponent) * 2^(precision - 1) + s`: a normal
/// number's hidden bit adds the one by which its exponent field exceeds
/// `q - least_exponent`, and a significand rounded up to the next power of
/// two carries into the exponent field.
pub open spec fn rounded_magnitude(m: nat, e: int, format: FloatFormat) -> nat {
    if m == 0 {
        0
    } else {
        let q = unit_exponent(m, e, format);
        let pattern = (q - format.least_exponent()) * pow2((format.precision() - 1) as nat)
            + rounded_significand(m, e, format);
        if pattern >= format.infinity() {
            format.infinity()
        } else {
            pattern as nat
        }
    }
}

/// True where `format` holds `m * 2^e` exactly.
pub open spec fn rounds_exactly(m: nat, e: int, format: FloatFormat) -> bool {
    m == 0 || {
        let q = unit_exponent(m, e, format);
        &&& q <= e || m % pow2((q - e) as nat) == 0
        &&& (q - format.least_exponent()) * pow2((format.precision() - 1) as nat)
            + rounded_significand(m, e, format) < format.infinity()
    }
}

/// The integer `m` in the value `m * 2^e` of a finite pattern of `format`
/// without its sign bit: the fraction field, and with it the hidden bit
/// where the exponent field is not zero.
pub open spec fn pattern_significand(pattern: nat, format: FloatFormat) -> nat {
    let unit = pow2((format.precision() - 1) as nat);
    if pattern / unit == 0 {
        pattern % unit
    } else {
        pattern % unit + unit
    }
}

/// The exponent `e` in the value `m * 2^e` of a finite pattern of `format`
/// without its sign bit.
pub open spec fn pattern_exponent(pattern: nat, format: FloatFormat) -> int {
    let unit = pow2((format.precision() - 1) as nat);
    if pattern / unit == 0 {
        format.least_exponent()
    } else {
        format.least_exponent() + (pattern / unit) as int - 1
    }
}

/// The significand of a number that a format holds exactly has no more
/// bits than the format's precision, and all of them where the number is
/// normal.
pub proof fn lemma_exact_significand_bounds(m: nat, e: int, format: FloatFormat)
    requires
        m > 0,
        rounds_exactly(m, e, format),
    ensures
        rounded_significand(m, e, format) < pow2(format.precision()),
        unit_exponent(m, e, format) > format.least_exponent() ==> rounded_significand(
            m,
            e,
            format,
        ) >= pow2((format.precision() - 1) as nat),
{
    let length = bit_length(m);
    let precision = format.precision();
    let q = unit_exponent(m, e, format);
    let s = rounded_significand(m, e, format);
    lemma_bit_length_bounds(m);
    if q <= e {
        let d = (e - q) as nat;
        lemma_pow2_adds(length, d);
        lemma_pow2_pos(d);
        assert(m * pow2(d) < pow2(length) * pow2(d)) by (nonlinear_arith)
            requires
                m < pow2(length),
                pow2(d) > 0,
        ;
        if length + d < precision {
            lemma_pow2_strictly_increases(length + d, precision);
        }
        if q > format.least_exponent() {
            lemma_pow2_adds((length - 1) as nat, d);
            assert(m * pow2(d) >= pow2((length - 1) as nat) * pow2(d)) by (nonlinear_arith)
                requires
                    m >= pow2((length - 1) as nat),
                    pow2(d) > 0,
            ;
        }
    } else {
        let d = (q - e) as nat;
        lemma_pow2_pos(d);
        assert(s == m / pow2(d));
        vstd::arithmetic::div_mod::lemma_fundamental_div_mod(m as int, pow2(d) as int);
        if length >= d {
            let rest = (length - d) as nat;
            lemma_pow2_adds(rest, d);
            assert(s < pow2(rest)) by (nonlinear_arith)
                requires
                    m == pow2(d) * s,
                    m < pow2(rest) * pow2(d),
                    pow2(d) > 0,
            ;
            if rest < precision {
                lemma_pow2_strictly_increases(rest, precision);
            }
            if q > format.least_exponent() {
                lemma_pow2_adds((precision - 1) as nat, d);
                assert(s >= pow2((precision - 1) as nat)) by (nonlinear_arith)
                    requires
                        m == pow2(d) * s,
                        m >= pow2((precision - 1) as nat) * pow2(d),
                        pow2(d) > 0,
                ;
            }
        } else {
            lemma_pow2_strictly_increases(length, d);
            assert(s == 0) by (nonlinear_arith)
                requires
                    m == pow2(d) * s,
                    m < pow2(d),
                    pow2(d) > 0,
            ;
            lemma_pow2_pos(precision);
        }
    }
}

/// A number that a format holds exactly is read back from its pattern.
///
/// The pattern of `m * 2^e` is finite, its exponent is the exponent of the
/// last place, and its significand is `m * 2^e` in units of that place: the
/// value of the pattern is `m * 2^e`.
pub proof fn lemma_exact_float_reads_back(m: nat, e: int, format: FloatFormat)
    requires
        m > 0,
        rounds_exactly(m, e, format),
    ensures
        ({
            let pattern = rounded_magnitude(m, e, format);
            let decoded = pattern_significand(pattern, format);
            let exponent = pattern_exponent(pattern, format);
            &&& pattern < format.infinity()
            &&& exponent == unit_exponent(m, e, format)
            &&& decoded == rounded_significand(m, e, format)
            &&& exponent <= e ==> decoded == m * pow2((e - exponent) as nat)
            &&& exponent > e ==> decoded * pow2((exponent - e) as nat) == m
        }),
{
    let precision = format.precision();
    let unit = pow2((precision - 1) as nat);
    let q = unit_exponent(m, e, format);
    let s = rounded_significand(m, e, format);
    let steps = (q - format.least_exponent()) as nat;
    let pattern = rounded_magnitude(m, e, format);
    lemma_exact_significand_bounds(m, e, format);
    lemma_strict_float_is_exact(m, e, format);
    lemma_pow2_pos((precision - 1) as nat);
    lemma_pow2_unfold(precision);
    assert(pattern == steps * unit + s);
    if s < unit {
        assert(steps == 0);
        assert(steps * unit == 0) by (nonlinear_arith)
            requires
                steps == 0,
        ;
        assert(pattern == s);
        vstd::arithmetic::div_mod::lemma_small_mod(s, unit);
        vstd::arithmetic::div_mod::lemma_basic_div(s as int, unit as int);
    } else {
        let rest = (s - unit) as nat;
        assert(pattern == (steps + 1) * unit + rest) by (nonlinear_arith)
            requires
                pattern == steps * unit + s,
                s == unit + rest,
        ;
        vstd::arithmetic::div_mod::lemma_fundamental_div_mod_converse(
            pattern as int,
            unit as int,
            (steps + 1) as int,
            rest as int,
        );
    }
}

/// True where the pattern of `format` reads as `m * 2^e`, negated where
/// `negative`: its sign bit is set exactly where `negative`, the rest of it
/// is finite, and its significand times two to the power of its exponent
/// is `m * 2^e`.
pub open spec fn reads_as(pattern: nat, format: FloatFormat, negative: bool, m: nat, e: int) -> bool {
    let rest = if pattern >= format.sign_bit() {
        (pattern - format.sign_bit()) as nat
    } else {
        pattern
    };
    let decoded = pattern_significand(rest, format);
    let exponent = pattern_exponent(rest, format);
    &&& (pattern >= format.sign_bit()) == negative
    &&& rest < format.infinity()
    &&& exponent <= e ==> decoded == m * pow2((e - exponent) as nat)
    &&& exponent > e ==> decoded * pow2((exponent - e) as nat) == m
}

/// The pattern of `m * 2^e`, negated where `negative`, in `format`. Strict
/// mode refuses a number that the format does not hold exactly.
pub open spec fn float_pattern(
    negative: bool,
    m: nat,
    e: int,
    format: FloatFormat,
    strict: bool,
) -> Result<nat, ExportFailure> {
    if strict && !rounds_exactly(m, e, format) {
        Err(ExportFailure::Inexact)
    } else {
        Ok(
            (if negative {
                format.sign_bit()
            } else {
                0
            }) + rounded_magnitude(m, e, format),
        )
    }
}

/// A number that a format holds exactly is stored, in strict and in lossy
/// mode, as a pattern that reads as that number.
pub proof fn lemma_exact_float_is_kept(
    negative: bool,
    m: nat,
    e: int,
    format: FloatFormat,
    strict: bool,
)
    requires
        rounds_exactly(m, e, format),
    ensures
        float_pattern(negative, m, e, format, strict) is Ok,
        reads_as(float_pattern(negative, m, e, format, strict)->Ok_0, format, negative, m, e),
{
    let unit = pow2((format.precision() - 1) as nat);
    lemma_pow2_pos((format.precision() - 1) as nat);
    if m > 0 {
        lemma_exact_float_reads_back(m, e, format);
    } else {
        vstd::arithmetic::div_mod::lemma_small_mod(0, unit);
        vstd::arithmetic::div_mod::lemma_basic_div(0, unit as int);
        let exponent = format.least_exponent();
        if exponent <= e {
            assert(0 == 0 * pow2((e - exponent) as nat)) by (nonlinear_arith);
        } else {
            assert(0 * pow2((exponent - e) as nat) == 0) by (nonlinear_arith);
        }
    }
}

/// The magnitude of a signed integer.
pub open spec fn magnitude(value: int) -> nat {
    if value < 0 {
        (-value) as nat
    } else {
        value as nat
    }
}

/// The bit pattern that a floating-point type stores for `value`.
///
/// A binary64 number stored as binary64 keeps its pattern. Stored as
/// binary32, an infinity stays an infinity and a NaN becomes the quiet NaN
/// with the same sign. Every other number is rounded to the nearest that the
/// type holds.
pub open spec fn to_float(value: DataValue, format: FloatFormat, strict: bool) -> Result<
    nat,
    ExportFailure,
> {
    match value {
        DataValue::Bool(b) => float_pattern(
            false,
            if b {
                1
            } else {
                0
            },
            0,
            format,
            strict,
        ),
        DataValue::U64(n) => float_pattern(false, n as nat, 0, format, strict),
        DataValue::I64(n) => float_pattern(n < 0, magnitude(n as int), 0, format, strict),
        DataValue::F64(bits) => if format == FloatFormat::Binary64 {
            Ok(bits as nat)
        } else if !f64_is_finite(bits) {
            Ok(
                (if f64_negative(bits) {
                    format.sign_bit()
                } else {
                    0
                }) + (if f64_is_nan(bits) {
                    format.quiet_nan()
                } else {
                    format.infinity()
                }),
            )
        } else {
            float_pattern(
                f64_negative(bits),
                f64_significand(bits),
                f64_exponent(bits),
                format,
                strict,
            )
        },
        DataValue::Str(_) => Err(ExportFailure::StringNotScalar),
    }
}

/// `m` lies below two to the power of its bit length, and, above zero, not
/// below half of that.
pub proof fn lemma_bit_length_bounds(m: nat)
    ensures
        m < pow2(bit_length(m)),
        m > 0 ==> pow2((bit_length(m) - 1) as nat) <= m,
    decreases m,
{
    lemma2_to64();
    if m > 0 {
        lemma_bit_length_bounds(m / 2);
        lemma_pow2_unfold(bit_length(m));
        if m / 2 > 0 {
            lemma_pow2_unfold((bit_length(m) - 1) as nat);
        }
    }
}

/// A number below `2^k` has at most `k` bits.
pub proof fn lemma_bit_length_at_most(m: nat, k: nat)
    requires
        m < pow2(k),
    ensures
        bit_length(m) <= k,
{
    lemma_bit_length_bounds(m);
    if m > 0 && bit_length(m) > k {
        if bit_length(m) - 1 > k {
            lemma_pow2_strictly_increases(k, (bit_length(m) - 1) as nat);
        }
    }
}

/// The number of bits of `m`.
pub fn count_bits(m: u64) -> (r: u32)
    ensures
        r == bit_length(m as nat),
        r <= 64,
{
    let mut rest: u64 = m;
    let mut n: u32 = 0;
    proof {
        lemma2_to64();
        lemma_bit_length_at_most(m as nat, 64);
    }
    while rest > 0
        invariant
            n + bit_length(rest as nat) == bit_length(m as nat),
            bit_length(m as nat) <= 64,
        decreases rest,
    {
        rest = rest / 2;
        n = n + 1;
    }
    n
}

/// The exec form of a format's constants.
struct FormatNumbers {
    precision: u32,
    least_exponent: i32,
    infinity: u64,
    sign_bit: u64,
    quiet_nan: u64,
}

fn format_numbers(format: FloatFormat) -> (r: FormatNumbers)
    ensures
        r.precision == format.precision(),
        r.least_exponent == format.least_exponent(),
        r.infinity == format.infinity(),
        r.sign_bit == format.sign_bit(),
        r.quiet_nan == format.quiet_nan(),
{
    match format {
        FloatFormat::Binary32 => FormatNumbers {
            precision: 24,
            least_exponent: -149,
            infinity: 0x7F80_0000,
            sign_bit: 0x8000_0000,
            quiet_nan: 0x7FC0_0000,
        },
        FloatFormat::Binary64 => FormatNumbers {
            precision: 53,
            least_exponent: -1074,
            infinity: 0x7FF0_0000_0000_0000,
            sign_bit: 0x8000_0000_0000_0000,
            quiet_nan: 0x7FF8_0000_0000_0000,
        },
    }
}

/// Rounds `m * 2^e` into `format`: the pattern without sign, and whether the
/// format holds the number exactly.
#[verifier::rlimit(40)]
pub fn round_to_format(m: u64, e: i32, format: FloatFormat) -> (r: (u64, bool))
    requires
        -1074 <= e <= 971,
    ensures
        r.0 == rounded_magnitude(m as nat, e as int, format),
        r.1 == rounds_exactly(m as nat, e as int, format),
        r.0 <= format.infinity(),
{
    let numbers = format_numbers(format);
    if m == 0 {
        return (0, true);
    }
    let length = count_bits(m);
    let top: i32 = length as i32 + e;
    let q: i32 = if top - (numbers.precision as i32) < numbers.least_exponent {
        numbers.least_exponent
    } else {
        top - numbers.precision as i32
    };
    assert(q == unit_exponent(m as nat, e as int, format));
    proof {
        lemma_pow2_127();
        lemma_bit_length_bounds(m as nat);
    }
    let unit: u128 = power_of_two(numbers.precision - 1);
    let (significand, exact): (u128, bool) = if q <= e {
        let left: u32 = (e - q) as u32;
        let factor = power_of_two(left);
        proof {
            if left < 63 {
                lemma_pow2_strictly_increases(left as nat, 63);
            }
            assert((m as nat) * pow2(left as nat) < 0x1_0000_0000_0000_0000 * 0x8000_0000_0000_0000)
                by (nonlinear_arith)
                requires
                    (m as nat) < 0x1_0000_0000_0000_0000,
                    pow2(left as nat) <= 0x8000_0000_0000_0000,
            ;
        }
        ((m as u128) * factor, true)
    } else {
        let s: u32 = (q - e) as u32;
        if s > 65 {
            proof {
                lemma_pow2_strictly_increases(65, s as nat);
                lemma_pow2_adds(64, 1);
                lemma2_to64();
                vstd::arithmetic::div_mod::lemma_basic_div(m as int, pow2(s as nat) as int);
                vstd::arithmetic::div_mod::lemma_small_mod(m as nat, pow2(s as nat));
            }
            (0, false)
        } else {
            let divisor = power_of_two(s);
            proof {
                lemma_pow2_pos(s as nat);
                lemma_pow2_adds(64, 1);
                lemma2_to64();
                if s < 65 {
                    lemma_pow2_strictly_increases(s as nat, 65);
                }
            }
            let quotient: u128 = (m as u128) / divisor;
            let remainder: u128 = (m as u128) % divisor;
            let up = 2 * remainder > divisor || (2 * remainder == divisor && quotient % 2 == 1);
            (
                if up {
                    quotient + 1
                } else {
                    quotient
                },
                remainder == 0,
            )
        }
    };
    assert(significand == rounded_significand(m as nat, e as int, format));
    let steps: u128 = (q - numbers.least_exponent) as u128;
    proof {
        lemma2_to64();
        assert(steps * unit <= 3000 * 0x10_0000_0000_0000) by (nonlinear_arith)
            requires
                steps <= 3000,
                unit <= 0x10_0000_0000_0000,
        ;
    }
    let pattern: u128 = steps * unit + significand;
    if pattern >= numbers.infinity as u128 {
        (numbers.infinity, false)
    } else {
        (pattern as u64, exact)
    }
}

/// The pattern of `m * 2^e`, negated where `negative`: see `float_pattern`.
fn store_rounded(negative: bool, m: u64, e: i32, format: FloatFormat, strict: bool) -> (r: Result<
    u64,
    ExportFailure,
>)
    requires
        -1074 <= e <= 971,
    ensures
        match r {
            Ok(p) => float_pattern(negative, m as nat, e as int, format, strict) == Ok::<
                nat,
                ExportFailure,
            >(p as nat),
            Err(f) => float_pattern(negative, m as nat, e as int, format, strict) == Err::<
                nat,
                ExportFailure,
            >(f),
        },
{
    let numbers = format_numbers(format);
    let (pattern, exact) = round_to_format(m, e, format);
    if strict && !exact {
        Err(ExportFailure::Inexact)
    } else if negative {
        Ok(numbers.sign_bit + pattern)
    } else {
        Ok(pattern)
    }
}

/// The bit pattern that a floating-point type stores for `value`: see
/// `to_float`.
pub fn convert_to_float(value: &DataValue, format: FloatFormat, strict: bool) -> (r: Result<
    u64,
    ExportFailure,
>)
    ensures
        match r {
            Ok(p) => to_float(*value, format, strict) == Ok::<nat, ExportFailure>(p as nat),
            Err(f) => to_float(*value, format, strict) == Err::<nat, ExportFailure>(f),
        },
        format == FloatFormat::Binary32 && r is Ok ==> r->Ok_0 <= 0xFFFF_FFFF,
{
    match value {
        DataValue::Bool(b) => store_rounded(
            false,
            if *b {
                1
            } else {
                0
            },
            0,
            format,
            strict,
        ),
        DataValue::U64(n) => store_rounded(false, *n, 0, format, strict),
        DataValue::I64(n) => {
            let m: u64 = if *n < 0 {
                (-(*n as i128)) as u64
            } else {
                *n as u64
            };
            store_rounded(*n < 0, m, 0, format, strict)
        },
        DataValue::F64(bits) => {
            let numbers = format_numbers(format);
            let parts = decode_f64(*bits);
            match format {
                FloatFormat::Binary64 => Ok(*bits),
                FloatFormat::Binary32 => {
                    if parts.exponent_field == 2047 {
                        let sign: u64 = if parts.negative {
                            numbers.sign_bit
                        } else {
                            0
                        };
                        if parts.significand != 0x10_0000_0000_0000 {
                            Ok(sign + numbers.quiet_nan)
                        } else {
                            Ok(sign + numbers.infinity)
                        }
                    } else {
                        store_rounded(
                            parts.negative,
                            parts.significand,
                            parts.exponent,
                            format,
                            strict,
                        )
                    }
                },
            }
        },
        DataValue::Str(_) => Err(ExportFailure::StringNotScalar),
    }
}

/// The least value of a bit field of `bits` bits.
pub open spec fn bitfield_min(bits: nat, signed: bool) -> int {
    if signed {
        -(pow2((bits - 1) as nat) as int)
    } else {
        0
    }
}

/// The greatest value of a bit field of `bits` bits.
pub open spec fn bitfield_max(bits: nat, signed: bool) -> int {
    if signed {
        pow2((bits - 1) as nat) as int - 1
    } else {
        pow2(bits) as int - 1
    }
}

/// The integer that a value offers to a bit field. A binary64 number loses
/// its fraction and is held to the range of `i128`; strict mode refuses one
/// that is not a finite integer.
pub open spec fn bitfield_number(value: DataValue, strict: bool) -> Result<int, ExportFailure> {
    match value {
        DataValue::Bool(b) => Ok(
            if b {
                1
            } else {
                0
            },
        ),
        DataValue::U64(n) => Ok(n as int),
        DataValue::I64(n) => Ok(n as int),
        DataValue::F64(bits) => if !f64_is_finite(bits) {
            if strict {
                Err(ExportFailure::NonFinite)
            } else if f64_is_nan(bits) {
                Ok(0)
            } else if f64_negative(bits) {
                Ok(i128::MIN as int)
            } else {
                Ok(i128::MAX as int)
            }
        } else if strict && !f64_is_whole(bits) {
            Err(ExportFailure::Fractional)
        } else {
            Ok(saturate_i128(f64_truncated(bits)))
        },
        DataValue::Str(_) => Err(ExportFailure::StringNotScalar),
    }
}

/// The value that a bit field of `bits` bits stores for `value`: the offered
/// integer where it fits the field; else an error in strict mode, and the
/// nearest bound of the field otherwise.
pub open spec fn clamp_bitfield(value: DataValue, bits: usize, signed: bool, strict: bool) -> Result<
    int,
    LayoutError,
> {
    match bitfield_number(value, strict) {
        Err(f) => Err(LayoutError::DataValueExportFailed(f)),
        Ok(n) => {
            let low = bitfield_min(bits as nat, signed);
            let high = bitfield_max(bits as nat, signed);
            if low <= n <= high {
                Ok(n)
            } else if strict {
                Err(
                    LayoutError::BitfieldOutOfRange {
                        value: n as i128,
                        bits,
                        signed,
                        min: low as i128,
                        max: high as i128,
                    },
                )
            } else {
                Ok(saturate(n, low, high))
            }
        },
    }
}

/// The bits that stand for `value` in a field of `bits` bits: `value`
/// modulo two to the power `bits`.
pub open spec fn bitfield_pattern(value: int, bits: nat) -> nat {
    (value % pow2(bits) as int) as nat
}

/// The integer that a value offers to a bit field: see `bitfield_number`.
fn offered_integer(value: &DataValue, strict: bool) -> (r: Result<i128, ExportFailure>)
    ensures
        match r {
            Ok(n) => bitfield_number(*value, strict) == Ok::<int, ExportFailure>(n as int),
            Err(f) => bitfield_number(*value, strict) == Err::<int, ExportFailure>(f),
        },
{
    match value {
        DataValue::Bool(b) => Ok(
            if *b {
                1
            } else {
                0
            },
        ),
        DataValue::U64(n) => Ok(*n as i128),
        DataValue::I64(n) => Ok(*n as i128),
        DataValue::F64(bits) => {
            let parts = decode_f64(*bits);
            if parts.exponent_field == 2047 {
                if strict {
                    Err(ExportFailure::NonFinite)
                } else if parts.significand != 0x10_0000_0000_0000 {
                    Ok(0)
                } else if parts.negative {
                    Ok(i128::MIN)
                } else {
                    Ok(i128::MAX)
                }
            } else if strict && !is_whole_f64(*bits) {
                Err(ExportFailure::Fractional)
            } else {
                Ok(truncate_f64(*bits))
            }
        },
        DataValue::Str(_) => Err(ExportFailure::StringNotScalar),
    }
}

/// The least and the greatest value of a bit field of `bits` bits.
#[verifier::rlimit(40)]
pub fn bitfield_bounds(bits: usize, signed: bool) -> (r: (i128, i128))
    requires
        1 <= bits <= 64,
    ensures
        r.0 == bitfield_min(bits as nat, signed),
        r.1 == bitfield_max(bits as nat, signed),
        -0x8000_0000_0000_0000 <= r.0 <= 0,
        0 <= r.1 < 0x1_0000_0000_0000_0000,
{
    proof {
        lemma_pow2_127();
        lemma_pow2_pos((bits - 1) as nat);
        lemma_pow2_pos(bits as nat);
        if bits < 64 {
            lemma_pow2_strictly_increases(bits as nat, 64);
        }
        if bits - 1 < 63 {
            lemma_pow2_strictly_increases((bits - 1) as nat, 63);
        }
    }
    if signed {
        let half = power_of_two((bits - 1) as u32);
        (-(half as i128), half as i128 - 1)
    } else {
        let span = power_of_two(bits as u32);
        (0, span as i128 - 1)
    }
}

/// The value that a bit field stores for `value`: see `clamp_bitfield`.
pub fn clamp_bitfield_value(value: &DataValue, bits: usize, signed: bool, strict: bool) -> (r:
    Result<i128, LayoutError>)
    requires
        1 <= bits <= 64,
    ensures
        match r {
            Ok(v) => clamp_bitfield(*value, bits, signed, strict) == Ok::<int, LayoutError>(v as int)
                && bitfield_min(bits as nat, signed) <= v <= bitfield_max(bits as nat, signed),
            Err(e) => clamp_bitfield(*value, bits, signed, strict) == Err::<int, LayoutError>(e),
        },
{
    let (low, high) = bitfield_bounds(bits, signed);
    match offered_integer(value, strict) {
        Err(f) => Err(LayoutError::DataValueExportFailed(f)),
        Ok(n) => {
            if low <= n && n <= high {
                Ok(n)
            } else if strict {
                Err(LayoutError::BitfieldOutOfRange { value: n, bits, signed, min: low, max: high })
            } else if n < low {
                Ok(low)
            } else {
                Ok(high)
            }
        },
    }
}

/// The bits that stand for a field's value: see `bitfield_pattern`.
#[verifier::rlimit(40)]
pub fn field_pattern(value: i128, bits: usize, signed: bool) -> (r: u64)
    requires
        1 <= bits <= 64,
        bitfield_min(bits as nat, signed) <= value <= bitfield_max(bits as nat, signed),
    ensures
        r == bitfield_pattern(value as int, bits as nat),
        r < pow2(bits as nat),
{
    proof {
        lemma_pow2_127();
        lemma_pow2_pos(bits as nat);
        lemma_pow2_unfold(bits as nat);
        if bits < 64 {
            lemma_pow2_strictly_increases(bits as nat, 64);
        }
    }
    if value >= 0 {
        proof {
            vstd::arithmetic::div_mod::lemma_small_mod(value as nat, pow2(bits as nat));
        }
        value as u64
    } else {
        let span = power_of_two(bits as u32);
        let lifted: i128 = value + span as i128;
        proof {
            vstd::arithmetic::div_mod::lemma_mod_multiples_vanish(
                1,
                value as int,
                pow2(bits as nat) as int,
            );
            vstd::arithmetic::div_mod::lemma_small_mod(lifted as nat, pow2(bits as nat));
        }
        lifted as u64
    }
}

/// What `to_float` yields fits the format: 32 bits for binary32 and 64 bits
/// for binary64.
pub proof fn lemma_float_pattern_fits(value: DataValue, format: FloatFormat, strict: bool)
    requires
        to_float(value, format, strict) is Ok,
    ensures
        format == FloatFormat::Binary32 ==> to_float(value, format, strict)->Ok_0 < 0x1_0000_0000,
        format == FloatFormat::Binary64 ==> to_float(value, format, strict)->Ok_0
            < 0x1_0000_0000_0000_0000,
{
}

/// Where a format holds `m * 2^e` exactly, the rounded significand times
/// its unit is `m * 2^e`: nothing was rounded away.
pub proof fn lemma_strict_float_is_exact(m: nat, e: int, format: FloatFormat)
    requires
        m > 0,
        rounds_exactly(m, e, format),
    ensures
        unit_exponent(m, e, format) <= e ==> rounded_significand(m, e, format) == m * pow2(
            (e - unit_exponent(m, e, format)) as nat,
        ),
        unit_exponent(m, e, format) > e ==> rounded_significand(m, e, format) * pow2(
            (unit_exponent(m, e, format) - e) as nat,
        ) == m,
{
    let q = unit_exponent(m, e, format);
    if q > e {
        let s = (q - e) as nat;
        lemma_pow2_pos(s);
        vstd::arithmetic::div_mod::lemma_fundamental_div_mod(m as int, pow2(s) as int);
        assert((m / pow2(s)) * pow2(s) == pow2(s) * (m / pow2(s))) by (nonlinear_arith);
    }
}

} // verus!
