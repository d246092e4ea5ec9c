use vstd::prelude::*;
use vstd::string::StrSliceExecFns;
use vstd::utf8::encode_utf8;
use super::conversions::{to_integer, to_float, convert_to_integer, convert_to_float, FloatFormat};
use super::entry::ScalarType;
use super::errors::{ExportFailure, LayoutError};
use super::settings::{
    encode_integer, encode_pattern, endian_bytes, endian_value, radix, twos_complement, Endianness,
};

verus! {

/// A value as a layout or a data source gives it.
///
/// A floating-point number is held as its IEEE-754 binary64 bit pattern.
#[derive(Debug)]
pub enum DataValue {
    Bool(bool),
    U64(u64),
    I64(i64),
    F64(u64),
    Str(String),
}

impl Clone for DataValue {
    fn clone(&self) -> (r: Self)
        ensures
            r == *self,
    {
        match self {
            DataValue::Bool(v) => DataValue::Bool(*v),
            DataValue::U64(v) => DataValue::U64(*v),
            DataValue::I64(v) => DataValue::I64(*v),
            DataValue::F64(v) => DataValue::F64(*v),
            DataValue::Str(v) => DataValue::Str(v.clone()),
        }
    }
}

/// The floating-point format of a scalar type that is not an integer type.
pub open spec fn float_format(ty: ScalarType) -> FloatFormat {
    if ty is F32 {
        FloatFormat::Binary32
    } else {
        FloatFormat::Binary64
    }
}

impl DataValue {
    /// The bytes that stand for the value in a field of type `ty`.
    ///
    /// An integer type stores the integer that `to_integer` gives, in two's
    /// complement; a floating-point type stores the pattern that `to_float`
    /// gives. Both are written in the given byte order.
    pub open spec fn spec_to_bytes(self, ty: ScalarType, endianness: Endianness, strict: bool) -> Result<
        Seq<u8>,
        LayoutError,
    > {
        let size = ty.spec_size_bytes();
        if ty.spec_is_integer() {
            match to_integer(self, ty, strict) {
                Ok(v) => Ok(endian_bytes(twos_complement(v, size), size, endianness)),
                Err(f) => Err(LayoutError::DataValueExportFailed(f)),
            }
        } else {
            match to_float(self, float_format(ty), strict) {
                Ok(p) => Ok(endian_bytes(p, size, endianness)),
                Err(f) => Err(LayoutError::DataValueExportFailed(f)),
            }
        }
    }

    /// The UTF-8 bytes of a string; an error for any other value.
    pub open spec fn spec_string_bytes(self) -> Result<Seq<u8>, LayoutError> {
        match self {
            DataValue::Str(s) => Ok(encode_utf8(s@)),
            _ => Err(LayoutError::DataValueExportFailed(ExportFailure::StringExpected)),
        }
    }

    /// Converts the value to the bytes of a field of type `scalar_type`.
    pub fn to_bytes(&self, scalar_type: ScalarType, endianness: &Endianness, strict: bool) -> (r:
        Result<Vec<u8>, LayoutError>)
        ensures
            match r {
                Ok(bytes) => self.spec_to_bytes(scalar_type, *endianness, strict) == Ok::<
                    Seq<u8>,
                    LayoutError,
                >(bytes@),
                Err(e) => self.spec_to_bytes(scalar_type, *endianness, strict) == Err::<
                    Seq<u8>,
                    LayoutError,
                >(e),
            },
            r is Ok ==> r->Ok_0@.len() == scalar_type.spec_size_bytes(),
    {
        let size = scalar_type.size_bytes();
        proof {
            super::settings::lemma_radix_values();
        }
        if scalar_type.is_integer() {
            match convert_to_integer(self, scalar_type, strict) {
                Ok(v) => {
                    proof {
                        super::settings::lemma_endian_round_trip(
                            twos_complement(v as int, size as nat),
                            size as nat,
                            *endianness,
                        );
                    }
                    Ok(encode_integer(v, size, *endianness))
                },
                Err(f) => Err(LayoutError::DataValueExportFailed(f)),
            }
        } else {
            let format = match scalar_type {
                ScalarType::F32 => FloatFormat::Binary32,
                _ => FloatFormat::Binary64,
            };
            match convert_to_float(self, format, strict) {
                Ok(p) => {
                    proof {
                        super::settings::lemma_endian_round_trip(p as nat, size as nat, *endianness);
                    }
                    Ok(encode_pattern(p, size, *endianness))
                },
                Err(f) => Err(LayoutError::DataValueExportFailed(f)),
            }
        }
    }

    /// The bytes of a string value.
    pub fn string_to_bytes(&self) -> (r: Result<Vec<u8>, LayoutError>)
        ensures
            match r {
                Ok(bytes) => self.spec_string_bytes() == Ok::<Seq<u8>, LayoutError>(bytes@),
                Err(e) => self.spec_string_bytes() == Err::<Seq<u8>, LayoutError>(e),
            },
    {
        match self {
            DataValue::Str(s) => Ok(s.as_str().as_bytes_vec()),
            _ => Err(LayoutError::DataValueExportFailed(ExportFailure::StringExpected)),
        }
    }
}

/// What a field without bitmap holds: one value or a list of values.
#[derive(Debug)]
pub enum ValueSource {
    Single(DataValue),
    Array(Vec<DataValue>),
}

/// The integer that `bytes` spell in an integer type: their number, read as
/// two's complement where the type is signed.
pub open spec fn decode_integer(bytes: Seq<u8>, ty: ScalarType, endianness: Endianness) -> int {
    let pattern = endian_value(bytes, endianness) as int;
    let span = radix(ty.spec_size_bytes()) as int;
    if ty.spec_is_signed() && pattern >= span / 2 {
        pattern - span
    } else {
        pattern
    }
}

/// The integer that a value is, where it is one: a whole number as it
/// stands, and a truth value as one or zero.
pub open spec fn integer_of(value: DataValue) -> Option<int> {
    match value {
        DataValue::Bool(b) => Some(
            if b {
                1int
            } else {
                0int
            },
        ),
        DataValue::U64(n) => Some(n as int),
        DataValue::I64(n) => Some(n as int),
        _ => None,
    }
}

/// An integer that the field's type can hold is written as it is.
///
/// In strict mode and in lossy mode alike, an integer in the range of an
/// integer type is converted without error, to as many bytes as the type is
/// wide, and reading those bytes back in the same byte order gives the
/// integer.
pub proof fn lemma_representable_round_trip(
    value: DataValue,
    ty: ScalarType,
    endianness: Endianness,
    strict: bool,
)
    requires
        ty.spec_is_integer(),
        integer_of(value) is Some,
        ty.min_value() <= integer_of(value)->Some_0 <= ty.max_value(),
    ensures
        value.spec_to_bytes(ty, endianness, strict) is Ok,
        value.spec_to_bytes(ty, endianness, strict)->Ok_0.len() == ty.spec_size_bytes(),
        decode_integer(value.spec_to_bytes(ty, endianness, strict)->Ok_0, ty, endianness)
            == integer_of(value)->Some_0,
{
    assert(to_integer(value, ty, strict) == Ok::<int, super::errors::ExportFailure>(
        integer_of(value)->Some_0,
    ));
    lemma_scalar_round_trip(value, ty, endianness, strict);
}

/// An integer that the field's type cannot hold is refused in strict mode;
/// in lossy mode its low bits are written, so that reading the bytes back
/// gives the one number of the type that differs from the integer by a
/// multiple of two to the power of the type's width in bits.
pub proof fn lemma_unrepresentable_is_wrapped(
    value: DataValue,
    ty: ScalarType,
    endianness: Endianness,
    strict: bool,
)
    requires
        ty.spec_is_integer(),
        integer_of(value) is Some,
        !(ty.min_value() <= integer_of(value)->Some_0 <= ty.max_value()),
    ensures
        strict ==> value.spec_to_bytes(ty, endianness, strict) is Err,
        !strict ==> value.spec_to_bytes(ty, endianness, strict) is Ok && decode_integer(
            value.spec_to_bytes(ty, endianness, strict)->Ok_0,
            ty,
            endianness,
        ) == super::conversions::wrap_into(integer_of(value)->Some_0, ty),
{
    super::settings::lemma_radix_values();
    assert(!(value is Bool));
    if !strict {
        assert(to_integer(value, ty, strict) == Ok::<int, super::errors::ExportFailure>(
            super::conversions::wrap_into(integer_of(value)->Some_0, ty),
        ));
        lemma_scalar_round_trip(value, ty, endianness, strict);
    }
}

/// The number that a value is, as a sign, an integer `m` and an exponent
/// `e` of two: an integer as it stands, a truth value as one or zero, and a
/// finite binary64 number by its significand and exponent.
pub open spec fn number_of(value: DataValue) -> Option<(bool, nat, int)> {
    match value {
        DataValue::Bool(b) => Some(
            (
                false,
                if b {
                    1nat
                } else {
                    0nat
                },
                0int,
            ),
        ),
        DataValue::U64(n) => Some((false, n as nat, 0int)),
        DataValue::I64(n) => Some((n < 0, super::conversions::magnitude(n as int), 0int)),
        DataValue::F64(bits) => if super::conversions::f64_is_finite(bits) {
            Some(
                (
                    super::conversions::f64_negative(bits),
                    super::conversions::f64_significand(bits),
                    super::conversions::f64_exponent(bits),
                ),
            )
        } else {
            None
        },
        DataValue::Str(_) => None,
    }
}

/// A number that a floating-point type holds exactly is written as it is.
///
/// In strict mode and in lossy mode alike, an integer, or a binary64
/// number written to a binary32 field, that the field's type holds exactly
/// is converted without error, to as many bytes as the type is wide, and
/// the pattern read back from those bytes in the same byte order reads as
/// that number. A binary64 number written to a binary64 field keeps its
/// pattern.
pub proof fn lemma_float_round_trip(
    value: DataValue,
    ty: ScalarType,
    endianness: Endianness,
    strict: bool,
)
    requires
        !ty.spec_is_integer(),
        number_of(value) is Some,
        super::conversions::rounds_exactly(
            number_of(value)->Some_0.1,
            number_of(value)->Some_0.2,
            float_format(ty),
        ),
    ensures
        value.spec_to_bytes(ty, endianness, strict) is Ok,
        value.spec_to_bytes(ty, endianness, strict)->Ok_0.len() == ty.spec_size_bytes(),
        (value is F64 && ty == ScalarType::F64) ==> endian_value(
            value.spec_to_bytes(ty, endianness, strict)->Ok_0,
            endianness,
        ) == value->F64_0,
        !(value is F64 && ty == ScalarType::F64) ==> super::conversions::reads_as(
            endian_value(value.spec_to_bytes(ty, endianness, strict)->Ok_0, endianness),
            float_format(ty),
            number_of(value)->Some_0.0,
            number_of(value)->Some_0.1,
            number_of(value)->Some_0.2,
        ),
{
    let parts = number_of(value)->Some_0;
    let format = float_format(ty);
    super::conversions::lemma_exact_float_is_kept(parts.0, parts.1, parts.2, format, strict);
    assert(to_float(value, format, strict) is Ok);
    lemma_scalar_round_trip(value, ty, endianness, strict);
}

/// Reading a field back gives what was stored in it.
///
/// The bytes of a value are as many as the type is wide. Read back in the
/// byte order in which they were written, the bytes of an integer type give
/// the integer that was stored, and those of a floating-point type the bit
/// pattern that was stored. In strict mode what is stored is the value
/// itself: see `lemma_strict_is_exact` and `lemma_strict_float_is_exact`.
pub proof fn lemma_scalar_round_trip(
    value: DataValue,
    ty: ScalarType,
    endianness: Endianness,
    strict: bool,
)
    requires
        value.spec_to_bytes(ty, endianness, strict) is Ok,
    ensures
        value.spec_to_bytes(ty, endianness, strict)->Ok_0.len() == ty.spec_size_bytes(),
        ty.spec_is_integer() ==> decode_integer(
            value.spec_to_bytes(ty, endianness, strict)->Ok_0,
            ty,
            endianness,
        ) == to_integer(value, ty, strict)->Ok_0,
        !ty.spec_is_integer() ==> endian_value(
            value.spec_to_bytes(ty, endianness, strict)->Ok_0,
            endianness,
        ) == to_float(value, float_format(ty), strict)->Ok_0,
{
    let size = ty.spec_size_bytes();
    super::settings::lemma_radix_values();
    if ty.spec_is_integer() {
        let stored = to_integer(value, ty, strict)->Ok_0;
        super::conversions::lemma_to_integer_in_range(value, ty, strict);
        let span = radix(size) as int;
        let pattern = twos_complement(stored, size);
        super::settings::lemma_endian_round_trip(pattern, size, endianness);
        if stored >= 0 {
            vstd::arithmetic::div_mod::lemma_small_mod(stored as nat, span as nat);
        } else {
            vstd::arithmetic::div_mod::lemma_mod_multiples_vanish(1, stored, span);
            vstd::arithmetic::div_mod::lemma_small_mod((stored + span) as nat, span as nat);
        }
        vstd::arithmetic::div_mod::lemma_small_mod(pattern, span as nat);
    } else {
        let format = float_format(ty);
        let pattern = to_float(value, format, strict)->Ok_0;
        super::conversions::lemma_float_pattern_fits(value, format, strict);
        super::settings::lemma_endian_round_trip(pattern, size, endianness);
        vstd::arithmetic::div_mod::lemma_small_mod(pattern, radix(size));
    }
}

} // verus!
