use mint_cli::layout::conversions::clamp_bitfield_value;
use mint_cli::layout::entry::ScalarType;
use mint_cli::layout::errors::{ExportFailure, LayoutError};
use mint_cli::layout::settings::{EndianBytes, Endianness};
use mint_cli::layout::value::DataValue;

fn le(value: &DataValue, ty: ScalarType, strict: bool) -> Result<Vec<u8>, LayoutError> {
    value.to_bytes(ty, &Endianness::Little, strict)
}

fn failure(r: Result<Vec<u8>, LayoutError>) -> ExportFailure {
    match r {
        Err(LayoutError::DataValueExportFailed(f)) => f,
        Err(other) => panic!("unexpected error: {}", other.message()),
        Ok(bytes) => panic!("unexpected bytes: {:?}", bytes),
    }
}

fn float(v: f64) -> DataValue {
    DataValue::F64(v.to_bits())
}

#[test]
fn unsigned_values_are_written_in_both_byte_orders() {
    let v = DataValue::U64(0x1234_5678);
    assert_eq!(le(&v, ScalarType::U32, true).unwrap(), vec![0x78, 0x56, 0x34, 0x12]);
    assert_eq!(
        v.to_bytes(ScalarType::U32, &Endianness::Big, true).unwrap(),
        vec![0x12, 0x34, 0x56, 0x78]
    );
    assert_eq!(
        DataValue::U64(0x0102_0304_0506_0708)
            .to_bytes(ScalarType::U64, &Endianness::Big, true)
            .unwrap(),
        vec![1, 2, 3, 4, 5, 6, 7, 8]
    );
    assert_eq!(le(&DataValue::U64(0xABCD), ScalarType::U16, true).unwrap(), vec![0xCD, 0xAB]);
    assert_eq!(le(&DataValue::U64(200), ScalarType::U8, true).unwrap(), vec![200]);
}

#[test]
fn signed_values_are_written_in_twos_complement() {
    assert_eq!(le(&DataValue::I64(-1), ScalarType::I8, true).unwrap(), vec![0xFF]);
    assert_eq!(le(&DataValue::I64(-2), ScalarType::I16, true).unwrap(), vec![0xFE, 0xFF]);
    assert_eq!(
        le(&DataValue::I64(-0x8000_0000), ScalarType::I32, true).unwrap(),
        vec![0, 0, 0, 0x80]
    );
    assert_eq!(
        le(&DataValue::I64(i64::MIN), ScalarType::I64, true).unwrap(),
        i64::MIN.to_le_bytes().to_vec()
    );
    assert_eq!(
        DataValue::I64(-300)
            .to_bytes(ScalarType::I16, &Endianness::Big, true)
            .unwrap(),
        (-300i16).to_be_bytes().to_vec()
    );
}

#[test]
fn truth_values_are_one_and_zero() {
    assert_eq!(le(&DataValue::Bool(true), ScalarType::U16, true).unwrap(), vec![1, 0]);
    assert_eq!(le(&DataValue::Bool(false), ScalarType::I8, true).unwrap(), vec![0]);
    assert_eq!(
        le(&DataValue::Bool(true), ScalarType::F32, true).unwrap(),
        1.0f32.to_le_bytes().to_vec()
    );
    assert_eq!(
        le(&DataValue::Bool(true), ScalarType::F64, true).unwrap(),
        1.0f64.to_le_bytes().to_vec()
    );
}

#[test]
fn strict_mode_refuses_what_does_not_fit() {
    assert_eq!(failure(le(&DataValue::U64(256), ScalarType::U8, true)), ExportFailure::OutOfRange);
    assert_eq!(failure(le(&DataValue::I64(-1), ScalarType::U32, true)), ExportFailure::OutOfRange);
    assert_eq!(failure(le(&DataValue::I64(128), ScalarType::I8, true)), ExportFailure::OutOfRange);
    assert_eq!(
        failure(le(&DataValue::U64(u64::MAX), ScalarType::I64, true)),
        ExportFailure::OutOfRange
    );
    assert_eq!(failure(le(&float(1.5), ScalarType::I32, true)), ExportFailure::Fractional);
    assert_eq!(failure(le(&float(1e10), ScalarType::I32, true)), ExportFailure::OutOfRange);
    assert_eq!(failure(le(&float(-1.0), ScalarType::U8, true)), ExportFailure::OutOfRange);
    assert_eq!(failure(le(&float(f64::NAN), ScalarType::U8, true)), ExportFailure::NonFinite);
    assert_eq!(
        failure(le(&float(f64::INFINITY), ScalarType::I64, true)),
        ExportFailure::NonFinite
    );
    assert_eq!(
        failure(le(&DataValue::Str("x".to_string()), ScalarType::U8, true)),
        ExportFailure::StringNotScalar
    );
    assert_eq!(
        failure(le(&DataValue::Str("x".to_string()), ScalarType::F32, false)),
        ExportFailure::StringNotScalar
    );
    // A whole number in range passes.
    assert_eq!(le(&float(255.0), ScalarType::U8, true).unwrap(), vec![255]);
    assert_eq!(le(&float(-128.0), ScalarType::I8, true).unwrap(), vec![0x80]);
}

#[test]
fn lossy_mode_keeps_the_low_bits_of_integers() {
    assert_eq!(le(&DataValue::U64(0x1234), ScalarType::U8, false).unwrap(), vec![0x34]);
    assert_eq!(le(&DataValue::I64(-1), ScalarType::U16, false).unwrap(), vec![0xFF, 0xFF]);
    assert_eq!(le(&DataValue::U64(255), ScalarType::I8, false).unwrap(), vec![0xFF]);
    assert_eq!(
        le(&DataValue::U64(u64::MAX), ScalarType::I64, false).unwrap(),
        vec![0xFF; 8]
    );
    assert_eq!(
        le(&DataValue::I64(i64::MIN), ScalarType::U32, false).unwrap(),
        (i64::MIN as u32).to_le_bytes().to_vec()
    );
    for n in [0i64, 1, -1, 127, 128, -129, 65535, 65536, -65537, i64::MAX, i64::MIN] {
        assert_eq!(le(&DataValue::I64(n), ScalarType::U8, false).unwrap(), vec![n as u8]);
        assert_eq!(le(&DataValue::I64(n), ScalarType::I8, false).unwrap(), vec![n as i8 as u8]);
        assert_eq!(
            le(&DataValue::I64(n), ScalarType::I16, false).unwrap(),
            (n as i16).to_le_bytes().to_vec()
        );
        assert_eq!(
            le(&DataValue::I64(n), ScalarType::U32, false).unwrap(),
            (n as u32).to_le_bytes().to_vec()
        );
    }
}

#[test]
fn lossy_mode_drops_fractions_and_holds_to_the_range() {
    let samples = [
        0.0, -0.0, 0.4, 0.5, 0.999, 1.0, 1.5, -1.5, 2.5, 127.9, 128.0, -128.9, -129.0, 255.5,
        256.0, 65535.9, 1e9, -1e9, 4294967295.0, 4294967296.0, 9.2e18, 1.9e19, 1e300, -1e300,
        f64::MIN_POSITIVE, 5e-324, f64::MAX, f64::INFINITY, f64::NEG_INFINITY, f64::NAN,
    ];
    for v in samples {
        assert_eq!(le(&float(v), ScalarType::U8, false).unwrap(), vec![v as u8], "{v} as u8");
        assert_eq!(
            le(&float(v), ScalarType::I8, false).unwrap(),
            (v as i8).to_le_bytes().to_vec(),
            "{v} as i8"
        );
        assert_eq!(
            le(&float(v), ScalarType::U16, false).unwrap(),
            (v as u16).to_le_bytes().to_vec(),
            "{v} as u16"
        );
        assert_eq!(
            le(&float(v), ScalarType::I32, false).unwrap(),
            (v as i32).to_le_bytes().to_vec(),
            "{v} as i32"
        );
        assert_eq!(
            le(&float(v), ScalarType::U64, false).unwrap(),
            (v as u64).to_le_bytes().to_vec(),
            "{v} as u64"
        );
        assert_eq!(
            le(&float(v), ScalarType::I64, false).unwrap(),
            (v as i64).to_le_bytes().to_vec(),
            "{v} as i64"
        );
    }
}

#[test]
fn floats_are_rounded_to_the_nearest_single() {
    let samples = [
        0.0, -0.0, 1.0, -1.0, 3.14159, 0.1, 1e-10, 1e10, 16777216.0, 16777217.0, 16777218.0,
        16777219.0, 3.4028234663852886e38, 3.4028235677973366e38, 3.5e38, -3.5e38, 1e39,
        1.1754943508222875e-38, 1.1754942106924411e-38, 1e-40, 1.401298464324817e-45,
        7.006492321624085e-46, 7.1e-46, 7.0e-46, 2.1e-45, 1e-50, 5e-324, f64::MAX,
        6.103515625e-5, 0.333333333333333, 123456789.123456789, 8388607.5, 8388608.5,
        f64::INFINITY, f64::NEG_INFINITY,
    ];
    for v in samples {
        assert_eq!(
            le(&float(v), ScalarType::F32, false).unwrap(),
            (v as f32).to_le_bytes().to_vec(),
            "{v} as f32"
        );
        assert_eq!(
            float(v).to_bytes(ScalarType::F32, &Endianness::Big, false).unwrap(),
            (v as f32).to_be_bytes().to_vec()
        );
        assert_eq!(
            le(&float(v), ScalarType::F64, true).unwrap(),
            v.to_le_bytes().to_vec(),
            "{v} as f64"
        );
    }
    let nan = le(&float(f64::NAN), ScalarType::F32, false).unwrap();
    assert!(f32::from_le_bytes([nan[0], nan[1], nan[2], nan[3]]).is_nan());
    assert_eq!(
        le(&float(f64::NAN), ScalarType::F64, false).unwrap(),
        f64::NAN.to_le_bytes().to_vec()
    );
}

#[test]
fn integers_are_rounded_to_the_nearest_float() {
    let samples: [u64; 16] = [
        0,
        1,
        2,
        255,
        16777215,
        16777216,
        16777217,
        16777219,
        4294967295,
        9007199254740992,
        9007199254740993,
        9007199254740995,
        u64::MAX,
        u64::MAX - 1023,
        0x8000_0000_0000_0400,
        0x8000_0000_0000_0C00,
    ];
    for n in samples {
        assert_eq!(
            le(&DataValue::U64(n), ScalarType::F32, false).unwrap(),
            (n as f32).to_le_bytes().to_vec(),
            "{n} as f32"
        );
        assert_eq!(
            le(&DataValue::U64(n), ScalarType::F64, false).unwrap(),
            (n as f64).to_le_bytes().to_vec(),
            "{n} as f64"
        );
    }
    for n in [-1i64, -2, -16777217, i64::MIN, i64::MIN + 1, i64::MAX, -9007199254740993] {
        assert_eq!(
            le(&DataValue::I64(n), ScalarType::F32, false).unwrap(),
            (n as f32).to_le_bytes().to_vec(),
            "{n} as f32"
        );
        assert_eq!(
            le(&DataValue::I64(n), ScalarType::F64, false).unwrap(),
            (n as f64).to_le_bytes().to_vec(),
            "{n} as f64"
        );
    }
}

#[test]
fn strict_mode_refuses_floats_that_would_be_rounded() {
    assert_eq!(failure(le(&float(3.14159), ScalarType::F32, true)), ExportFailure::Inexact);
    assert_eq!(failure(le(&float(1e39), ScalarType::F32, true)), ExportFailure::Inexact);
    assert_eq!(failure(le(&float(5e-324), ScalarType::F32, true)), ExportFailure::Inexact);
    assert_eq!(
        failure(le(&DataValue::U64(16777217), ScalarType::F32, true)),
        ExportFailure::Inexact
    );
    assert_eq!(
        failure(le(&DataValue::U64(9007199254740993), ScalarType::F64, true)),
        ExportFailure::Inexact
    );
    // What a single holds exactly passes.
    assert_eq!(
        le(&float(0.5), ScalarType::F32, true).unwrap(),
        0.5f32.to_le_bytes().to_vec()
    );
    assert_eq!(
        le(&float(1.401298464324817e-45), ScalarType::F32, true).unwrap(),
        vec![1, 0, 0, 0]
    );
    assert_eq!(
        le(&DataValue::U64(16777216), ScalarType::F32, true).unwrap(),
        16777216f32.to_le_bytes().to_vec()
    );
    assert_eq!(
        le(&DataValue::I64(-3), ScalarType::F64, true).unwrap(),
        (-3f64).to_le_bytes().to_vec()
    );
}

#[test]
fn emitted_bytes_read_back_as_the_stored_value() {
    for n in [0i64, 7, -7, 1000, -1000, i32::MAX as i64, i32::MIN as i64] {
        let bytes = DataValue::I64(n)
            .to_bytes(ScalarType::I32, &Endianness::Big, true)
            .unwrap();
        assert_eq!(i32::from_be_bytes([bytes[0], bytes[1], bytes[2], bytes[3]]) as i64, n);
        let bytes = le(&DataValue::I64(n), ScalarType::I64, true).unwrap();
        let mut eight = [0u8; 8];
        eight.copy_from_slice(&bytes);
        assert_eq!(i64::from_le_bytes(eight), n);
    }
    let bytes = le(&float(2.75), ScalarType::F32, true).unwrap();
    assert_eq!(f32::from_le_bytes([bytes[0], bytes[1], bytes[2], bytes[3]]), 2.75);
}

#[test]
fn bit_fields_hold_or_refuse_values() {
    // A 3-bit field holds 0..=7.
    assert_eq!(clamp_bitfield_value(&DataValue::U64(7), 3, false, true).unwrap(), 7);
    assert_eq!(clamp_bitfield_value(&DataValue::U64(10), 3, false, false).unwrap(), 7);
    assert_eq!(clamp_bitfield_value(&DataValue::I64(-4), 3, false, false).unwrap(), 0);
    match clamp_bitfield_value(&DataValue::U64(10), 3, false, true) {
        Err(LayoutError::BitfieldOutOfRange {
            value,
            bits,
            signed,
            min,
            max,
        }) => assert_eq!((value, bits, signed, min, max), (10, 3, false, 0, 7)),
        _ => panic!("expected a range error"),
    }
    // A signed 4-bit field holds -8..=7.
    assert_eq!(clamp_bitfield_value(&DataValue::I64(-8), 4, true, true).unwrap(), -8);
    assert_eq!(clamp_bitfield_value(&DataValue::I64(-9), 4, true, false).unwrap(), -8);
    assert_eq!(clamp_bitfield_value(&DataValue::U64(8), 4, true, false).unwrap(), 7);
    match clamp_bitfield_value(&DataValue::I64(-9), 4, true, true) {
        Err(err @ LayoutError::BitfieldOutOfRange { .. }) => assert_eq!(
            err.message(),
            "bitfield value -9 out of range for 4-bit signed field (-8..=7)"
        ),
        _ => panic!("expected a range error"),
    }
    // The full width.
    assert_eq!(
        clamp_bitfield_value(&DataValue::U64(u64::MAX), 64, false, true).unwrap(),
        u64::MAX as i128
    );
    assert_eq!(
        clamp_bitfield_value(&DataValue::U64(u64::MAX), 64, true, false).unwrap(),
        i64::MAX as i128
    );
    // Floats lose their fraction; strict mode wants a whole number.
    assert_eq!(clamp_bitfield_value(&float(2.9), 3, false, false).unwrap(), 2);
    assert_eq!(clamp_bitfield_value(&float(1e30), 8, false, false).unwrap(), 255);
    assert_eq!(clamp_bitfield_value(&float(f64::NAN), 8, false, false).unwrap(), 0);
    assert!(matches!(
        clamp_bitfield_value(&float(2.9), 3, false, true),
        Err(LayoutError::DataValueExportFailed(ExportFailure::Fractional))
    ));
    assert!(matches!(
        clamp_bitfield_value(&float(f64::INFINITY), 3, false, true),
        Err(LayoutError::DataValueExportFailed(ExportFailure::NonFinite))
    ));
    assert!(matches!(
        clamp_bitfield_value(&DataValue::Str("1".to_string()), 3, false, false),
        Err(LayoutError::DataValueExportFailed(ExportFailure::StringNotScalar))
    ));
    assert_eq!(clamp_bitfield_value(&DataValue::Bool(true), 1, false, true).unwrap(), 1);
}

#[test]
fn integers_know_their_own_bytes() {
    assert_eq!(0x12u8.to_endian_bytes(&Endianness::Big), vec![0x12]);
    assert_eq!(0x1234u16.to_endian_bytes(&Endianness::Big), vec![0x12, 0x34]);
    assert_eq!(0x1234u16.to_endian_bytes(&Endianness::Little), vec![0x34, 0x12]);
    assert_eq!(
        0xDEADBEEFu32.to_endian_bytes(&Endianness::Little),
        vec![0xEF, 0xBE, 0xAD, 0xDE]
    );
    assert_eq!(
        0x0102030405060708u64.to_endian_bytes(&Endianness::Big),
        vec![1, 2, 3, 4, 5, 6, 7, 8]
    );
    assert_eq!((-1i8).to_endian_bytes(&Endianness::Little), vec![0xFF]);
    assert_eq!((-2i16).to_endian_bytes(&Endianness::Big), vec![0xFF, 0xFE]);
    assert_eq!(
        i32::MIN.to_endian_bytes(&Endianness::Big),
        vec![0x80, 0, 0, 0]
    );
    assert_eq!(
        (-3i64).to_endian_bytes(&Endianness::Little),
        (-3i64).to_le_bytes().to_vec()
    );
}

#[test]
fn strings_are_their_utf8_bytes() {
    assert_eq!(
        DataValue::Str("héllo".to_string()).string_to_bytes().unwrap(),
        "héllo".as_bytes().to_vec()
    );
    assert!(matches!(
        DataValue::U64(1).string_to_bytes(),
        Err(LayoutError::DataValueExportFailed(ExportFailure::StringExpected))
    ));
}
