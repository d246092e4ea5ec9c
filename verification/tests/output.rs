use mint_cli::layout::header::Header;
use mint_cli::layout::settings::{CrcArea, CrcConfig, CrcLocation, Endianness, Settings};
use mint_cli::output::args::OutputFormat;
use mint_cli::output::checksum::calculate_crc;
use mint_cli::output::{bytestream_to_datarange, emit_hex};

fn sample_crc_data() -> CrcConfig {
    CrcConfig {
        location: None,
        polynomial: Some(0x04C11DB7),
        start: Some(0xFFFF_FFFF),
        xor_out: Some(0xFFFF_FFFF),
        ref_in: Some(true),
        ref_out: Some(true),
        area: Some(CrcArea::Data),
    }
}

fn settings_with(crc: Option<CrcConfig>, pad_to_end: bool) -> Settings {
    Settings {
        endianness: Endianness::Little,
        virtual_offset: 0,
        crc,
        byte_swap: false,
        word_addressing: false,
        pad_to_end,
    }
}

fn sample_settings() -> Settings {
    settings_with(Some(sample_crc_data()), false)
}

fn sample_header_crc() -> CrcConfig {
    CrcConfig {
        location: Some(CrcLocation::Keyword("end".to_string())),
        polynomial: None,
        start: None,
        xor_out: None,
        ref_in: None,
        ref_out: None,
        area: None,
    }
}

fn sample_header(len: u32) -> Header {
    Header {
        start_address: 0,
        length: len,
        crc: Some(sample_header_crc()),
        padding: 0xFF,
    }
}

fn header_no_crc(len: u32) -> Header {
    Header {
        start_address: 0,
        length: len,
        crc: None,
        padding: 0xFF,
    }
}

#[test]
fn pad_to_end_false_resizes_to_crc_end_only() {
    let settings = sample_settings();
    let crc_data = sample_crc_data();
    let header = sample_header(16);

    let bytestream = vec![1u8, 2, 3, 4];
    let dr = bytestream_to_datarange(bytestream.clone(), &header, &settings, 0)
        .expect("data range generation failed");
    assert_eq!(dr.bytestream, bytestream);
    let hex = emit_hex(&[dr], 16, OutputFormat::Hex).expect("hex generation failed");

    // No in-memory resize when pad_to_end=false; CRC is emitted separately
    assert_eq!(bytestream.len(), 4);

    // CRC offset should be 4 (aligned to 4-byte boundary after payload)
    let crc_offset = 4u32;
    let crc_val = calculate_crc(&bytestream[..crc_offset as usize], &crc_data);
    let crc_bytes = match settings.endianness {
        Endianness::Big => crc_val.to_be_bytes(),
        Endianness::Little => crc_val.to_le_bytes(),
    };
    let expected_crc_ascii = crc_bytes
        .iter()
        .map(|b| format!("{:02X}", b))
        .collect::<String>();
    assert!(
        hex.to_uppercase().contains(&expected_crc_ascii),
        "hex should contain CRC bytes"
    );
}

#[test]
fn pad_to_end_true_resizes_to_full_block() {
    let settings = settings_with(Some(sample_crc_data()), true);
    let header = sample_header(32);

    let bytestream = vec![1u8, 2, 3, 4];
    let dr = bytestream_to_datarange(bytestream, &header, &settings, 0)
        .expect("data range generation failed");

    assert_eq!(dr.bytestream.len(), header.length as usize);
}

#[test]
fn block_zero_crc_zeros_crc_location() {
    let mut crc_data = sample_crc_data();
    crc_data.area = Some(CrcArea::BlockZeroCrc);
    let settings = settings_with(Some(crc_data), false);
    let header = sample_header(32);

    let bytestream = vec![1u8, 2, 3, 4];
    let dr = bytestream_to_datarange(bytestream, &header, &settings, 0)
        .expect("data range generation failed");

    assert_eq!(dr.bytestream.len(), header.length as usize);
    let crc_offset = 4u32; // aligned to 4-byte boundary
    assert_eq!(
        dr.bytestream[crc_offset as usize..(crc_offset + 4) as usize],
        [0, 0, 0, 0],
        "CRC location should be zeroed"
    );
}

#[test]
fn block_pad_crc_includes_padding_at_crc_location() {
    let mut crc_data = sample_crc_data();
    crc_data.area = Some(CrcArea::BlockPadCrc);
    let settings = settings_with(Some(crc_data), false);
    let header = sample_header(32);

    let bytestream = vec![1u8, 2, 3, 4];
    let dr = bytestream_to_datarange(bytestream, &header, &settings, 0)
        .expect("data range generation failed");

    assert_eq!(dr.bytestream.len(), header.length as usize);
    let crc_offset = 4u32;
    assert_eq!(
        dr.bytestream[crc_offset as usize..(crc_offset + 4) as usize],
        [0xFF, 0xFF, 0xFF, 0xFF],
        "CRC location should contain padding value"
    );
}

#[test]
fn block_omit_crc_excludes_crc_bytes_from_calculation() {
    let mut crc_data = sample_crc_data();
    crc_data.area = Some(CrcArea::BlockOmitCrc);
    let settings = settings_with(Some(crc_data.clone()), false);
    let header = sample_header(32);

    let bytestream = vec![1u8, 2, 3, 4];
    let dr = bytestream_to_datarange(bytestream.clone(), &header, &settings, 0)
        .expect("data range generation failed");

    assert_eq!(dr.bytestream.len(), header.length as usize);
    let crc_offset = 4u32;

    // Calculate expected CRC by omitting CRC bytes
    let before = &dr.bytestream[..crc_offset as usize];
    let after = &dr.bytestream[(crc_offset + 4) as usize..];
    let combined: Vec<u8> = [before, after].concat();
    let expected_crc = calculate_crc(&combined, &crc_data);

    // Extract actual CRC from the result
    let actual_crc = match settings.endianness {
        Endianness::Little => u32::from_le_bytes(
            dr.crc_bytestream[..4]
                .try_into()
                .expect("CRC bytes should be 4 bytes"),
        ),
        Endianness::Big => u32::from_be_bytes(
            dr.crc_bytestream[..4]
                .try_into()
                .expect("CRC bytes should be 4 bytes"),
        ),
    };

    assert_eq!(
        expected_crc, actual_crc,
        "CRC should match calculation with CRC bytes omitted"
    );

    // Verify that including CRC bytes produces a different result
    let crc_with_bytes = calculate_crc(&dr.bytestream, &crc_data);
    assert_ne!(
        expected_crc, crc_with_bytes,
        "CRC with bytes included should differ from CRC with bytes omitted"
    );
}

#[test]
fn no_crc_config_skips_crc() {
    let settings = settings_with(None, false);
    let header = header_no_crc(32);

    let bytestream = vec![1u8, 2, 3, 4];
    let dr = bytestream_to_datarange(bytestream.clone(), &header, &settings, 0)
        .expect("data range generation failed");

    assert!(dr.crc_bytestream.is_empty(), "CRC should be empty");
    assert_eq!(dr.crc_address, 0, "CRC address should be 0");
    assert_eq!(dr.bytestream.len(), 4, "bytestream should not be padded");
}

#[test]
fn crc_location_none_skips_crc() {
    let settings = sample_settings();
    let header = Header {
        crc: Some(CrcConfig {
            location: Some(CrcLocation::Keyword("none".to_string())),
            ..sample_header_crc()
        }),
        ..sample_header(32)
    };

    let bytestream = vec![1u8, 2, 3, 4];
    let dr = bytestream_to_datarange(bytestream.clone(), &header, &settings, 0)
        .expect("data range generation failed");

    assert!(dr.crc_bytestream.is_empty(), "CRC should be empty");
    assert_eq!(dr.crc_address, 0, "CRC address should be 0");
    assert_eq!(dr.bytestream.len(), 4, "bytestream should not be padded");
}

#[test]
fn no_crc_with_pad_to_end() {
    let settings = settings_with(None, true);
    let header = header_no_crc(32);

    let bytestream = vec![1u8, 2, 3, 4];
    let dr = bytestream_to_datarange(bytestream.clone(), &header, &settings, 0)
        .expect("data range generation failed");

    assert!(dr.crc_bytestream.is_empty(), "CRC should be empty");
    assert_eq!(
        dr.bytestream.len(),
        32,
        "bytestream should be padded to full block"
    );
}

#[test]
fn crc_location_set_but_settings_missing_errors() {
    let settings = settings_with(None, false);
    // Header has CRC location but no overrides, and no global settings
    let header = sample_header(32);

    let bytestream = vec![1u8, 2, 3, 4];
    let result = bytestream_to_datarange(bytestream, &header, &settings, 0);

    assert!(result.is_err());
    assert!(result
        .unwrap_err()
        .message()
        .contains("missing CRC settings"));
}

#[test]
fn header_crc_overrides_global_settings() {
    // Global settings with one polynomial
    let settings = sample_settings();

    // Header overrides polynomial
    let header = Header {
        crc: Some(CrcConfig {
            location: Some(CrcLocation::Keyword("end".to_string())),
            polynomial: Some(0x1EDC6F41), // Different polynomial
            start: None,
            xor_out: None,
            ref_in: None,
            ref_out: None,
            area: None,
        }),
        ..sample_header(32)
    };

    let bytestream = vec![1u8, 2, 3, 4];
    let dr = bytestream_to_datarange(bytestream.clone(), &header, &settings, 0)
        .expect("data range generation failed");

    // CRC should be computed with the overridden polynomial
    let expected_crc_data = CrcConfig {
        polynomial: Some(0x1EDC6F41),
        ..sample_crc_data()
    };
    let expected_crc = calculate_crc(&bytestream, &expected_crc_data);
    let actual_crc = u32::from_le_bytes(dr.crc_bytestream[..4].try_into().unwrap());
    assert_eq!(expected_crc, actual_crc);
}

#[test]
fn header_crc_fully_specified_no_global() {
    // No global CRC settings
    let settings = settings_with(None, false);

    // Header fully specifies all CRC settings
    let header = Header {
        crc: Some(CrcConfig {
            location: Some(CrcLocation::Keyword("end".to_string())),
            polynomial: Some(0x04C11DB7),
            start: Some(0xFFFFFFFF),
            xor_out: Some(0xFFFFFFFF),
            ref_in: Some(true),
            ref_out: Some(true),
            area: Some(CrcArea::Data),
        }),
        ..sample_header(32)
    };

    let bytestream = vec![1u8, 2, 3, 4];
    let dr = bytestream_to_datarange(bytestream.clone(), &header, &settings, 0)
        .expect("data range generation failed");

    // Should succeed and produce a valid CRC
    assert!(!dr.crc_bytestream.is_empty());
    let expected_crc = calculate_crc(&bytestream, &sample_crc_data());
    let actual_crc = u32::from_le_bytes(dr.crc_bytestream[..4].try_into().unwrap());
    assert_eq!(expected_crc, actual_crc);
}
