use mint_cli::layout::header::Header;
use mint_cli::layout::settings::{CrcArea, CrcConfig, CrcLocation, Endianness, Settings};
use mint_cli::output::byte_swap_inplace;
use mint_cli::output::checksum::{calculate_crc, reverse_bits};
use mint_cli::output::errors::{HexFailure, OutputError};
use mint_cli::output::{bytestream_to_datarange, resolve_crc, DataRange};

fn crc32() -> CrcConfig {
    CrcConfig {
        location: None,
        polynomial: Some(0x04C11DB7),
        start: Some(0xFFFF_FFFF),
        xor_out: Some(0xFFFF_FFFF),
        ref_in: Some(true),
        ref_out: Some(true),
        area: Some(CrcArea::Data),
    }
}

fn located(location: CrcLocation) -> CrcConfig {
    CrcConfig {
        location: Some(location),
        polynomial: None,
        start: None,
        xor_out: None,
        ref_in: None,
        ref_out: None,
        area: None,
    }
}

fn keyword(word: &str) -> CrcConfig {
    located(CrcLocation::Keyword(word.to_string()))
}

fn settings(crc: Option<CrcConfig>) -> Settings {
    Settings {
        endianness: Endianness::Little,
        virtual_offset: 0,
        byte_swap: false,
        word_addressing: false,
        pad_to_end: false,
        crc,
    }
}

fn header(start_address: u32, length: u32, crc: Option<CrcConfig>) -> Header {
    Header {
        start_address,
        length,
        crc,
        padding: 0xFF,
    }
}

fn failure(r: Result<DataRange, OutputError>) -> HexFailure {
    match r {
        Err(OutputError::HexOutputError(f)) => f,
        Err(other) => panic!("unexpected error: {}", other.message()),
        Ok(_) => panic!("expected an error"),
    }
}

#[test]
fn the_crc_behind_the_data_covers_the_padded_data() {
    let h = header(0x1000, 0x100, Some(keyword("end_data")));
    let dr = bytestream_to_datarange(vec![1, 2, 3, 4, 5], &h, &settings(Some(crc32())), 0).unwrap();
    assert_eq!(dr.start_address, 0x1000);
    assert_eq!(dr.bytestream, vec![1, 2, 3, 4, 5, 0xFF, 0xFF, 0xFF]);
    assert_eq!(dr.crc_address, 0x1008);
    let expected = calculate_crc(&[1, 2, 3, 4, 5, 0xFF, 0xFF, 0xFF], &crc32());
    assert_eq!(dr.crc_bytestream, expected.to_le_bytes().to_vec());
    assert_eq!(dr.used_size, 5 + 4);
    assert_eq!(dr.allocated_size, 0x100);
}

#[test]
fn the_crc_at_the_end_of_the_block_lies_in_its_last_four_bytes() {
    let h = header(0x2000, 0x20, Some(keyword("end_block")));
    let dr = bytestream_to_datarange(vec![1, 2, 3, 4], &h, &settings(Some(crc32())), 0).unwrap();
    assert_eq!(dr.crc_address, 0x2000 + 0x1C);
    let mut covered = vec![1, 2, 3, 4];
    covered.resize(0x1C, 0xFF);
    assert_eq!(dr.bytestream, covered);
    assert_eq!(
        dr.crc_bytestream,
        calculate_crc(&covered, &crc32()).to_le_bytes().to_vec()
    );
}

#[test]
fn the_crc_at_an_address_lies_at_that_address() {
    let h = header(0x3000, 0x100, Some(located(CrcLocation::Address(0x30F0))));
    let dr = bytestream_to_datarange(vec![9; 8], &h, &settings(Some(crc32())), 0).unwrap();
    assert_eq!(dr.crc_address, 0x30F0);
    assert_eq!(dr.bytestream.len(), 0xF0);
    assert_eq!(&dr.bytestream[..8], &[9; 8]);
    assert!(dr.bytestream[8..].iter().all(|b| *b == 0xFF));
    assert_eq!(
        dr.crc_bytestream,
        calculate_crc(&dr.bytestream, &crc32()).to_le_bytes().to_vec()
    );
}

#[test]
fn the_crc_is_written_in_the_byte_order_of_the_layout() {
    let h = header(0, 16, Some(keyword("end")));
    let mut s = settings(Some(crc32()));
    s.endianness = Endianness::Big;
    let dr = bytestream_to_datarange(vec![1, 2, 3, 4], &h, &s, 0).unwrap();
    assert_eq!(
        dr.crc_bytestream,
        calculate_crc(&[1, 2, 3, 4], &crc32()).to_be_bytes().to_vec()
    );
}

#[test]
fn crc_locations_that_cannot_be_are_refused() {
    let s = settings(Some(crc32()));
    assert!(matches!(
        failure(bytestream_to_datarange(
            vec![0; 5],
            &header(0, 4, None),
            &s,
            0
        )),
        HexFailure::LengthExceeded
    ));
    assert!(matches!(
        failure(bytestream_to_datarange(
            vec![0; 4],
            &header(0x100, 16, Some(located(CrcLocation::Address(0xFF)))),
            &s,
            0
        )),
        HexFailure::CrcBeforeStart
    ));
    assert!(matches!(
        failure(bytestream_to_datarange(
            vec![0; 8],
            &header(0x100, 16, Some(located(CrcLocation::Address(0x104)))),
            &s,
            0
        )),
        HexFailure::CrcOverlapsPayload
    ));
    assert!(matches!(
        failure(bytestream_to_datarange(
            vec![0; 14],
            &header(0x100, 16, Some(keyword("end_block"))),
            &s,
            0
        )),
        HexFailure::CrcOverlapsPayload
    ));
    assert!(matches!(
        failure(bytestream_to_datarange(
            vec![0; 4],
            &header(0x100, 16, Some(located(CrcLocation::Address(0x10D)))),
            &s,
            0
        )),
        HexFailure::CrcOverrun
    ));
    assert!(matches!(
        failure(bytestream_to_datarange(
            vec![0; 14],
            &header(0x100, 16, Some(keyword("end_data"))),
            &s,
            0
        )),
        HexFailure::CrcOverrun
    ));
    assert!(matches!(
        failure(bytestream_to_datarange(
            vec![0; 2],
            &header(0x100, 3, Some(keyword("end_block"))),
            &s,
            0
        )),
        HexFailure::CrcOverrun
    ));
    match failure(bytestream_to_datarange(
        vec![0; 4],
        &header(0x100, 16, Some(keyword("middle"))),
        &s,
        0,
    )) {
        HexFailure::InvalidCrcLocation(word) => assert_eq!(word, "middle"),
        _ => panic!("expected an invalid location"),
    }
    assert!(matches!(
        failure(bytestream_to_datarange(
            vec![0; 4],
            &header(0x100, 16, Some(keyword("end_data"))),
            &settings(None),
            0
        )),
        HexFailure::MissingCrcSettings
    ));
    // An address may only stand in a header.
    let mut shared = crc32();
    shared.location = Some(CrcLocation::Address(0x108));
    assert!(matches!(
        failure(bytestream_to_datarange(
            vec![0; 4],
            &header(0x100, 16, None),
            &settings(Some(shared.clone())),
            0
        )),
        HexFailure::AddressInSettings
    ));
    let mut own = crc32();
    own.location = None;
    assert!(matches!(
        failure(bytestream_to_datarange(
            vec![0; 4],
            &header(0x100, 16, Some(own)),
            &settings(Some(shared)),
            0
        )),
        HexFailure::AddressInSettings
    ));
    // Addresses stay within 32 bits.
    let mut far = settings(None);
    far.virtual_offset = 0xFFFF_FFFF;
    assert!(matches!(
        failure(bytestream_to_datarange(vec![0; 4], &header(1, 16, None), &far, 0)),
        HexFailure::AddressOverflow
    ));
    let mut far = settings(Some(crc32()));
    far.virtual_offset = 0xFFFF_FFF0;
    assert!(matches!(
        failure(bytestream_to_datarange(
            vec![0; 4],
            &header(0, 0x20, Some(keyword("end_block"))),
            &far,
            0
        )),
        HexFailure::AddressOverflow
    ));
}

#[test]
fn the_location_of_the_settings_counts_where_the_header_has_none() {
    let mut shared = crc32();
    shared.location = Some(CrcLocation::Keyword("end_data".to_string()));
    let dr = bytestream_to_datarange(
        vec![0x88, 0x77, 0x66, 0x55],
        &header(0xD000, 0x100, None),
        &settings(Some(shared)),
        0,
    )
    .unwrap();
    assert_eq!(dr.crc_address, 0xD004);
    assert_eq!(
        dr.crc_bytestream,
        calculate_crc(&[0x88, 0x77, 0x66, 0x55], &crc32())
            .to_le_bytes()
            .to_vec()
    );
    // The header's keyword overrides it.
    let mut shared = crc32();
    shared.location = Some(CrcLocation::Keyword("end_data".to_string()));
    let dr = bytestream_to_datarange(
        vec![1, 2, 3, 4],
        &header(0xD000, 0x100, Some(keyword("none"))),
        &settings(Some(shared)),
        0,
    )
    .unwrap();
    assert!(dr.crc_bytestream.is_empty());
}

#[test]
fn the_used_size_leaves_out_alignment_padding() {
    let h = header(0, 0x40, Some(keyword("end_data")));
    let dr = bytestream_to_datarange(vec![0; 12], &h, &settings(Some(crc32())), 5).unwrap();
    assert_eq!(dr.used_size, 12 - 5 + 4);
    let dr = bytestream_to_datarange(vec![0; 12], &header(0, 0x40, None), &settings(None), 5).unwrap();
    assert_eq!(dr.used_size, 7);
    let dr = bytestream_to_datarange(vec![0; 2], &header(0, 0x40, None), &settings(None), 5).unwrap();
    assert_eq!(dr.used_size, 0);
    assert_eq!(dr.allocated_size, 0x40);
}

#[test]
fn byte_swap_exchanges_pairs_before_the_crc() {
    let mut s = settings(Some(crc32()));
    s.byte_swap = true;
    let h = header(0x1000, 0x20, Some(keyword("end_data")));
    let dr = bytestream_to_datarange(vec![0x34, 0x12, 0x78], &h, &s, 0).unwrap();
    assert_eq!(dr.bytestream, vec![0x12, 0x34, 0xFF, 0x78]);
    let value = calculate_crc(&[0x12, 0x34, 0xFF, 0x78], &crc32());
    let le = value.to_le_bytes();
    assert_eq!(dr.crc_bytestream, vec![le[1], le[0], le[3], le[2]]);
    assert_eq!(dr.start_address, 0x1000);
    assert_eq!(dr.crc_address, 0x1004);
    assert_eq!(dr.allocated_size, 0x20);
    assert_eq!(dr.used_size, 8);

    let mut bytes = vec![1, 2, 3, 4, 5];
    byte_swap_inplace(&mut bytes);
    assert_eq!(bytes, vec![2, 1, 4, 3, 5]);
    let mut none: Vec<u8> = Vec::new();
    byte_swap_inplace(&mut none);
    assert!(none.is_empty());
}

#[test]
fn word_addressing_doubles_addresses_and_swaps_bytes_of_the_block() {
    let mut s = settings(Some(crc32()));
    s.word_addressing = true;
    s.virtual_offset = 0x100;
    let h = header(0x1000, 0x20, Some(keyword("end_data")));
    // 0x1234 and 0x5678, little endian.
    let dr = bytestream_to_datarange(vec![0x34, 0x12, 0x78, 0x56], &h, &s, 0).unwrap();
    assert_eq!(dr.bytestream, vec![0x12, 0x34, 0x56, 0x78]);
    // The virtual offset is added after the doubling.
    assert_eq!(dr.start_address, 0x1000 * 2 + 0x100);
    assert_eq!(dr.crc_address, (0x1000 + 4) * 2 + 0x100);
    assert_eq!(dr.allocated_size, 0x40);
    let value = calculate_crc(&[0x12, 0x34, 0x56, 0x78], &crc32());
    let le = value.to_le_bytes();
    assert_eq!(dr.crc_bytestream, vec![le[1], le[0], le[3], le[2]]);
    // A length that cannot be doubled is refused.
    let far = header(0, 0x8000_0000, None);
    assert!(matches!(
        failure(bytestream_to_datarange(vec![0; 4], &far, &s, 0)),
        HexFailure::AddressOverflow
    ));
}

#[test]
fn padding_to_the_end_fills_the_block() {
    let mut s = settings(Some(crc32()));
    s.pad_to_end = true;
    let h = header(0, 16, Some(keyword("end_data")));
    let dr = bytestream_to_datarange(vec![1, 2, 3, 4], &h, &s, 0).unwrap();
    let mut expected = vec![1, 2, 3, 4];
    expected.resize(16, 0xFF);
    assert_eq!(dr.bytestream, expected);
    // The CRC still covers the data alone.
    assert_eq!(
        dr.crc_bytestream,
        calculate_crc(&[1, 2, 3, 4], &crc32()).to_le_bytes().to_vec()
    );
}

#[test]
fn the_four_areas_give_four_checksums() {
    let data = vec![0xDD, 0xCC, 0xBB, 0xAA];
    let mut values = Vec::new();
    for area in [
        CrcArea::Data,
        CrcArea::BlockZeroCrc,
        CrcArea::BlockPadCrc,
        CrcArea::BlockOmitCrc,
    ] {
        let mut own = keyword("end_data");
        own.area = Some(area);
        let h = header(0x9000, 0x100, Some(own));
        let dr = bytestream_to_datarange(data.clone(), &h, &settings(Some(crc32())), 0).unwrap();
        values.push(u32::from_le_bytes([
            dr.crc_bytestream[0],
            dr.crc_bytestream[1],
            dr.crc_bytestream[2],
            dr.crc_bytestream[3],
        ]));
    }
    for i in 0..4 {
        for j in (i + 1)..4 {
            assert_ne!(values[i], values[j], "areas {i} and {j}");
        }
    }
    // Each is the checksum of what its area covers.
    let mut block = data.clone();
    block.resize(0x100, 0xFF);
    assert_eq!(values[0], calculate_crc(&data, &crc32()));
    assert_eq!(values[2], calculate_crc(&block, &crc32()));
    let mut zeroed = block.clone();
    zeroed[4..8].fill(0);
    assert_eq!(values[1], calculate_crc(&zeroed, &crc32()));
    let mut omitted = block[..4].to_vec();
    omitted.extend_from_slice(&block[8..]);
    assert_eq!(values[3], calculate_crc(&omitted, &crc32()));
}

#[test]
fn header_values_take_precedence_field_by_field() {
    let mut own = keyword("end_data");
    own.xor_out = Some(0);
    own.ref_out = Some(false);
    let merged = own.resolve(Some(&crc32()));
    assert!(matches!(merged.location, Some(CrcLocation::Keyword(ref w)) if w == "end_data"));
    assert_eq!(merged.polynomial, Some(0x04C11DB7));
    assert_eq!(merged.start, Some(0xFFFF_FFFF));
    assert_eq!(merged.xor_out, Some(0));
    assert_eq!(merged.ref_in, Some(true));
    assert_eq!(merged.ref_out, Some(false));
    assert_eq!(merged.area, Some(CrcArea::Data));
    assert!(merged.is_complete());
    assert!(!merged.is_disabled());

    let alone = keyword("end_data").resolve(None);
    assert!(!alone.is_complete());
    assert!(!alone.is_disabled());
    assert!(crc32().is_disabled());
    assert!(crc32().is_complete());
    let mut partial = crc32();
    partial.area = None;
    assert!(!partial.is_complete());
    let empty = CrcConfig::default();
    assert!(empty.is_disabled());
    assert!(!empty.is_complete());
    // The base fills what is missing, the location too.
    let mut base = crc32();
    base.location = Some(CrcLocation::Address(7));
    let filled = CrcConfig::default().resolve(Some(&base));
    assert!(matches!(filled.location, Some(CrcLocation::Address(7))));
}

#[test]
fn the_crc_offset_is_resolved_from_header_and_settings() {
    let s = settings(Some(crc32()));
    let (offset, config) = resolve_crc(5, &header(0, 0x40, Some(keyword("end_data"))), &s)
        .unwrap()
        .unwrap();
    assert_eq!(offset, 8);
    assert_eq!(config.polynomial, Some(0x04C11DB7));
    let (offset, _) = resolve_crc(8, &header(0, 0x40, Some(keyword("end"))), &s)
        .unwrap()
        .unwrap();
    assert_eq!(offset, 8);
    let (offset, _) = resolve_crc(0, &header(0, 0x40, Some(keyword("end_block"))), &s)
        .unwrap()
        .unwrap();
    assert_eq!(offset, 0x3C);
    let (offset, _) = resolve_crc(
        4,
        &header(0x100, 0x40, Some(located(CrcLocation::Address(0x110)))),
        &s,
    )
    .unwrap()
    .unwrap();
    assert_eq!(offset, 0x10);
    assert!(resolve_crc(4, &header(0, 0x40, None), &s).unwrap().is_none());
    assert!(resolve_crc(4, &header(0, 0x40, Some(keyword("none"))), &s)
        .unwrap()
        .is_none());
}

#[test]
fn bits_are_reversed() {
    assert_eq!(reverse_bits(1), 0x8000_0000);
    assert_eq!(reverse_bits(0x04C11DB7), 0xEDB88320);
    assert_eq!(reverse_bits(0xFFFF_0000), 0x0000_FFFF);
    for x in [0u32, 1, 2, 0x1234_5678, 0xDEAD_BEEF, u32::MAX] {
        assert_eq!(reverse_bits(x), x.reverse_bits());
    }
}

#[test]
fn checksums_of_other_parameters() {
    // CRC-32C (Castagnoli)
    let mut c = crc32();
    c.polynomial = Some(0x1EDC6F41);
    assert_eq!(calculate_crc(b"123456789", &c), 0xE3069283);
    // CRC-32/BZIP2: not reflected, with final XOR
    let mut b = crc32();
    b.ref_in = Some(false);
    b.ref_out = Some(false);
    assert_eq!(calculate_crc(b"123456789", &b), 0xFC891918);
    // CRC-32/JAMCRC: reflected, without final XOR
    let mut j = crc32();
    j.xor_out = Some(0);
    assert_eq!(calculate_crc(b"123456789", &j), 0x340BC6D9);
    // Nothing to cover.
    assert_eq!(calculate_crc(b"", &crc32()), 0);
    // Input reflected, output not.
    let mut m = crc32();
    m.ref_out = Some(false);
    assert_eq!(calculate_crc(b"123456789", &m), 0xCBF43926u32.reverse_bits());
}
