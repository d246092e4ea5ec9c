use mint_cli::output::args::OutputFormat;
use mint_cli::output::errors::{HexFailure, OutputError};
use mint_cli::output::{emit_hex, join_lines, DataRange};

fn range(start_address: u32, bytes: Vec<u8>) -> DataRange {
    DataRange {
        start_address,
        used_size: bytes.len() as u32,
        bytestream: bytes,
        crc_address: 0,
        crc_bytestream: Vec::new(),
        allocated_size: 0x100,
    }
}

fn with_crc(start_address: u32, bytes: Vec<u8>, crc_address: u32, crc: Vec<u8>) -> DataRange {
    DataRange {
        crc_address,
        crc_bytestream: crc,
        ..range(start_address, bytes)
    }
}

#[test]
fn bytes_become_intel_hex_records() {
    let text = emit_hex(&[range(0, vec![1, 2, 3, 4])], 16, OutputFormat::Hex).unwrap();
    assert_eq!(text, ":0400000001020304F2\n:00000001FF");
    // Records are as wide as asked.
    let text = emit_hex(&[range(0x10, vec![1, 2, 3, 4, 5])], 2, OutputFormat::Hex).unwrap();
    assert_eq!(
        text,
        ":020010000102EB\n:020012000304E5\n:0100140005E6\n:00000001FF"
    );
}

#[test]
fn addresses_beyond_sixteen_bits_get_linear_address_records() {
    let text = emit_hex(&[range(0x0008_0000, vec![0xAA])], 16, OutputFormat::Hex).unwrap();
    assert_eq!(text, ":020000040008F2\n:01000000AA55\n:00000001FF");
    // An image that ends at 64 KiB still fits sixteen bits.
    let text = emit_hex(&[range(0xFFFF, vec![0xAA])], 16, OutputFormat::Hex).unwrap();
    assert_eq!(text, ":01FFFF00AA57\n:00000001FF");
}

#[test]
fn bytes_become_s_records() {
    let text = emit_hex(&[range(0, vec![1, 2, 3, 4])], 16, OutputFormat::Mot).unwrap();
    assert_eq!(text, "S107000001020304EE\nS5030001FB");
    let text = emit_hex(&[range(0x1_0000, vec![1])], 16, OutputFormat::Mot).unwrap();
    assert_eq!(text, "S20501000001F8\nS5030001FB");
    let text = emit_hex(&[range(0x100_0000, vec![1])], 16, OutputFormat::Mot).unwrap();
    assert_eq!(text, "S3060100000001F7\nS5030001FB");
}

#[test]
fn the_crc_is_written_over_the_block() {
    // The CRC lies inside the padded block and takes its place.
    let dr = with_crc(0, vec![1, 2, 3, 4, 0, 0, 0, 0], 4, vec![0xAA, 0xBB, 0xCC, 0xDD]);
    let text = emit_hex(&[dr], 16, OutputFormat::Hex).unwrap();
    assert_eq!(text, ":0800000001020304AABBCCDDE0\n:00000001FF");
    // The CRC behind the data joins it.
    let dr = with_crc(0, vec![1, 2, 3, 4], 4, vec![0xAA, 0xBB, 0xCC, 0xDD]);
    let text = emit_hex(&[dr], 16, OutputFormat::Hex).unwrap();
    assert_eq!(text, ":0800000001020304AABBCCDDE0\n:00000001FF");
    // A CRC apart from the data gets a record of its own.
    let dr = with_crc(0, vec![1, 2], 0x10, vec![0xAA, 0xBB, 0xCC, 0xDD]);
    let text = emit_hex(&[dr], 16, OutputFormat::Hex).unwrap();
    assert_eq!(text, ":020000000102FB\n:04001000AABBCCDDDE\n:00000001FF");
}

#[test]
fn several_blocks_go_into_one_file_in_address_order() {
    let text = emit_hex(
        &[range(0x20, vec![3, 4]), range(0x00, vec![1, 2])],
        16,
        OutputFormat::Hex,
    )
    .unwrap();
    assert_eq!(text, ":020000000102FB\n:020020000304D7\n:00000001FF");
}

#[test]
fn what_cannot_be_encoded_is_refused() {
    for width in [0usize, 129, 1000] {
        match emit_hex(&[range(0, vec![1])], width, OutputFormat::Hex) {
            Err(err @ OutputError::HexOutputError(HexFailure::RecordWidth)) => assert_eq!(
                err.message(),
                "Hex output error: Record width must be between 1 and 128."
            ),
            _ => panic!("expected a refused width"),
        }
    }
    assert!(emit_hex(&[range(0, vec![1])], 1, OutputFormat::Mot).is_ok());
    assert!(emit_hex(&[range(0, vec![1; 300])], 128, OutputFormat::Hex).is_ok());
    // Two blocks on the same bytes: the second is refused by the image.
    match emit_hex(
        &[range(0, vec![1, 2, 3, 4]), range(2, vec![9, 9])],
        16,
        OutputFormat::Hex,
    ) {
        Err(OutputError::HexOutputError(HexFailure::AddBytes(text))) => {
            assert!(!text.is_empty());
        }
        _ => panic!("expected refused bytes"),
    }
    // Nothing at all is an empty file.
    assert_eq!(emit_hex(&[], 16, OutputFormat::Hex).unwrap(), ":00000001FF");
}

#[test]
fn lines_are_joined_by_line_feeds() {
    assert_eq!(join_lines(&vec![]), "");
    assert_eq!(join_lines(&vec!["a".to_string()]), "a");
    assert_eq!(
        join_lines(&vec!["a".to_string(), String::new(), "b".to_string()]),
        "a\n\nb"
    );
}

#[test]
fn blocks_that_touch_are_written_as_one_run() {
    let apart = emit_hex(
        &[range(0, vec![1, 2]), range(2, vec![3, 4])],
        16,
        OutputFormat::Hex,
    )
    .unwrap();
    let whole = emit_hex(&[range(0, vec![1, 2, 3, 4])], 16, OutputFormat::Hex).unwrap();
    assert_eq!(apart, whole);
    // In whatever order they are given.
    let turned = emit_hex(
        &[range(2, vec![3, 4]), range(0, vec![1, 2])],
        16,
        OutputFormat::Mot,
    )
    .unwrap();
    assert_eq!(turned, "S107000001020304EE\nS5030001FB");
    // Blocks that lie apart stay apart, and are written by address.
    let text = emit_hex(
        &[range(0x20, vec![9]), range(0x10, vec![7]), range(0x11, vec![8])],
        16,
        OutputFormat::Hex,
    )
    .unwrap();
    assert_eq!(text, ":020010000708DF\n:0100200009D6\n:00000001FF");
    // Blocks that share an address are refused.
    let r = emit_hex(
        &[range(0, vec![1, 2]), range(1, vec![3])],
        16,
        OutputFormat::Hex,
    );
    assert!(matches!(
        r,
        Err(OutputError::HexOutputError(HexFailure::AddBytes(_)))
    ));
}
