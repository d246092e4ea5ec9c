use indexmap::IndexMap;
use mint_cli::commands::stats::BuildStats;
use mint_cli::commands::{
    block_file_text, build_bytestreams, collect_stats, collect_values, output_combined_file,
    output_separate_blocks, resolve_blocks, LoadedLayout,
};
use mint_cli::data::args::VersionArgs;
use mint_cli::data::excel::{Cell, Sheet, ExcelDataSource};
use mint_cli::error::MintError;
use mint_cli::layout::args::BlockNames;
use mint_cli::layout::block::{Block, Config, Entry};
use mint_cli::layout::entry::{
    BitmapField, BitmapFieldSource, EntrySource, LeafEntry, ScalarType, SizeKeys, SizeSource,
};
use mint_cli::layout::errors::LayoutError;
use mint_cli::layout::header::Header;
use mint_cli::layout::used_values::ExportValue;
use mint_cli::layout::settings::{CrcArea, CrcConfig, CrcLocation, Endianness, Settings};
use mint_cli::layout::value::{DataValue, ValueSource};
use mint_cli::output::args::OutputFormat;

fn leaf(scalar_type: ScalarType, size: Option<SizeSource>, source: EntrySource) -> Entry {
    Entry::Leaf(LeafEntry {
        scalar_type,
        size_keys: SizeKeys {
            size,
            strict_size: None,
        },
        source,
    })
}

fn value(scalar_type: ScalarType, value: DataValue) -> Entry {
    leaf(
        scalar_type,
        None,
        EntrySource::Value(ValueSource::Single(value)),
    )
}

fn values(scalar_type: ScalarType, count: usize, items: Vec<DataValue>) -> Entry {
    leaf(
        scalar_type,
        Some(SizeSource::OneD(count)),
        EntrySource::Value(ValueSource::Array(items)),
    )
}

fn text(count: usize, text: &str) -> Entry {
    leaf(
        ScalarType::U8,
        Some(SizeSource::OneD(count)),
        EntrySource::Value(ValueSource::Single(DataValue::Str(text.to_string()))),
    )
}

fn named(scalar_type: ScalarType, size: Option<SizeSource>, name: &str) -> Entry {
    leaf(scalar_type, size, EntrySource::Name(name.to_string()))
}

fn branch(entries: Vec<(&str, Entry)>) -> Entry {
    Entry::Branch(
        entries
            .into_iter()
            .map(|(name, entry)| (name.to_string(), entry))
            .collect(),
    )
}

fn crc32_at(word: &str) -> CrcConfig {
    CrcConfig {
        location: Some(CrcLocation::Keyword(word.to_string())),
        polynomial: Some(0x04C11DB7),
        start: Some(0xFFFF_FFFF),
        xor_out: Some(0xFFFF_FFFF),
        ref_in: Some(true),
        ref_out: Some(true),
        area: Some(CrcArea::Data),
    }
}

fn settings(endianness: Endianness, crc: Option<CrcConfig>) -> Settings {
    Settings {
        endianness,
        virtual_offset: 0,
        byte_swap: false,
        word_addressing: false,
        pad_to_end: false,
        crc,
    }
}

fn block(start_address: u32, length: u32, padding: u8, data: Entry) -> Block {
    Block {
        header: Header {
            start_address,
            length,
            crc: None,
            padding,
        },
        data,
    }
}

fn layout(file: &str, settings: Settings, blocks: Vec<(&str, Block)>) -> LoadedLayout {
    let mut map = IndexMap::new();
    for (name, block) in blocks {
        map.insert(name.to_string(), block);
    }
    LoadedLayout {
        file: file.to_string(),
        config: Config {
            settings,
            blocks: map,
        },
    }
}

/// A layout with a CRC at the end of the data: one block of literal values
/// and one that takes its values from a data source.
fn blocks_layout(file: &str) -> LoadedLayout {
    layout(
        file,
        settings(Endianness::Little, Some(crc32_at("end_data"))),
        vec![
            (
                "block",
                block(
                    0x8000,
                    0x100,
                    0xFF,
                    branch(vec![
                        (
                            "device",
                            branch(vec![
                                ("temperature", named(ScalarType::I16, None, "TemperatureMax")),
                                ("enabled", named(ScalarType::U8, None, "boolean")),
                            ]),
                        ),
                        (
                            "curve",
                            named(ScalarType::U16, Some(SizeSource::OneD(4)), "Curve"),
                        ),
                        (
                            "matrix",
                            named(ScalarType::U8, Some(SizeSource::TwoD([2, 2])), "Matrix"),
                        ),
                    ]),
                ),
            ),
            (
                "simple_block",
                block(
                    0x9000,
                    0x40,
                    0xFF,
                    branch(vec![
                        ("id", value(ScalarType::U32, DataValue::U64(0x1234))),
                        ("name", text(8, "Simple")),
                    ]),
                ),
            ),
        ],
    )
}

/// A layout without any CRC settings.
fn no_crc_layout(file: &str) -> LoadedLayout {
    layout(
        file,
        settings(Endianness::Little, None),
        vec![(
            "nocrc_block",
            block(
                0x1000,
                0x100,
                0xFF,
                branch(vec![("id", value(ScalarType::U32, DataValue::U64(0x1234)))]),
            ),
        )],
    )
}

fn data_source() -> ExcelDataSource {
    let cell = |t: &str| Cell::Text(t.to_string());
    ExcelDataSource {
        names: ["TemperatureMax", "boolean", "Curve", "Matrix"]
            .iter()
            .map(|n| n.to_string())
            .collect(),
        version_columns: vec![vec![
            Cell::Int(-40),
            Cell::Bool(true),
            cell("#Curve"),
            cell("#Matrix"),
        ]],
        sheets: vec![
            Sheet {
                name: "Curve".to_string(),
                rows: vec![
                    vec![cell("points")],
                    vec![Cell::Int(1)],
                    vec![Cell::Int(2)],
                    vec![Cell::Int(3)],
                ],
            },
            Sheet {
                name: "Matrix".to_string(),
                rows: vec![
                    vec![cell("a"), cell("b")],
                    vec![Cell::Int(1), Cell::Int(2)],
                    vec![Cell::Int(3), Cell::Int(4)],
                ],
            },
        ],
    }
}

fn request(name: &str, file: &str) -> BlockNames {
    BlockNames {
        name: name.to_string(),
        file: file.to_string(),
    }
}

/// Builds what is asked for and gives the statistics with the files'
/// names and texts.
fn build(
    layouts: &[LoadedLayout],
    requests: &[BlockNames],
    data_source: Option<&ExcelDataSource>,
    strict: bool,
    combined: bool,
    record_width: usize,
    format: OutputFormat,
) -> Result<(BuildStats, Vec<(String, String)>), MintError> {
    let blocks = resolve_blocks(requests, layouts).map_err(MintError::Layout)?;
    let built = build_bytestreams(&blocks, layouts, data_source, strict, false)?;
    if combined {
        let (stats, text) = output_combined_file(&built, layouts, record_width, format)?;
        Ok((stats, vec![("combined".to_string(), text)]))
    } else {
        output_separate_blocks(&built, record_width, format)
    }
}

fn hex(
    layouts: &[LoadedLayout],
    requests: &[BlockNames],
    data_source: Option<&ExcelDataSource>,
    combined: bool,
) -> Result<(BuildStats, Vec<(String, String)>), MintError> {
    build(layouts, requests, data_source, false, combined, 32, OutputFormat::Hex)
}

#[test]
fn test_file_expansion_with_combined() {
    let layout_path = "examples/block_no_excel.toml";
    let layouts = vec![layout(
        layout_path,
        settings(Endianness::Little, Some(crc32_at("end_data"))),
        vec![
            (
                "simple_block",
                block(0x1000, 0x40, 0xFF, branch(vec![("a", value(ScalarType::U8, DataValue::U64(1)))])),
            ),
            (
                "other_block",
                block(0x2000, 0x40, 0xFF, branch(vec![("b", value(ScalarType::U8, DataValue::U64(2)))])),
            ),
        ],
    )];

    let (stats, files) =
        hex(&layouts, &[request("", layout_path)], None, true).expect("build should succeed");

    assert_eq!(
        stats.blocks_processed,
        layouts[0].config.blocks.len(),
        "Should build all blocks in combined mode"
    );
    assert_eq!(files.len(), 1);
    assert_eq!(files[0].0, "combined");
    assert!(files[0].1.ends_with(":00000001FF"));
}

#[test]
fn test_build_without_crc_settings() {
    let layout_path = "tests/data/no_crc.toml";
    let layouts = vec![no_crc_layout(layout_path)];

    // Build should succeed without CRC settings
    let (stats, files) = hex(&layouts, &[request("nocrc_block", layout_path)], None, false)
        .expect("build should succeed without CRC");

    assert_eq!(stats.blocks_processed, 1);
    let block_stat = &stats.block_stats[0];
    assert_eq!(block_stat.name, "nocrc_block");
    assert!(
        block_stat.crc_value.is_none(),
        "CRC value should be None when CRC is disabled"
    );
    assert!(block_stat.used_size > 0);
    assert!(block_stat.allocated_size > 0);
    assert_eq!(block_stat.used_size, 4);
    assert_eq!(block_stat.allocated_size, 0x100);

    assert_eq!(files.len(), 1);
    assert_eq!(files[0].0, "nocrc_block");
    assert_eq!(files[0].1, ":0410000034120000A6\n:00000001FF");
}

#[test]
fn test_mixed_crc_and_no_crc_blocks() {
    // simple_block has CRC settings
    let layout_with_crc = "tests/data/blocks.toml";
    let layouts = vec![blocks_layout(layout_with_crc), no_crc_layout("tests/data/no_crc.toml")];

    let (stats_crc, _) = hex(&layouts, &[request("simple_block", layout_with_crc)], None, false)
        .expect("build with CRC should succeed");
    assert!(
        stats_crc.block_stats[0].crc_value.is_some(),
        "CRC value should be present"
    );

    // nocrc_block has no CRC settings
    let (stats_no_crc, _) = hex(
        &layouts,
        &[request("nocrc_block", "tests/data/no_crc.toml")],
        None,
        false,
    )
    .expect("build without CRC should succeed");
    assert!(
        stats_no_crc.block_stats[0].crc_value.is_none(),
        "CRC value should be None"
    );
}

#[test]
fn test_build_without_excel() {
    let layout_path = "tests/data/blocks.toml";
    let layouts = vec![blocks_layout(layout_path)];

    // simple_block has all inline values
    let (stats, files) = hex(&layouts, &[request("simple_block", layout_path)], None, false)
        .expect("build should succeed without Excel file");

    assert!(stats.blocks_processed > 0, "Should build at least one block");
    assert_eq!(files.len(), 1);
    assert_eq!(files[0].0, "simple_block");
}

#[test]
fn test_error_when_name_without_excel() {
    // A block that takes its values from names
    let layout_path = "tests/data/blocks.toml";
    let layouts = vec![blocks_layout(layout_path)];

    let result = hex(&layouts, &[request("block", layout_path)], None, false);
    assert!(
        result.is_err(),
        "Expected error when using 'name' without Excel file"
    );

    let err = result.unwrap_err();
    let err_str = err.message();
    assert!(
        err_str.contains("Missing datasheet")
            || err_str.contains("requires a value from a data source"),
        "Error should mention missing data source, got: {}",
        err_str
    );
    match err {
        MintError::InBlock {
            block_name,
            layout_file,
            source,
        } => {
            assert_eq!(block_name, "block");
            assert_eq!(layout_file, layout_path);
            match *source {
                MintError::Layout(LayoutError::InField { field, source }) => {
                    assert_eq!(field, "device");
                    match *source {
                        LayoutError::InField { field, source } => {
                            assert_eq!(field, "temperature");
                            assert!(matches!(*source, LayoutError::MissingDataSheet(_)));
                        }
                        other => panic!("unexpected error: {}", other.message()),
                    }
                }
                other => panic!("unexpected error: {}", other.message()),
            }
        }
        other => panic!("unexpected error: {}", other.message()),
    }
}

#[test]
fn test_factory_returns_none_without_xlsx() {
    // No source is selected when none is given
    let args_no_excel = VersionArgs::default();
    assert!(args_no_excel.into_data_args().source_kind().is_none());

    // With the older flag for the versions
    let args_variant_no_excel = VersionArgs {
        variant: Some("VarA".to_string()),
        ..Default::default()
    };
    assert!(args_variant_no_excel
        .into_data_args()
        .source_kind()
        .is_none());

    // With the version flag
    let args_version_no_excel = VersionArgs {
        version: Some("VarA".to_string()),
        ..Default::default()
    };
    assert!(args_version_no_excel
        .into_data_args()
        .source_kind()
        .is_none());
}

#[test]
fn test_block_stat_collection() {
    let layout_path = "tests/data/blocks.toml";
    let layouts = vec![blocks_layout(layout_path)];
    let ds = data_source();

    let (stats, files) = hex(&layouts, &[request("block", layout_path)], Some(&ds), false)
        .expect("build should succeed");

    assert_eq!(stats.blocks_processed, 1);
    let block_stat = &stats.block_stats[0];
    assert_eq!(block_stat.name, "block");
    assert!(block_stat.allocated_size > 0);
    assert!(block_stat.used_size > 0);
    assert!(block_stat.used_size <= block_stat.allocated_size);
    // i16, u8, four u16, four u8 and the CRC; the byte that aligns the
    // list is not counted.
    assert_eq!(block_stat.used_size, 2 + 1 + 8 + 4 + 4);
    assert_eq!(block_stat.allocated_size, 0x100);
    assert_eq!(block_stat.start_address, 0x8000);
    // -40, true, padding, 1 2 3 and a padded fourth, the table row by row
    assert!(files[0].1.starts_with(
        ":14800000D8FF01FF010002000300FFFF01020304"
    ));
}

#[test]
fn test_build_stats_aggregation() {
    let layout_path = "tests/data/blocks.toml";
    let layouts = vec![blocks_layout(layout_path)];
    let ds = data_source();

    let block_inputs: Vec<BlockNames> = layouts[0]
        .config
        .blocks
        .keys()
        .take(2)
        .map(|name| request(name, layout_path))
        .collect();

    let (stats, _) = hex(&layouts, &block_inputs, Some(&ds), true).expect("build should succeed");

    assert_eq!(stats.blocks_processed, block_inputs.len());
    assert!(stats.total_allocated > 0);
    assert!(stats.total_used > 0);
    assert!(stats.total_used <= stats.total_allocated);
    assert_eq!(stats.block_stats.len(), block_inputs.len());

    let manual_total_allocated: usize = stats
        .block_stats
        .iter()
        .map(|b| b.allocated_size as usize)
        .sum();
    let manual_total_used: usize = stats.block_stats.iter().map(|b| b.used_size as usize).sum();

    assert_eq!(stats.total_allocated, manual_total_allocated);
    assert_eq!(stats.total_used, manual_total_used);
    assert_eq!(stats.total_allocated, 0x140);
    assert_eq!(stats.total_used, 19 + 16);
}

#[test]
fn test_combined_mode_stats() {
    let layout_path = "tests/data/blocks.toml";
    let layouts = vec![blocks_layout(layout_path)];
    let ds = data_source();

    let block_inputs: Vec<BlockNames> = layouts[0]
        .config
        .blocks
        .keys()
        .map(|name| request(name, layout_path))
        .collect();

    let (stats, _) = hex(&layouts, &block_inputs, Some(&ds), true).expect("build should succeed");

    assert_eq!(stats.blocks_processed, block_inputs.len());

    for block_stat in &stats.block_stats {
        assert!(block_stat.allocated_size > 0);
        assert!(block_stat.used_size > 0);
        assert!(block_stat.used_size <= block_stat.allocated_size);
    }
}

#[test]
fn mixed_feature_matrix() {
    let u = DataValue::U64;
    let be_path = "mixed_be";
    let le_path = "mixed_le";
    let layouts = vec![
        layout(
            be_path,
            settings(Endianness::Big, None),
            vec![(
                "block",
                block(
                    0x10000,
                    0x80,
                    0xAA,
                    branch(vec![
                        (
                            "nums",
                            branch(vec![(
                                "u16_be",
                                values(ScalarType::U16, 4, vec![u(1), u(2), u(3), u(4)]),
                            )]),
                        ),
                        ("txt", branch(vec![("ascii", text(8, "HELLO"))])),
                        (
                            "single",
                            branch(vec![("i32", value(ScalarType::I32, DataValue::I64(42)))]),
                        ),
                    ]),
                ),
            )],
        ),
        layout(
            le_path,
            settings(Endianness::Little, None),
            vec![(
                "block",
                block(
                    0x90000,
                    0x40,
                    0x00,
                    branch(vec![
                        (
                            "arr",
                            branch(vec![(
                                "f32",
                                values(
                                    ScalarType::F32,
                                    2,
                                    vec![
                                        DataValue::F64(1.0f64.to_bits()),
                                        DataValue::F64(2.5f64.to_bits()),
                                    ],
                                ),
                            )]),
                        ),
                        (
                            "arr2",
                            branch(vec![(
                                "i16",
                                values(
                                    ScalarType::I16,
                                    4,
                                    vec![
                                        DataValue::I64(10),
                                        DataValue::I64(-20),
                                        DataValue::I64(30),
                                        DataValue::I64(-40),
                                    ],
                                ),
                            )]),
                        ),
                    ]),
                ),
            )],
        ),
    ];
    let ds = data_source();

    let mut be = Vec::new();
    for v in [1u16, 2, 3, 4] {
        be.extend_from_slice(&v.to_be_bytes());
    }
    be.extend_from_slice(b"HELLO\xAA\xAA\xAA");
    be.extend_from_slice(&42i32.to_be_bytes());
    let mut le = Vec::new();
    for v in [1.0f32, 2.5] {
        le.extend_from_slice(&v.to_le_bytes());
    }
    for v in [10i16, -20, 30, -40] {
        le.extend_from_slice(&v.to_le_bytes());
    }
    let digits = |bytes: &[u8]| -> String { bytes.iter().map(|b| format!("{:02X}", b)).collect() };

    // Big endian, HEX with width 64
    let (_, files) = build(
        &layouts,
        &[request("block", be_path)],
        Some(&ds),
        false,
        false,
        64,
        OutputFormat::Hex,
    )
    .expect("be-hex");
    assert_eq!(files[0].0, "block");
    let lines: Vec<&str> = files[0].1.lines().collect();
    assert_eq!(lines[0], ":020000040001F9");
    assert_eq!(lines[1][..9], *":14000000");
    assert_eq!(lines[1][9..9 + 40], digits(&be));
    assert_eq!(lines[2], ":00000001FF");

    // Big endian, MOT with width 16
    let (_, files) = build(
        &layouts,
        &[request("block", be_path)],
        Some(&ds),
        false,
        false,
        16,
        OutputFormat::Mot,
    )
    .expect("be-mot");
    let lines: Vec<&str> = files[0].1.lines().collect();
    assert_eq!(lines[0][..2], *"S2");
    assert_eq!(lines[0][4..10], *"010000");
    assert_eq!(lines[0][10..10 + 32], digits(&be[..16]));
    assert_eq!(lines[1][4..10], *"010010");
    assert_eq!(lines[1][10..10 + 8], digits(&be[16..]));

    // Little endian, HEX width 16, strict
    let (_, files) = build(
        &layouts,
        &[request("block", le_path)],
        Some(&ds),
        true,
        false,
        16,
        OutputFormat::Hex,
    )
    .expect("le-hex");
    let lines: Vec<&str> = files[0].1.lines().collect();
    assert_eq!(lines[0], ":020000040009F1");
    assert_eq!(lines[1][..9], *":10000000");
    assert_eq!(lines[1][9..9 + 32], digits(&le));

    // Little endian, MOT width 64, strict
    let (stats, files) = build(
        &layouts,
        &[request("block", le_path)],
        Some(&ds),
        true,
        false,
        64,
        OutputFormat::Mot,
    )
    .expect("le-mot");
    let lines: Vec<&str> = files[0].1.lines().collect();
    assert_eq!(lines[0][..2], *"S2");
    assert_eq!(lines[0][4..10], *"090000");
    assert_eq!(lines[0][10..10 + 32], digits(&le));
    assert_eq!(stats.block_stats[0].used_size, 16);
    assert!(stats.block_stats[0].crc_value.is_none());
}

#[test]
fn one_block_gives_the_same_text_alone_and_among_others() {
    let layout_path = "tests/data/blocks.toml";
    let layouts = vec![blocks_layout(layout_path)];
    let blocks = resolve_blocks(&[request("", layout_path)], &layouts).unwrap();
    let ds = data_source();
    let built = build_bytestreams(&blocks, &layouts, Some(&ds), false, false).unwrap();
    let (stats, files) = output_separate_blocks(&built, 32, OutputFormat::Hex).unwrap();
    assert_eq!(files.len(), built.len());
    for (result, (name, text)) in built.iter().zip(&files) {
        assert_eq!(*name, result.block_names.name);
        assert_eq!(*text, block_file_text(result, 32, OutputFormat::Hex).unwrap());
    }
    let collected = collect_stats(&built);
    assert_eq!(stats.total_used, collected.total_used);
    assert_eq!(stats.total_allocated, collected.total_allocated);
}

#[test]
fn the_report_holds_the_values_of_each_block_under_its_name() {
    let layout_path = "tests/data/blocks.toml";
    let layouts = vec![blocks_layout(layout_path)];
    let blocks = resolve_blocks(&[request("", layout_path)], &layouts).unwrap();
    let ds = data_source();

    let built = build_bytestreams(&blocks, &layouts, Some(&ds), false, true).unwrap();
    let ExportValue::Group(report) = collect_values(&built) else {
        panic!("expected a group");
    };
    assert_eq!(report.len(), 2);
    assert_eq!(report[0].0, "block");
    assert_eq!(report[1].0, "simple_block");
    let ExportValue::Group(simple) = &report[1].1 else {
        panic!("expected a group");
    };
    assert_eq!(simple.len(), 2);
    assert!(matches!(&simple[0], (name, ExportValue::PosInt(0x1234)) if name == "id"));
    assert!(matches!(&simple[1], (name, ExportValue::Text(text)) if name == "name" && text == "Simple"));
    let ExportValue::Group(block) = &report[0].1 else {
        panic!("expected a group");
    };
    assert_eq!(block.len(), 3);
    let ExportValue::Group(device) = &block[0].1 else {
        panic!("expected a group");
    };
    assert!(matches!(&device[0], (name, ExportValue::NegInt(-40)) if name == "temperature"));
    assert!(matches!(&device[1], (name, ExportValue::PosInt(1)) if name == "enabled"));
    let ExportValue::List(curve) = &block[1].1 else {
        panic!("expected a list");
    };
    assert!(matches!(
        curve[..],
        [ExportValue::PosInt(1), ExportValue::PosInt(2), ExportValue::PosInt(3)]
    ));

    // Without capturing, nothing is reported.
    let built = build_bytestreams(&blocks, &layouts, Some(&ds), false, false).unwrap();
    assert!(matches!(collect_values(&built), ExportValue::Group(report) if report.is_empty()));
    assert!(matches!(collect_values(&[]), ExportValue::Group(report) if report.is_empty()));
}

#[test]
fn a_bitmap_field_takes_its_value_from_its_name_or_as_written() {
    let ds = data_source();
    let written = BitmapField {
        bits: 3,
        source: BitmapFieldSource::Value(DataValue::U64(5)),
    };
    assert!(matches!(written.resolve_value(Some(&ds)), Ok(DataValue::U64(5))));
    assert!(matches!(
        written.resolve_value(None::<&ExcelDataSource>),
        Ok(DataValue::U64(5))
    ));
    let looked_up = BitmapField {
        bits: 3,
        source: BitmapFieldSource::Name("TemperatureMax".to_string()),
    };
    assert!(matches!(
        looked_up.resolve_value(Some(&ds)),
        Ok(DataValue::I64(-40))
    ));
    match looked_up.resolve_value(None::<&ExcelDataSource>) {
        Err(err @ LayoutError::MissingDataSheet(_)) => {
            assert!(err.message().contains("TemperatureMax"), "{}", err.message())
        }
        _ => panic!("expected a missing data source"),
    }
    let unknown = BitmapField {
        bits: 3,
        source: BitmapFieldSource::Name("Unknown".to_string()),
    };
    assert!(matches!(
        unknown.resolve_value(Some(&ds)),
        Err(LayoutError::Data(_))
    ));
}
