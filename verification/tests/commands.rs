use indexmap::IndexMap;
use mint_cli::commands::stats::{BlockStat, BuildStats};
use mint_cli::commands::{
    block_span, build_bytestreams, build_fetched_blocks, build_single_bytestream, check_overlaps,
    collect_results, collect_stats, distinct_files, expand_requests, extract_crc_value,
    fetch_blocks,
    find_layout, find_overlaps, output_combined_file, output_separate_blocks, resolve_blocks,
    BlockBuildResult, LoadedLayout,
};
use mint_cli::data::errors::DataError;
use mint_cli::data::DataSource;
use mint_cli::error::MintError;
use mint_cli::layout::args::{BlockNames, BlockSpecifier, LayoutArgs};
use mint_cli::layout::block::{Block, Config, Entry};
use mint_cli::layout::entry::{EntrySource, LeafEntry, ScalarType, SizeKeys, SizeSource};
use mint_cli::layout::errors::{BlockArgumentFailure, LayoutError};
use mint_cli::layout::header::Header;
use mint_cli::layout::settings::{CrcArea, CrcConfig, CrcLocation, Endianness, Settings};
use mint_cli::layout::used_values::ExportValue;
use mint_cli::layout::value::{DataValue, ValueSource};
use mint_cli::output::args::OutputFormat;
use mint_cli::output::checksum::calculate_crc;
use mint_cli::output::errors::{HexFailure, OutputError};

/// A data source that counts nothing and knows one name.
struct OneName;

impl DataSource for OneName {
    fn retrieve_single_value(&self, name: &str) -> Result<DataValue, DataError> {
        if name == "Serial" {
            Ok(DataValue::U64(0xCAFE))
        } else {
            Err(DataError::RetrievalError(name.to_string()))
        }
    }

    fn retrieve_1d_array_or_string(&self, name: &str) -> Result<ValueSource, DataError> {
        Err(DataError::RetrievalError(name.to_string()))
    }

    fn retrieve_2d_array(&self, name: &str) -> Result<Vec<Vec<DataValue>>, DataError> {
        Err(DataError::RetrievalError(name.to_string()))
    }
}

fn crc32() -> CrcConfig {
    CrcConfig {
        location: None,
        polynomial: Some(0x04C11DB7),
        start: Some(0xFFFF_FFFF),
        xor_out: Some(0xFFFF_FFFF),
        ref_in: Some(true),
        ref_out: Some(true),
        area: Some(CrcArea::Data),
    }
}

fn crc_at(word: &str) -> CrcConfig {
    CrcConfig {
        location: Some(CrcLocation::Keyword(word.to_string())),
        polynomial: None,
        start: None,
        xor_out: None,
        ref_in: None,
        ref_out: None,
        area: None,
    }
}

fn settings(crc: Option<CrcConfig>) -> Settings {
    Settings {
        endianness: Endianness::Little,
        virtual_offset: 0,
        byte_swap: false,
        word_addressing: false,
        pad_to_end: false,
        crc,
    }
}

fn scalar(scalar_type: ScalarType, value: DataValue) -> Entry {
    Entry::Leaf(LeafEntry {
        scalar_type,
        size_keys: SizeKeys {
            size: None,
            strict_size: None,
        },
        source: EntrySource::Value(ValueSource::Single(value)),
    })
}

fn u32_block(start_address: u32, padding: u8, crc: Option<CrcConfig>, value: u64) -> Block {
    Block {
        header: Header {
            start_address,
            length: 0x100,
            crc,
            padding,
        },
        data: Entry::Branch(vec![(
            "value".to_string(),
            scalar(ScalarType::U32, DataValue::U64(value)),
        )]),
    }
}

fn layout(file: &str, settings: Settings, blocks: Vec<(&str, Block)>) -> LoadedLayout {
    let mut map = IndexMap::new();
    for (name, block) in blocks {
        map.insert(name.to_string(), block);
    }
    LoadedLayout {
        file: file.to_string(),
        config: Config {
            settings,
            blocks: map,
        },
    }
}

fn request(name: &str, file: &str) -> BlockNames {
    BlockNames {
        name: name.to_string(),
        file: file.to_string(),
    }
}

fn pairs(blocks: &[BlockNames]) -> Vec<(&str, &str)> {
    blocks
        .iter()
        .map(|b| (b.name.as_str(), b.file.as_str()))
        .collect()
}

fn three_blocks(file: &str) -> LoadedLayout {
    layout(
        file,
        settings(Some(crc32())),
        vec![
            ("block", u32_block(0x1000, 0xFF, Some(crc_at("end_data")), 1)),
            ("block2", u32_block(0x2000, 0xFF, Some(crc_at("end_data")), 2)),
            ("block3", u32_block(0x3000, 0xFF, None, 3)),
        ],
    )
}

fn build_one(layouts: &[LoadedLayout], name: &str, file: &str) -> Result<BlockBuildResult, MintError> {
    build_single_bytestream(&request(name, file), layouts, None::<&OneName>, false, false)
}

fn build_stats(layouts: &[LoadedLayout], requests: &[BlockNames]) -> Result<BuildStats, MintError> {
    let blocks = resolve_blocks(requests, layouts).map_err(MintError::Layout)?;
    let built = build_bytestreams(&blocks, layouts, None::<&OneName>, false, false)?;
    Ok(collect_stats(&built))
}

#[test]
fn resolves_mixed_specifiers_in_order() {
    let layout_path = "examples/block.toml".to_string();
    let layouts = vec![three_blocks(&layout_path)];
    let mut args = LayoutArgs {
        specifiers: vec![
            BlockSpecifier::Specific(BlockNames {
                name: "block2".to_string(),
                file: layout_path.clone(),
            }),
            BlockSpecifier::All(layout_path.clone()),
        ],
        blocks: Vec::new(),
        strict: false,
    };

    let resolved = args
        .resolve_blocks(&layouts)
        .expect("should resolve specifiers");

    let names: Vec<_> = resolved.iter().map(|b| b.name.as_str()).collect();
    assert_eq!(names, vec!["block2", "block", "block2", "block3"]);

    // Second call uses cached result
    let resolved_again = args
        .resolve_blocks(&layouts)
        .expect("should reuse resolved blocks");
    assert_eq!(resolved_again.len(), 4);
}

#[test]
fn errors_when_layout_contains_no_blocks() {
    let layout_path = "empty.toml".to_string();
    let layouts = vec![layout(&layout_path, settings(Some(crc32())), vec![])];

    let mut args = LayoutArgs {
        specifiers: vec![BlockSpecifier::All(layout_path.clone())],
        blocks: Vec::new(),
        strict: false,
    };

    let err = args
        .resolve_blocks(&layouts)
        .expect_err("should error on empty layout");

    match err {
        LayoutError::NoBlocksInLayout(path) => assert_eq!(path, layout_path),
        other => panic!("unexpected error: {}", other.message()),
    }
    assert!(args.blocks.is_empty());
}

#[test]
fn requests_are_resolved_in_order_and_once() {
    let layout_path = "examples/block.toml".to_string();
    let layouts = vec![three_blocks(&layout_path)];
    let requests = vec![request("block2", &layout_path), request("", &layout_path)];

    let resolved = resolve_blocks(&requests, &layouts).expect("should resolve requests");

    // The block that is named first stays first; the file adds the others.
    let names: Vec<_> = resolved.iter().map(|b| b.name.as_str()).collect();
    assert_eq!(names, vec!["block2", "block", "block3"]);
    assert!(resolved.iter().all(|b| b.file == layout_path));

    // Before the blocks are taken once, every request stands for its own.
    let expanded = expand_requests(&requests, &layouts).expect("should expand requests");
    assert_eq!(
        pairs(&expanded),
        vec![
            ("block2", layout_path.as_str()),
            ("block", layout_path.as_str()),
            ("block2", layout_path.as_str()),
            ("block3", layout_path.as_str())
        ]
    );
    assert!(expand_requests(&[], &layouts).unwrap().is_empty());

    let err = resolve_blocks(
        &[request("", "empty.toml")],
        &[layout("empty.toml", settings(None), vec![])],
    )
    .expect_err("should error on empty layout");
    assert!(matches!(err, LayoutError::NoBlocksInLayout(path) if path == "empty.toml"));
}

#[test]
fn block_references_are_resolved_against_the_layouts_that_were_read() {
    let layouts = vec![three_blocks("a.toml"), three_blocks("b.toml")];
    let specifiers = vec![
        BlockSpecifier::All("b.toml".to_string()),
        BlockSpecifier::Specific(BlockNames {
            name: "unknown".to_string(),
            file: "c.toml".to_string(),
        }),
        BlockSpecifier::All("a.toml".to_string()),
    ];
    // What the references ask for, before any layout is read.
    assert_eq!(
        pairs(&LayoutArgs::requests(&specifiers)),
        vec![("", "b.toml"), ("unknown", "c.toml"), ("", "a.toml")]
    );
    assert_eq!(
        distinct_files(&LayoutArgs::requests(&specifiers)),
        vec!["b.toml", "c.toml", "a.toml"]
    );
    // A block that is named is taken as it is; whether it is there shows
    // when it is built.
    let expanded = LayoutArgs::expand_specifiers(&specifiers, &layouts).unwrap();
    assert_eq!(
        pairs(&expanded),
        vec![
            ("block", "b.toml"),
            ("block2", "b.toml"),
            ("block3", "b.toml"),
            ("unknown", "c.toml"),
            ("block", "a.toml"),
            ("block2", "a.toml"),
            ("block3", "a.toml"),
        ]
    );
    // A file that was not read is refused.
    let missing = vec![BlockSpecifier::All("c.toml".to_string())];
    assert!(matches!(
        LayoutArgs::expand_specifiers(&missing, &layouts),
        Err(LayoutError::FileError(file)) if file == "c.toml"
    ));
    // No reference at all is refused, and what is there is not resolved again.
    let mut none = LayoutArgs {
        specifiers: Vec::new(),
        blocks: Vec::new(),
        strict: true,
    };
    assert!(matches!(
        none.resolve_blocks(&layouts),
        Err(LayoutError::NoBlocksProvided)
    ));
    none.blocks.push(request("kept", "d.toml"));
    none.specifiers = missing;
    assert_eq!(pairs(none.resolve_blocks(&layouts).unwrap()), vec![("kept", "d.toml")]);
}

#[test]
fn test_file_expands_all_blocks() {
    let layouts = vec![three_blocks("examples/block_no_excel.toml")];
    let stats = build_stats(&layouts, &[request("", "examples/block_no_excel.toml")])
        .expect("build should succeed");
    assert_eq!(
        stats.blocks_processed,
        layouts[0].config.blocks.len(),
        "Should build all blocks in the file"
    );
    let names: Vec<_> = stats.block_stats.iter().map(|s| s.name.as_str()).collect();
    assert_eq!(names, vec!["block", "block2", "block3"]);
}

#[test]
fn test_deduplication_file_and_specific() {
    let layout_path = "examples/block_no_excel.toml";
    let layouts = vec![layout(
        layout_path,
        settings(Some(crc32())),
        vec![
            ("simple_block", u32_block(0x1000, 0xFF, None, 1)),
            ("other_block", u32_block(0x2000, 0xFF, None, 2)),
        ],
    )];
    let requests = vec![request("", layout_path), request("simple_block", layout_path)];

    let stats = build_stats(&layouts, &requests).expect("build should succeed");

    assert_eq!(
        stats.blocks_processed,
        layouts[0].config.blocks.len(),
        "Should deduplicate and only build each block once"
    );
}

#[test]
fn the_same_block_twice_is_built_once() {
    let layouts = vec![three_blocks("a.toml"), three_blocks("b.toml")];
    let requests = vec![
        request("block2", "a.toml"),
        request("block2", "b.toml"),
        request("block2", "a.toml"),
        request("block", "a.toml"),
        request("", "a.toml"),
        request("", "b.toml"),
        request("block3", "b.toml"),
    ];
    let resolved = resolve_blocks(&requests, &layouts).unwrap();
    assert_eq!(
        pairs(&resolved),
        vec![
            ("block2", "a.toml"),
            ("block2", "b.toml"),
            ("block", "a.toml"),
            ("block3", "a.toml"),
            ("block", "b.toml"),
            ("block3", "b.toml"),
        ]
    );
    assert_eq!(distinct_files(&requests), vec!["a.toml", "b.toml"]);
    assert!(distinct_files(&[]).is_empty());
}

#[test]
fn requests_that_cannot_be_resolved_are_refused() {
    let layouts = vec![three_blocks("a.toml")];
    assert!(matches!(
        resolve_blocks(&[], &layouts),
        Err(LayoutError::NoBlocksProvided)
    ));
    match resolve_blocks(&[request("block", "a.toml"), request("", "missing.toml")], &layouts) {
        Err(LayoutError::FileError(file)) => assert_eq!(file, "missing.toml"),
        _ => panic!("expected a file error"),
    }
    // A named block is taken as it is; whether it is there shows at the build.
    let resolved = resolve_blocks(&[request("nowhere", "missing.toml")], &layouts).unwrap();
    assert_eq!(pairs(&resolved), vec![("nowhere", "missing.toml")]);
    assert!(find_layout(&layouts, &"a.toml".to_string()).is_some());
    assert!(find_layout(&layouts, &"b.toml".to_string()).is_none());
}

#[test]
fn a_block_that_is_not_there_fails_with_its_name_and_file() {
    let layouts = vec![three_blocks("a.toml")];
    match build_one(&layouts, "nowhere", "a.toml") {
        Err(MintError::InBlock {
            block_name,
            layout_file,
            source,
        }) => {
            assert_eq!(block_name, "nowhere");
            assert_eq!(layout_file, "a.toml");
            assert!(matches!(
                *source,
                MintError::Layout(LayoutError::BlockNotFound(ref n)) if n == "nowhere"
            ));
        }
        _ => panic!("expected an error in the block"),
    }
    let err = build_one(&layouts, "block", "b.toml").unwrap_err();
    assert_eq!(
        err.message(),
        "While building block 'block' from 'b.toml': File error: b.toml."
    );
}

#[test]
fn crc_location_variations() {
    let layout_path = "crc_locations";
    let mut absolute = crc_at("end_data");
    absolute.location = Some(CrcLocation::Address(0x30F0));
    let layouts = vec![layout(
        layout_path,
        settings(Some(crc32())),
        vec![
            (
                "block_end_data",
                Block {
                    header: Header {
                        start_address: 0x1000,
                        length: 0x100,
                        crc: Some(crc_at("end_data")),
                        padding: 0xFF,
                    },
                    data: Entry::Branch(vec![
                        (
                            "value1".to_string(),
                            scalar(ScalarType::U32, DataValue::U64(0x12345678)),
                        ),
                        (
                            "value2".to_string(),
                            Entry::Leaf(LeafEntry {
                                scalar_type: ScalarType::U8,
                                size_keys: SizeKeys {
                                    size: Some(SizeSource::OneD(8)),
                                    strict_size: None,
                                },
                                source: EntrySource::Value(ValueSource::Single(DataValue::Str(
                                    "test".to_string(),
                                ))),
                            }),
                        ),
                    ]),
                },
            ),
            (
                "block_end_block",
                Block {
                    header: Header {
                        start_address: 0x2000,
                        length: 0x100,
                        crc: Some(crc_at("end_block")),
                        padding: 0xAA,
                    },
                    data: Entry::Branch(vec![
                        (
                            "value1".to_string(),
                            scalar(ScalarType::U32, DataValue::U64(0xDEADBEEF)),
                        ),
                        (
                            "value2".to_string(),
                            Entry::Leaf(LeafEntry {
                                scalar_type: ScalarType::U8,
                                size_keys: SizeKeys {
                                    size: Some(SizeSource::OneD(4)),
                                    strict_size: None,
                                },
                                source: EntrySource::Value(ValueSource::Array(vec![
                                    DataValue::U64(1),
                                    DataValue::U64(2),
                                    DataValue::U64(3),
                                    DataValue::U64(4),
                                ])),
                            }),
                        ),
                    ]),
                },
            ),
            (
                "block_absolute",
                Block {
                    header: Header {
                        start_address: 0x3000,
                        length: 0x100,
                        crc: Some(absolute),
                        padding: 0x00,
                    },
                    data: Entry::Branch(vec![
                        (
                            "value1".to_string(),
                            scalar(ScalarType::U32, DataValue::U64(0xCAFEBABE)),
                        ),
                        (
                            "value2".to_string(),
                            scalar(ScalarType::F32, DataValue::F64(3.14159f64.to_bits())),
                        ),
                    ]),
                },
            ),
            ("block_no_crc", u32_block(0x4000, 0xFF, None, 0x11223344)),
        ],
    )];

    let stats = build_stats(&layouts, &[request("block_end_data", layout_path)])
        .expect("block_end_data build");
    assert!(
        stats.block_stats[0].crc_value.is_some(),
        "end_data should have CRC"
    );
    let mut data = 0x12345678u32.to_le_bytes().to_vec();
    data.extend(b"test");
    data.extend([0xFF; 4]);
    assert_eq!(stats.block_stats[0].crc_value, Some(calculate_crc(&data, &crc32())));

    let stats = build_stats(&layouts, &[request("block_end_block", layout_path)])
        .expect("block_end_block build");
    assert!(
        stats.block_stats[0].crc_value.is_some(),
        "end_block should have CRC"
    );

    let stats = build_stats(&layouts, &[request("block_absolute", layout_path)])
        .expect("block_absolute build");
    assert!(
        stats.block_stats[0].crc_value.is_some(),
        "absolute should have CRC"
    );

    let stats = build_stats(&layouts, &[request("block_no_crc", layout_path)])
        .expect("block_no_crc build");
    assert!(
        stats.block_stats[0].crc_value.is_none(),
        "no_crc should not have CRC"
    );
}

#[test]
fn crc_per_header_overrides() {
    let layout_path = "crc_overrides";
    let mut shared = crc32();
    shared.location = Some(CrcLocation::Keyword("end_data".to_string()));
    let mut crc32c = crc_at("end_data");
    crc32c.polynomial = Some(0x1EDC6F41);
    let mut mpeg2 = crc_at("end_data");
    mpeg2.xor_out = Some(0);
    mpeg2.ref_in = Some(false);
    mpeg2.ref_out = Some(false);
    let full = CrcConfig {
        location: Some(CrcLocation::Keyword("end_block".to_string())),
        polynomial: Some(0x04C11DB7),
        start: Some(0),
        xor_out: Some(0),
        ref_in: Some(false),
        ref_out: Some(false),
        area: Some(CrcArea::Data),
    };
    let layouts = vec![layout(
        layout_path,
        settings(Some(shared)),
        vec![
            ("block_default", u32_block(0x5000, 0xFF, Some(crc_at("end_data")), 0x12345678)),
            ("block_crc32c", u32_block(0x6000, 0xFF, Some(crc32c), 0x12345678)),
            ("block_mpeg2", u32_block(0x7000, 0xFF, Some(mpeg2), 0x12345678)),
            ("block_full_override", u32_block(0x8000, 0xFF, Some(full), 0x12345678)),
        ],
    )];

    // Build all blocks and verify they produce different CRC values for same data
    let blocks = [
        "block_default",
        "block_crc32c",
        "block_mpeg2",
        "block_full_override",
    ];
    let mut crc_values = Vec::new();

    for block_name in blocks {
        let stats = build_stats(&layouts, &[request(block_name, layout_path)])
            .unwrap_or_else(|_| panic!("{} build", block_name));
        let crc = stats.block_stats[0]
            .crc_value
            .unwrap_or_else(|| panic!("{} should have CRC", block_name));
        crc_values.push((block_name, crc));
    }

    // Verify that different CRC settings produce different values
    assert_ne!(
        crc_values[0].1, crc_values[1].1,
        "default vs crc32c should differ"
    );
    assert_ne!(
        crc_values[0].1, crc_values[2].1,
        "default vs mpeg2 should differ"
    );
    assert_ne!(
        crc_values[0].1, crc_values[3].1,
        "default vs full_override should differ"
    );
}

#[test]
fn crc_area_modes() {
    let layout_path = "crc_areas";
    let area = |a: CrcArea| {
        let mut c = crc_at("end_data");
        c.area = Some(a);
        Some(c)
    };
    let layouts = vec![layout(
        layout_path,
        settings(Some(crc32())),
        vec![
            ("block_data", u32_block(0x9000, 0xFF, area(CrcArea::Data), 0xAABBCCDD)),
            ("block_zero_crc", u32_block(0xA000, 0xFF, area(CrcArea::BlockZeroCrc), 0xAABBCCDD)),
            ("block_pad_crc", u32_block(0xB000, 0xFF, area(CrcArea::BlockPadCrc), 0xAABBCCDD)),
            ("block_omit_crc", u32_block(0xC000, 0xFF, area(CrcArea::BlockOmitCrc), 0xAABBCCDD)),
        ],
    )];

    let blocks = [
        "block_data",
        "block_zero_crc",
        "block_pad_crc",
        "block_omit_crc",
    ];
    let mut crc_values = Vec::new();

    for block_name in blocks {
        let stats = build_stats(&layouts, &[request(block_name, layout_path)])
            .unwrap_or_else(|_| panic!("{} build", block_name));
        let crc = stats.block_stats[0]
            .crc_value
            .unwrap_or_else(|| panic!("{} should have CRC", block_name));
        crc_values.push((block_name, crc));
    }

    // Different area modes should produce different CRC values
    // (because they include different data in the calculation)
    assert_ne!(
        crc_values[0].1, crc_values[1].1,
        "data vs block_zero_crc should differ"
    );
    assert_ne!(
        crc_values[1].1, crc_values[2].1,
        "block_zero_crc vs block_pad_crc should differ"
    );
}

#[test]
fn crc_settings_location_inheritance() {
    let layout_path = "crc_inherit";
    let mut shared = crc32();
    shared.location = Some(CrcLocation::Keyword("end_data".to_string()));
    let layouts = vec![layout(
        layout_path,
        settings(Some(shared)),
        vec![("block_inherit", u32_block(0xD000, 0xFF, None, 0x55667788))],
    )];

    let stats =
        build_stats(&layouts, &[request("block_inherit", layout_path)]).expect("block_inherit build");
    assert!(
        stats.block_stats[0].crc_value.is_some(),
        "inherited CRC should be computed"
    );
    assert_eq!(
        stats.block_stats[0].crc_value,
        Some(calculate_crc(&0x55667788u32.to_le_bytes(), &crc32()))
    );
}

#[test]
fn crc_combined_output() {
    let layout_path = "crc_combined";
    let mut other = crc_at("end_block");
    other.polynomial = Some(0x1EDC6F41);
    let layouts = vec![layout(
        layout_path,
        settings(Some(crc32())),
        vec![
            ("block_a", u32_block(0x10000, 0xFF, Some(crc_at("end_data")), 0x11111111)),
            ("block_b", u32_block(0x11000, 0xAA, Some(other), 0x22222222)),
            ("block_c", u32_block(0x12000, 0x00, None, 0x33333333)),
        ],
    )];
    let blocks = vec![
        request("block_a", layout_path),
        request("block_b", layout_path),
        request("block_c", layout_path),
    ];

    let built = build_bytestreams(&blocks, &layouts, None::<&OneName>, false, false)
        .expect("combined build");
    let (stats, text) =
        output_combined_file(&built, &layouts, 32, OutputFormat::Hex).expect("combined build");
    assert_eq!(stats.blocks_processed, 3);

    // block_a and block_b have CRC, block_c does not
    assert!(stats
        .block_stats
        .iter()
        .find(|b| b.name == "block_a")
        .unwrap()
        .crc_value
        .is_some());
    assert!(stats
        .block_stats
        .iter()
        .find(|b| b.name == "block_b")
        .unwrap()
        .crc_value
        .is_some());
    assert!(stats
        .block_stats
        .iter()
        .find(|b| b.name == "block_c")
        .unwrap()
        .crc_value
        .is_none());

    // The file holds all three blocks.
    assert!(text.contains("11111111"));
    assert!(text.contains("22222222"));
    assert!(text.contains("33333333"));
    assert!(text.ends_with(":00000001FF"));
}

#[test]
fn test_crc_location_none_returns_none_crc_value() {
    let layout_path = "test_no_crc";
    let layouts = vec![layout(
        layout_path,
        settings(None),
        vec![(
            "block_no_crc",
            Block {
                header: Header {
                    start_address: 0x1000,
                    length: 0x100,
                    crc: Some(crc_at("none")),
                    padding: 0xFF,
                },
                data: Entry::Branch(vec![(
                    "device".to_string(),
                    Entry::Branch(vec![
                        (
                            "id".to_string(),
                            scalar(ScalarType::U32, DataValue::U64(0x1234)),
                        ),
                        (
                            "name".to_string(),
                            Entry::Leaf(LeafEntry {
                                scalar_type: ScalarType::U8,
                                size_keys: SizeKeys {
                                    size: Some(SizeSource::OneD(16)),
                                    strict_size: None,
                                },
                                source: EntrySource::Value(ValueSource::Single(DataValue::Str(
                                    "TestDevice".to_string(),
                                ))),
                            }),
                        ),
                    ]),
                )]),
            },
        )],
    )];

    let stats =
        build_stats(&layouts, &[request("block_no_crc", layout_path)]).expect("build should succeed");

    assert_eq!(stats.blocks_processed, 1);
    let block_stat = &stats.block_stats[0];
    assert_eq!(block_stat.name, "block_no_crc");
    assert!(
        block_stat.crc_value.is_none(),
        "CRC value should be None when crc_location is 'none'"
    );
    assert_eq!(block_stat.used_size, 20);
    assert_eq!(block_stat.allocated_size, 0x100);
    assert_eq!(block_stat.start_address, 0x1000);
}

fn space_efficiency(stats: &BuildStats) -> f64 {
    if stats.total_allocated == 0 {
        0.0
    } else {
        (stats.total_used as f64 / stats.total_allocated as f64) * 100.0
    }
}

#[test]
fn test_space_efficiency_calculation() {
    let mut stats = BuildStats::new();

    stats.add_block(BlockStat {
        name: "test1".to_string(),
        start_address: 0x1000,
        allocated_size: 100,
        used_size: 80,
        crc_value: Some(0x12345678),
    });

    stats.add_block(BlockStat {
        name: "test2".to_string(),
        start_address: 0x2000,
        allocated_size: 200,
        used_size: 120,
        crc_value: Some(0x9ABCDEF0),
    });

    assert_eq!(stats.blocks_processed, 2);
    assert_eq!(stats.total_allocated, 300);
    assert_eq!(stats.total_used, 200);

    let efficiency = space_efficiency(&stats);
    let expected = (200.0 / 300.0) * 100.0;
    assert!((efficiency - expected).abs() < 0.01);
}

#[test]
fn test_space_efficiency_edge_cases() {
    let mut stats = BuildStats::new();
    assert_eq!(space_efficiency(&stats), 0.0);

    stats.add_block(BlockStat {
        name: "full".to_string(),
        start_address: 0x1000,
        allocated_size: 100,
        used_size: 100,
        crc_value: Some(0x12345678),
    });

    let efficiency = space_efficiency(&stats);
    assert!((efficiency - 100.0).abs() < 0.01);
}

#[test]
fn word_addressing_doubles_addresses_and_swaps_bytes() {
    let mut s = settings(None);
    s.word_addressing = true;
    let layouts = vec![layout(
        "word_addr_basic",
        s,
        vec![(
            "block",
            Block {
                header: Header {
                    start_address: 0x1000,
                    length: 0x20,
                    crc: None,
                    padding: 0xFF,
                },
                data: Entry::Branch(vec![
                    ("val1".to_string(), scalar(ScalarType::U16, DataValue::U64(0x1234))),
                    ("val2".to_string(), scalar(ScalarType::U16, DataValue::U64(0x5678))),
                ]),
            },
        )],
    )];
    let built = build_bytestreams(
        &[request("block", "word_addr_basic")],
        &layouts,
        None::<&OneName>,
        false,
        false,
    )
    .expect("build should succeed");
    let (_, files) = output_separate_blocks(&built, 16, OutputFormat::Hex).unwrap();
    assert_eq!(files[0].0, "block");
    let content = &files[0].1;

    // start_address = 0x1000, doubled = 0x2000
    // Data bytes: 0x1234 -> [0x34, 0x12] little endian, swapped -> [0x12, 0x34]
    //             0x5678 -> [0x78, 0x56] little endian, swapped -> [0x56, 0x78]
    assert!(
        content.contains("2000"),
        "address should be doubled (0x1000 -> 0x2000)"
    );
    // First data record should contain swapped bytes: 12 34 56 78
    assert!(
        content.contains("12345678"),
        "bytes should be swapped pairwise"
    );
    assert_eq!(content, ":0420000012345678C8\n:00000001FF");
}

#[test]
fn word_addressing_doubles_crc_address() {
    let mut s = settings(Some(crc32()));
    s.word_addressing = true;
    let layouts = vec![layout(
        "word_addr_crc",
        s,
        vec![(
            "block",
            Block {
                header: Header {
                    start_address: 0x1000,
                    length: 0x20,
                    crc: Some(crc_at("end_data")),
                    padding: 0xFF,
                },
                data: Entry::Branch(vec![(
                    "val".to_string(),
                    scalar(ScalarType::U16, DataValue::U64(0xABCD)),
                )]),
            },
        )],
    )];
    let built = build_one(&layouts, "block", "word_addr_crc").expect("build with CRC should succeed");
    assert_eq!(built.data_range.start_address, 0x2000);
    assert_eq!(built.data_range.bytestream, vec![0xAB, 0xCD, 0xFF, 0xFF]);
    assert_eq!(built.data_range.crc_address, (0x1000 + 4) * 2);
    assert_eq!(built.stat.allocated_size, 0x40);
    assert_eq!(built.stat.used_size, 2 + 4);
}

#[test]
fn word_addressing_rejects_u8_type() {
    let mut s = settings(None);
    s.word_addressing = true;
    let layouts = vec![layout(
        "word_addr_u8_reject",
        s,
        vec![(
            "block",
            Block {
                header: Header {
                    start_address: 0x1000,
                    length: 0x20,
                    crc: None,
                    padding: 0xFF,
                },
                data: Entry::Branch(vec![(
                    "byte_val".to_string(),
                    scalar(ScalarType::U8, DataValue::U64(42)),
                )]),
            },
        )],
    )];
    let result = build_one(&layouts, "block", "word_addr_u8_reject");
    assert!(result.is_err(), "u8 type should be rejected");
    let err_msg = result.unwrap_err().message();
    assert!(
        err_msg.contains("u8/i8 types are not supported with word_addressing"),
        "error message should mention u8/i8 restriction: {}",
        err_msg
    );
}

#[test]
fn word_addressing_rejects_strings() {
    let mut s = settings(None);
    s.word_addressing = true;
    let layouts = vec![layout(
        "word_addr_str_reject",
        s,
        vec![(
            "block",
            Block {
                header: Header {
                    start_address: 0x1000,
                    length: 0x20,
                    crc: None,
                    padding: 0xFF,
                },
                data: Entry::Branch(vec![(
                    "text".to_string(),
                    Entry::Leaf(LeafEntry {
                        scalar_type: ScalarType::U8,
                        size_keys: SizeKeys {
                            size: Some(SizeSource::OneD(8)),
                            strict_size: None,
                        },
                        source: EntrySource::Value(ValueSource::Single(DataValue::Str(
                            "HELLO".to_string(),
                        ))),
                    }),
                )]),
            },
        )],
    )];
    let result = build_one(&layouts, "block", "word_addr_str_reject");
    assert!(result.is_err(), "string (u8 array) should be rejected");
}

#[test]
fn word_addressing_virtual_offset_not_doubled() {
    let mut s = settings(None);
    s.word_addressing = true;
    s.virtual_offset = 0x100;
    let layouts = vec![layout(
        "word_addr_voffset",
        s,
        vec![(
            "block",
            Block {
                header: Header {
                    start_address: 0x1000,
                    length: 0x10,
                    crc: None,
                    padding: 0xFF,
                },
                data: Entry::Branch(vec![(
                    "val".to_string(),
                    scalar(ScalarType::U16, DataValue::U64(0x1234)),
                )]),
            },
        )],
    )];
    let built = build_bytestreams(
        &[request("block", "word_addr_voffset")],
        &layouts,
        None::<&OneName>,
        false,
        false,
    )
    .expect("build should succeed");
    let (_, files) = output_separate_blocks(&built, 16, OutputFormat::Hex).unwrap();
    let content = &files[0].1;

    // start_address = 0x1000 * 2 + 0x100 = 0x2100
    assert!(
        content.contains("2100"),
        "address should be (0x1000 * 2) + 0x100 = 0x2100"
    );
    assert_eq!(built[0].data_range.start_address, 0x2100);
}

#[test]
fn the_first_failing_block_fails_the_build() {
    let layouts = vec![layout(
        "l",
        settings(None),
        vec![
            ("good", u32_block(0, 0, None, 1)),
            (
                "bad",
                Block {
                    header: Header {
                        start_address: 0x100,
                        length: 2,
                        crc: None,
                        padding: 0,
                    },
                    data: scalar(ScalarType::U32, DataValue::U64(1)),
                },
            ),
            (
                "worse",
                Block {
                    header: Header {
                        start_address: 0x200,
                        length: 1,
                        crc: None,
                        padding: 0,
                    },
                    data: scalar(ScalarType::U16, DataValue::U64(1)),
                },
            ),
        ],
    )];
    let blocks = [request("good", "l"), request("bad", "l"), request("worse", "l")];
    match build_bytestreams(&blocks, &layouts, None::<&OneName>, true, false) {
        Err(MintError::InBlock {
            block_name, source, ..
        }) => {
            assert_eq!(block_name, "bad");
            assert!(matches!(
                *source,
                MintError::Output(OutputError::HexOutputError(HexFailure::LengthExceeded))
            ));
        }
        _ => panic!("expected the error of the second block"),
    }
    // Gathering results keeps the order and the first error.
    let good = build_one(&layouts, "good", "l");
    let bad = build_one(&layouts, "bad", "l");
    let worse = build_one(&layouts, "worse", "l");
    match collect_results(vec![good, worse, bad]) {
        Err(MintError::InBlock { block_name, .. }) => assert_eq!(block_name, "worse"),
        _ => panic!("expected the first error"),
    }
    let all = collect_results(vec![
        build_one(&layouts, "good", "l"),
        build_one(&layouts, "good", "l"),
    ])
    .unwrap();
    assert_eq!(all.len(), 2);
    assert!(collect_results(vec![]).unwrap().is_empty());
}

#[test]
fn two_builds_of_the_same_blocks_give_the_same_bytes() {
    let mut named = three_blocks("a.toml");
    named.config.blocks.insert(
        "serial".to_string(),
        Block {
            header: Header {
                start_address: 0x4000,
                length: 0x10,
                crc: Some(crc_at("end_data")),
                padding: 0,
            },
            data: Entry::Branch(vec![(
                "serial".to_string(),
                Entry::Leaf(LeafEntry {
                    scalar_type: ScalarType::U16,
                    size_keys: SizeKeys {
                        size: None,
                        strict_size: None,
                    },
                    source: EntrySource::Name("Serial".to_string()),
                }),
            )]),
        },
    );
    named.config.blocks.insert(
        "bare".to_string(),
        Block {
            header: Header {
                start_address: 0x5000,
                length: 0x10,
                crc: None,
                padding: 0,
            },
            data: scalar(ScalarType::U8, DataValue::U64(1)),
        },
    );
    let layouts = vec![named];
    let blocks = vec![
        request("block", "a.toml"),
        request("block2", "a.toml"),
        request("block3", "a.toml"),
        request("serial", "a.toml"),
    ];
    let first = build_bytestreams(&blocks, &layouts, Some(&OneName), true, true).unwrap();
    let second = build_bytestreams(&blocks, &layouts, Some(&OneName), true, true).unwrap();
    assert_eq!(first.len(), 4);
    assert_eq!(first.len(), second.len());
    for (a, b) in first.iter().zip(second.iter()) {
        assert_eq!(a.block_names.name, b.block_names.name);
        assert_eq!(a.data_range.start_address, b.data_range.start_address);
        assert_eq!(a.data_range.bytestream, b.data_range.bytestream);
        assert_eq!(a.data_range.crc_address, b.data_range.crc_address);
        assert_eq!(a.data_range.crc_bytestream, b.data_range.crc_bytestream);
        assert_eq!(a.stat.used_size, b.stat.used_size);
        assert_eq!(a.stat.crc_value, b.stat.crc_value);
    }
    assert_eq!(first[3].data_range.bytestream, vec![0xFE, 0xCA, 0, 0]);
    // The same answers give the same build.
    let answers = fetch_blocks(&blocks, &layouts, Some(&OneName), true);
    let third = build_fetched_blocks(&blocks, &layouts, &answers, true, true).unwrap();
    assert_eq!(third[3].data_range.bytestream, first[3].data_range.bytestream);
    // A leaf at the root has no name to be recorded under.
    assert!(matches!(
        build_single_bytestream(&request("bare", "a.toml"), &layouts, Some(&OneName), true, true),
        Err(MintError::InBlock { source, .. })
            if matches!(*source, MintError::Layout(LayoutError::DataValueExportFailed(
                mint_cli::layout::errors::ExportFailure::EmptyPath
            )))
    ));
    assert_eq!(
        build_single_bytestream(&request("bare", "a.toml"), &layouts, Some(&OneName), true, false)
            .unwrap()
            .data_range
            .bytestream,
        vec![1]
    );
    let captured = build_bytestreams(
        &[request("block", "a.toml")],
        &layouts,
        Some(&OneName),
        true,
        true,
    )
    .unwrap();
    match &captured[0].values {
        Some(ExportValue::Group(entries)) => {
            assert_eq!(entries.len(), 1);
            assert_eq!(entries[0].0, "value");
        }
        _ => panic!("expected the captured values"),
    }
    assert!(build_bytestreams(
        &[request("block", "a.toml")],
        &layouts,
        Some(&OneName),
        true,
        false
    )
    .unwrap()[0]
        .values
        .is_none());
}

#[test]
fn overlapping_spans_are_reported_with_what_they_share() {
    let spans = vec![
        ("a".to_string(), 0x1000u32, 0x1010u32),
        ("b".to_string(), 0x1008, 0x1020),
    ];
    let found = find_overlaps(&spans);
    assert_eq!(found.len(), 1);
    assert_eq!(found[0].first, "a");
    assert_eq!(found[0].second, "b");
    assert_eq!((found[0].start, found[0].end), (0x1008, 0x1010));
    match check_overlaps(&spans) {
        Err(err @ MintError::Output(OutputError::BlockOverlapError(_))) => assert_eq!(
            err.message(),
            "Block overlap detected: Block 'a' (0x00001000-0x0000100F) overlaps with block 'b' (0x00001008-0x0000101F). Overlap: 0x00001008-0x0000100F (8 bytes)"
        ),
        _ => panic!("expected an overlap"),
    }

    let touching = vec![
        ("a".to_string(), 0x1000u32, 0x1010u32),
        ("b".to_string(), 0x1010, 0x1020),
    ];
    assert!(find_overlaps(&touching).is_empty());
    assert!(check_overlaps(&touching).is_ok());
    assert!(check_overlaps(&[]).is_ok());
}

#[test]
fn every_overlapping_pair_is_reported_in_order() {
    let spans = vec![
        ("a".to_string(), 0u32, 100u32),
        ("b".to_string(), 200, 300),
        ("c".to_string(), 50, 250),
        ("d".to_string(), 90, 210),
        ("e".to_string(), 400, 400),
    ];
    let found: Vec<_> = find_overlaps(&spans)
        .into_iter()
        .map(|o| (o.first, o.second, o.start, o.end))
        .collect();
    assert_eq!(
        found,
        vec![
            ("a".to_string(), "c".to_string(), 50, 100),
            ("a".to_string(), "d".to_string(), 90, 100),
            ("b".to_string(), "c".to_string(), 200, 250),
            ("b".to_string(), "d".to_string(), 200, 210),
            ("c".to_string(), "d".to_string(), 90, 210),
        ]
    );
    match check_overlaps(&spans) {
        Err(MintError::Output(OutputError::BlockOverlapError(reported))) => {
            let reported: Vec<_> = reported
                .into_iter()
                .map(|o| (o.first, o.second, o.start, o.end))
                .collect();
            assert_eq!(reported, found);
        }
        _ => panic!("expected an overlap"),
    }
}

#[test]
fn three_spans_that_all_intersect_are_reported_pair_by_pair() {
    let spans = vec![
        ("a".to_string(), 0x00u32, 0x10u32),
        ("b".to_string(), 0x08, 0x18),
        ("c".to_string(), 0x0C, 0x20),
    ];
    let err = check_overlaps(&spans).unwrap_err();
    assert_eq!(
        err.message(),
        "Block overlap detected: \
         Block 'a' (0x00000000-0x0000000F) overlaps with block 'b' (0x00000008-0x00000017). \
         Overlap: 0x00000008-0x0000000F (8 bytes); \
         Block 'a' (0x00000000-0x0000000F) overlaps with block 'c' (0x0000000C-0x0000001F). \
         Overlap: 0x0000000C-0x0000000F (4 bytes); \
         Block 'b' (0x00000008-0x00000017) overlaps with block 'c' (0x0000000C-0x0000001F). \
         Overlap: 0x0000000C-0x00000017 (12 bytes)"
    );
    match err {
        MintError::Output(OutputError::BlockOverlapError(reported)) => {
            let pairs: Vec<_> = reported
                .iter()
                .map(|o| (o.first.as_str(), o.second.as_str(), o.start, o.end))
                .collect();
            assert_eq!(
                pairs,
                vec![("a", "b", 0x08, 0x10), ("a", "c", 0x0C, 0x10), ("b", "c", 0x0C, 0x18)]
            );
            assert_eq!((reported[2].first_start, reported[2].first_end), (0x08, 0x18));
            assert_eq!((reported[2].second_start, reported[2].second_end), (0x0C, 0x20));
        }
        other => panic!("unexpected error: {}", other.message()),
    }
}

#[test]
fn blocks_that_overlap_are_not_written_into_one_file() {
    let layouts = vec![layout(
        "l",
        settings(None),
        vec![
            ("low", u32_block(0x1000, 0xFF, None, 1)),
            ("high", u32_block(0x10FF, 0xFF, None, 2)),
            ("far", u32_block(0xFFFF_FF80, 0xFF, None, 3)),
        ],
    )];
    let built = build_bytestreams(
        &[request("low", "l"), request("high", "l")],
        &layouts,
        None::<&OneName>,
        false,
        false,
    )
    .unwrap();
    match output_combined_file(&built, &layouts, 16, OutputFormat::Hex) {
        Err(MintError::Output(OutputError::BlockOverlapError(reported))) => {
            assert_eq!(reported.len(), 1);
            assert_eq!((reported[0].start, reported[0].end), (0x10FF, 0x1100));
            assert_eq!((reported[0].first.as_str(), reported[0].second.as_str()), ("low", "high"));
        }
        _ => panic!("expected an overlap"),
    }
    // Each alone is fine.
    assert!(output_separate_blocks(&built, 16, OutputFormat::Hex).is_ok());
    assert_eq!(
        block_span(&request("low", "l"), &layouts).unwrap(),
        ("low".to_string(), 0x1000, 0x1100)
    );
    assert!(matches!(
        block_span(&request("far", "l"), &layouts),
        Err(MintError::Layout(LayoutError::InvalidBlockArgument(
            BlockArgumentFailure::EndOverflow
        )))
    ));
    let mut moved = settings(None);
    moved.virtual_offset = 0xFFFF_FFFF;
    let layouts = vec![layout("m", moved, vec![("low", u32_block(0x1000, 0xFF, None, 1))])];
    assert!(matches!(
        block_span(&request("low", "m"), &layouts),
        Err(MintError::Layout(LayoutError::InvalidBlockArgument(
            BlockArgumentFailure::StartOverflow
        )))
    ));
    assert!(matches!(
        block_span(&request("none", "m"), &layouts),
        Err(MintError::Layout(LayoutError::BlockNotFound(_)))
    ));
}

#[test]
fn the_crc_is_read_back_from_its_bytes() {
    assert_eq!(
        extract_crc_value(&[0x78, 0x56, 0x34, 0x12], &Endianness::Little),
        Some(0x12345678)
    );
    assert_eq!(
        extract_crc_value(&[0x78, 0x56, 0x34, 0x12, 0xFF], &Endianness::Big),
        Some(0x78563412)
    );
    assert_eq!(extract_crc_value(&[1, 2, 3], &Endianness::Little), None);
    assert_eq!(extract_crc_value(&[], &Endianness::Big), None);
}

#[test]
fn statistics_add_up() {
    let layouts = vec![three_blocks("a.toml")];
    let stats = build_stats(&layouts, &[request("", "a.toml")]).unwrap();
    assert_eq!(stats.blocks_processed, 3);
    assert_eq!(stats.total_allocated, 0x300);
    assert_eq!(stats.total_used, 8 + 8 + 4);
    assert_eq!(stats.block_stats[2].start_address, 0x3000);
    let empty = collect_stats(&[]);
    assert_eq!((empty.blocks_processed, empty.total_allocated, empty.total_used), (0, 0, 0));
}

#[test]
fn a_layout_with_a_name_twice_in_a_branch_is_refused() {
    let good = three_blocks("good.toml");
    assert!(good.config.check_names().is_ok());
    assert!(layout("empty.toml", settings(None), vec![]).config.check_names().is_ok());

    let twice = |start: u32| Block {
        header: Header {
            start_address: start,
            length: 0x10,
            crc: None,
            padding: 0xFF,
        },
        data: Entry::Branch(vec![
            ("value".to_string(), scalar(ScalarType::U8, DataValue::U64(1))),
            ("value".to_string(), scalar(ScalarType::U8, DataValue::U64(2))),
        ]),
    };
    let bad = layout(
        "bad.toml",
        settings(None),
        vec![
            ("first", u32_block(0x1000, 0xFF, None, 1)),
            ("second", twice(0x2000)),
            ("third", twice(0x3000)),
        ],
    );
    match bad.config.check_names() {
        Err(err @ LayoutError::DuplicateFieldName(_)) => {
            assert_eq!(err.message(), "Duplicate field name in block 'second'.")
        }
        _ => panic!("expected a duplicate name"),
    }
}

#[test]
fn a_crc_in_the_last_four_bytes_leaves_the_data_as_it_is() {
    // Six bytes hold one byte of data and the CRC in the last four.
    let mut crc = crc32();
    crc.location = Some(CrcLocation::Keyword("end_block".to_string()));
    let small = Block {
        header: Header {
            start_address: 0x1000,
            length: 6,
            crc: Some(crc),
            padding: 0xFF,
        },
        data: Entry::Branch(vec![(
            "value".to_string(),
            scalar(ScalarType::U8, DataValue::U64(1)),
        )]),
    };
    let layouts = vec![layout("small.toml", settings(None), vec![("small", small)])];
    let built = build_one(&layouts, "small", "small.toml").expect("the block fits");
    assert_eq!(built.data_range.bytestream, vec![0x01, 0xFF]);
    assert_eq!(built.data_range.crc_address, 0x1002);
    assert_eq!(built.data_range.used_size, 5);
    assert_eq!(built.data_range.allocated_size, 6);
    let expected = calculate_crc(&[0x01, 0xFF], &crc32());
    assert_eq!(built.data_range.crc_bytestream, expected.to_le_bytes());
    assert_eq!(built.stat.crc_value, Some(expected));
}
