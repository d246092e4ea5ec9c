use mint_cli::args::Args;
use mint_cli::data::args::{DataArgs, SourceKind, VariantArgs, VersionArgs};
use mint_cli::layout::args::{parse_block_specifier, BlockNames, BlockSpecifier, LayoutArgs};
use mint_cli::layout::errors::{BlockArgumentFailure, LayoutError};
use mint_cli::layout::format::{layout_format, LayoutFormat};
use mint_cli::layout::text::{ends_ignoring_case, is_whitespace, split_names};
use mint_cli::output::args::{OutputArgs, OutputFormat};

#[test]
fn a_file_alone_asks_for_all_its_blocks() {
    match parse_block_specifier("layouts/block.toml") {
        Ok(BlockSpecifier::All(file)) => assert_eq!(file, "layouts/block.toml"),
        _ => panic!("expected a whole file"),
    }
}

#[test]
fn a_name_at_a_file_asks_for_one_block() {
    match parse_block_specifier("config@layouts/block.toml") {
        Ok(BlockSpecifier::Specific(BlockNames { name, file })) => {
            assert_eq!(name, "config");
            assert_eq!(file, "layouts/block.toml");
        }
        _ => panic!("expected one block"),
    }
    match parse_block_specifier("ä@ö") {
        Ok(BlockSpecifier::Specific(BlockNames { name, file })) => {
            assert_eq!(name, "ä");
            assert_eq!(file, "ö");
        }
        _ => panic!("expected one block"),
    }
}

#[test]
fn malformed_block_references_are_refused() {
    assert!(matches!(
        parse_block_specifier(""),
        Err(LayoutError::InvalidBlockArgument(
            BlockArgumentFailure::EmptyLayoutFile
        ))
    ));
    for input in ["@", "name@", "@file", "a@b@c", "@@", "a@@b"] {
        match parse_block_specifier(input) {
            Err(err @ LayoutError::InvalidBlockArgument(BlockArgumentFailure::Malformed(_))) => {
                assert_eq!(
                    err.message(),
                    format!("Invalid block argument: Failed to unpack block {}.", input)
                );
            }
            _ => panic!("expected a malformed reference: {}", input),
        }
    }
    assert_eq!(
        parse_block_specifier("").unwrap_err().message(),
        "Invalid block argument: Layout file must not be empty."
    );
}

#[test]
fn versions_are_split_at_slashes_and_trimmed() {
    let mut args = DataArgs::default();
    assert!(args.get_version_list().is_empty());
    args.version = Some(" VarA / Debug ".to_string());
    assert_eq!(args.get_version_list(), vec!["VarA", "Debug"]);
    args.version = Some("VarA/Debug/Default".to_string());
    assert_eq!(args.get_version_list(), vec!["VarA", "Debug", "Default"]);
    args.version = Some("//a// /b c/\t\n/".to_string());
    assert_eq!(args.get_version_list(), vec!["a", "b c"]);
    args.version = Some(String::new());
    assert!(args.get_version_list().is_empty());
    args.version = Some(" \u{a0}\u{3000} ".to_string());
    assert!(args.get_version_list().is_empty());
    // The older name counts where the newer is not given.
    args.version = None;
    args.variant = Some("Old".to_string());
    assert_eq!(args.get_version_list(), vec!["Old"]);
    args.version = Some("New".to_string());
    assert_eq!(args.get_version_list(), vec!["New"]);
}

#[test]
fn names_are_split_like_the_standard_library_does() {
    let samples = [
        "",
        "a",
        "a/b",
        " a / b ",
        "/",
        "a//b",
        "  ",
        "a b/ c  d /",
        "\u{2003}x\u{2003}/\u{85}y",
        "ünï/cødé",
        "/a",
        "a/",
        "a\u{200b}/b",
    ];
    for text in samples {
        let expected: Vec<String> = text
            .split('/')
            .map(|name| name.trim())
            .filter(|name| !name.is_empty())
            .map(|name| name.to_string())
            .collect();
        assert_eq!(split_names(text, '/'), expected, "{:?}", text);
    }
    for code in 0..0x3100u32 {
        if let Some(c) = char::from_u32(code) {
            assert_eq!(is_whitespace(c), c.is_whitespace(), "U+{:04X}", code);
        }
    }
}

#[test]
fn block_references_become_requests_in_their_order() {
    let specifiers = vec![
        BlockSpecifier::Specific(BlockNames {
            name: "block2".to_string(),
            file: "a.toml".to_string(),
        }),
        BlockSpecifier::All("a.toml".to_string()),
    ];
    let requests = LayoutArgs::requests(&specifiers);
    let pairs: Vec<_> = requests
        .iter()
        .map(|b| (b.name.as_str(), b.file.as_str()))
        .collect();
    assert_eq!(pairs, vec![("block2", "a.toml"), ("", "a.toml")]);
    assert!(LayoutArgs::requests(&[]).is_empty());
    assert_eq!(
        LayoutError::NoBlocksProvided.message(),
        "No blocks provided."
    );
}

#[test]
fn arguments_hold_their_parts() {
    let args = Args {
        layout: LayoutArgs {
            specifiers: Vec::new(),
            blocks: vec![BlockNames {
                name: "block".to_string(),
                file: "a.toml".to_string(),
            }],
            strict: true,
        },
        data: DataArgs::default(),
        output: OutputArgs {
            out: "out".to_string(),
            prefix: "PRE".to_string(),
            suffix: "SUF".to_string(),
            record_width: 32,
            format: OutputFormat::Mot,
            combined: false,
            stats: false,
            quiet: true,
            export_json: None,
        },
    };
    assert!(args.layout.strict);
    assert!(args.data.xlsx.is_none());
    assert_eq!(args.output.format, OutputFormat::Mot);
    assert_ne!(OutputFormat::Hex, OutputFormat::Mot);
}

#[test]
fn the_first_source_that_is_given_is_selected() {
    let mut args = DataArgs::default();
    assert_eq!(args.source_kind(), None);
    args.json = Some("{}".to_string());
    assert_eq!(args.source_kind(), Some(SourceKind::Json));
    args.graphql = Some("graphql.json".to_string());
    assert_eq!(args.source_kind(), Some(SourceKind::Graphql));
    args.rest = Some("rest.json".to_string());
    assert_eq!(args.source_kind(), Some(SourceKind::Rest));
    args.postgres = Some("pg.json".to_string());
    assert_eq!(args.source_kind(), Some(SourceKind::Postgres));
    args.xlsx = Some("data.xlsx".to_string());
    assert_eq!(args.source_kind(), Some(SourceKind::Xlsx));
}

#[test]
fn narrower_arguments_list_their_names_the_same_way() {
    let mut versions = VersionArgs::default();
    assert!(versions.get_version_list().is_empty());
    versions.variant = Some(" VarA / Debug //Default/ ".to_string());
    assert_eq!(versions.get_version_list(), ["VarA", "Debug", "Default"]);
    versions.version = Some("Release".to_string());
    assert_eq!(versions.get_version_list(), ["Release"]);
    versions.rest = Some("rest.json".to_string());
    let data = versions.into_data_args();
    assert_eq!(data.get_version_list(), ["Release"]);
    assert_eq!(data.source_kind(), Some(SourceKind::Rest));
    assert!(data.graphql.is_none());

    let mut variants = VariantArgs::default();
    assert!(variants.get_variant_list().is_empty());
    variants.variant = Some("/a / b/".to_string());
    variants.xlsx = Some("data.xlsx".to_string());
    assert_eq!(variants.get_variant_list(), ["a", "b"]);
    let data = variants.into_data_args();
    assert_eq!(data.get_version_list(), ["a", "b"]);
    assert_eq!(data.source_kind(), Some(SourceKind::Xlsx));
}

fn output_args(prefix: &str, suffix: &str, format: OutputFormat) -> OutputArgs {
    OutputArgs {
        out: "out".to_string(),
        prefix: prefix.to_string(),
        suffix: suffix.to_string(),
        record_width: 32,
        format,
        combined: false,
        stats: false,
        quiet: true,
        export_json: None,
    }
}

#[test]
fn files_are_named_by_prefix_block_and_suffix() {
    assert_eq!(
        output_args("PRE", "SUF", OutputFormat::Hex).file_name("block"),
        "PRE_block_SUF.hex"
    );
    assert_eq!(
        output_args("COMBINED", "EXPAND", OutputFormat::Mot).file_name("combined"),
        "COMBINED_combined_EXPAND.mot"
    );
    assert_eq!(output_args("", "", OutputFormat::Hex).file_name("block"), "block.hex");
    assert_eq!(output_args("p", "", OutputFormat::Mot).file_name("b"), "p_b.mot");
    assert_eq!(output_args("", "s", OutputFormat::Hex).file_name(""), "_s.hex");
    assert_eq!(OutputFormat::Hex.extension(), "hex");
    assert_eq!(OutputFormat::Mot.extension(), "mot");
}

#[test]
fn a_layout_file_is_read_by_its_extension() {
    assert_eq!(layout_format("layouts/block.toml"), Some(LayoutFormat::Toml));
    assert_eq!(layout_format("BLOCK.TOML"), Some(LayoutFormat::Toml));
    assert_eq!(layout_format("block.Json"), Some(LayoutFormat::Json));
    assert_eq!(layout_format(".json"), Some(LayoutFormat::Json));
    assert_eq!(layout_format("block.yaml"), Some(LayoutFormat::Yaml));
    assert_eq!(layout_format("block.YML"), Some(LayoutFormat::Yaml));
    assert_eq!(layout_format("block.xml"), None);
    assert_eq!(layout_format("yml"), None);
    assert_eq!(layout_format("toml"), None);
    assert_eq!(layout_format("block.toml.bak"), None);
    assert_eq!(layout_format(""), None);
    assert_eq!(layout_format("block.tomł"), None);
    assert!(ends_ignoring_case("abc", ""));
    assert!(ends_ignoring_case("aBc", "Bc"));
    assert!(!ends_ignoring_case("bc", "abc"));
}
