use cove_core::cli::{
    parse_acceleration_policy, parse_aggregate_policy, parse_args, parse_compression,
    parse_csv_list, parse_dictionary_policy, parse_stats_policy, parse_u32, white_space,
    ReportTarget,
};
use cove_core::constants::CompressionCodec;
use cove_core::conversion::{
    ParquetAccelerationPolicy, ParquetAggregatePolicy, ParquetClusteringPolicy,
    ParquetConversionOptions, ParquetDictionaryPolicy, ParquetStatsPolicy,
};

fn args(items: &[&str]) -> Vec<String> {
    items.iter().map(|s| s.to_string()).collect()
}

#[test]
fn parses_required_paths_and_options() {
    let command = parse_args(vec![
        "--table-name".to_string(),
        "orders".to_string(),
        "--namespace".to_string(),
        "sales".to_string(),
        "--morsel-row-count".to_string(),
        "128".to_string(),
        "--segment-row-count".to_string(),
        "256".to_string(),
        "--compression".to_string(),
        "none".to_string(),
        "--dictionary-policy".to_string(),
        "never".to_string(),
        "--stats-policy".to_string(),
        "recompute".to_string(),
        "--acceleration-policy".to_string(),
        "declared-only".to_string(),
        "--point-lookup-columns".to_string(),
        "id,email".to_string(),
        "--cluster-columns".to_string(),
        "tenant_id".to_string(),
        "--topn-columns".to_string(),
        "score".to_string(),
        "--aggregate-synopsis".to_string(),
        "declared-only".to_string(),
        "--aggregate-columns".to_string(),
        "score".to_string(),
        "--composite-zone".to_string(),
        "tenant_id,score".to_string(),
        "--emit-covx".to_string(),
        "--emit-covm".to_string(),
        "--stable-clustering".to_string(),
        "--report".to_string(),
        "-".to_string(),
        "in.parquet".to_string(),
        "out.cove".to_string(),
    ])
    .unwrap()
    .unwrap();

    assert_eq!(command.options.table_name, "orders");
    assert_eq!(command.options.namespace, "sales");
    assert_eq!(command.options.morsel_row_count, 128);
    assert_eq!(command.options.segment_row_count, 256);
    assert_eq!(
        command.options.dictionary_policy,
        ParquetDictionaryPolicy::Never
    );
    assert_eq!(command.options.stats_policy, ParquetStatsPolicy::Recompute);
    assert_eq!(
        command.options.acceleration_policy,
        ParquetAccelerationPolicy::DeclaredOnly
    );
    assert_eq!(command.options.point_lookup_columns, vec!["id", "email"]);
    assert_eq!(command.options.cluster_columns, vec!["tenant_id"]);
    assert_eq!(command.options.topn_columns, vec!["score"]);
    assert_eq!(
        command.options.aggregate_policy,
        ParquetAggregatePolicy::DeclaredOnly
    );
    assert_eq!(command.options.aggregate_columns, vec!["score"]);
    assert_eq!(
        command.options.composite_zone_groups,
        vec![vec!["tenant_id".to_string(), "score".to_string()]]
    );
    assert!(command.options.emit_covx);
    assert!(command.options.emit_covm);
    assert_eq!(
        command.options.clustering_policy,
        ParquetClusteringPolicy::StableClusterDeclaredColumns
    );
    assert_eq!(command.report, Some(ReportTarget::Stdout));
}

#[test]
fn rejects_unknown_compression() {
    assert_eq!(
        parse_compression("snappy"),
        Err("--compression must be one of: none, lz4, zstd".into())
    );
}

#[test]
fn cli_paths_alone_keep_default_options() {
    let command = parse_args(args(&["in.parquet", "out.cove"])).unwrap().unwrap();
    assert_eq!(command.input, "in.parquet");
    assert_eq!(command.output, "out.cove");
    assert_eq!(command.options, ParquetConversionOptions::default());
    assert_eq!(command.options.table_name, "parquet_import");
    assert_eq!(command.options.namespace, "interop");
    assert_eq!(command.options.morsel_row_count, 4096);
    assert_eq!(command.options.segment_row_count, u32::MAX);
    assert_eq!(command.report, None);
}

#[test]
fn cli_help_stops_parsing() {
    assert_eq!(parse_args(args(&["-h"])), Ok(None));
    assert_eq!(parse_args(args(&["--bogus-later", "--help"])).is_err(), true);
    assert_eq!(parse_args(args(&["in", "--help", "--bogus"])), Ok(None));
}

#[test]
fn cli_report_path_and_compression() {
    let command = parse_args(args(&[
        "--report",
        "report.json",
        "--compression",
        "zstd",
        "a",
        "b",
    ]))
    .unwrap()
    .unwrap();
    assert_eq!(command.report, Some(ReportTarget::Path("report.json".to_string())));
    assert_eq!(command.options.page_compression, CompressionCodec::Zstd);
}

#[test]
fn cli_errors_name_the_option() {
    assert_eq!(
        parse_args(args(&["--table-name"])),
        Err("--table-name requires a value".to_string())
    );
    assert_eq!(
        parse_args(args(&["--morsel-row-count", "abc", "a", "b"])),
        Err("--morsel-row-count must be a u32".to_string())
    );
    assert_eq!(
        parse_args(args(&["--segment-row-count", "0", "a", "b"])),
        Err("--segment-row-count must be greater than zero".to_string())
    );
    assert_eq!(
        parse_args(args(&["--frobnicate", "a", "b"])),
        Err("unknown option --frobnicate".to_string())
    );
    assert_eq!(
        parse_args(args(&["only-one"])),
        Err("expected <input.parquet> and <output.cove>".to_string())
    );
    assert_eq!(
        parse_args(args(&["a", "b", "c"])),
        Err("expected <input.parquet> and <output.cove>".to_string())
    );
}

#[test]
fn cli_composite_zone_repeats_and_lists_trim() {
    let command = parse_args(args(&[
        "--composite-zone",
        " a , b ,, ",
        "--composite-zone",
        "c",
        "--point-lookup-columns",
        "",
        "x",
        "y",
    ]))
    .unwrap()
    .unwrap();
    assert_eq!(
        command.options.composite_zone_groups,
        vec![vec!["a".to_string(), "b".to_string()], vec!["c".to_string()]]
    );
    assert!(command.options.point_lookup_columns.is_empty());
}

#[test]
fn csv_list_splits_trims_and_drops_blanks() {
    assert_eq!(parse_csv_list("id,email"), vec!["id", "email"]);
    assert_eq!(parse_csv_list("  a ,\tb\n, ,c"), vec!["a", "b", "c"]);
    assert_eq!(parse_csv_list(""), Vec::<String>::new());
    assert_eq!(parse_csv_list(",,,"), Vec::<String>::new());
    assert_eq!(parse_csv_list("\u{3000}é x\u{a0}"), vec!["é x"]);
}

#[test]
fn whitespace_matches_std() {
    for c in ['\t', '\n', '\r', ' ', '\u{85}', '\u{a0}', '\u{2003}', '\u{3000}', 'a', '-', '\u{200b}'] {
        assert_eq!(white_space(c), c.is_whitespace(), "{c:?}");
    }
}

#[test]
fn u32_parse_matches_std() {
    for s in ["0", "128", "+7", "4294967295", "4294967296", "", "+", "-1", "12a", " 1", "007", "99999999999999999999"] {
        assert_eq!(parse_u32(s), s.parse::<u32>().ok(), "{s:?}");
    }
}

#[test]
fn policy_names_parse() {
    assert_eq!(parse_compression("none"), Ok(CompressionCodec::Uncompressed));
    assert_eq!(parse_compression("lz4"), Ok(CompressionCodec::Lz4));
    assert_eq!(parse_dictionary_policy("always"), Ok(ParquetDictionaryPolicy::Always));
    assert_eq!(
        parse_dictionary_policy("sometimes"),
        Err("--dictionary-policy must be one of: auto, never, always".to_string())
    );
    assert_eq!(parse_stats_policy("none"), Ok(ParquetStatsPolicy::Disabled));
    assert_eq!(
        parse_stats_policy("all"),
        Err("--stats-policy must be one of: none, recompute".to_string())
    );
    assert_eq!(parse_acceleration_policy("auto"), Ok(ParquetAccelerationPolicy::Auto));
    assert_eq!(
        parse_acceleration_policy("x"),
        Err("--acceleration-policy must be one of: none, declared-only, auto".to_string())
    );
    assert_eq!(parse_aggregate_policy("none"), Ok(ParquetAggregatePolicy::Disabled));
    assert_eq!(
        parse_aggregate_policy("x"),
        Err("--aggregate-synopsis must be one of: none, declared-only, auto".to_string())
    );
}
