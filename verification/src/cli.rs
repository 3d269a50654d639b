//! Command-line parsing for the Parquet-to-COVE converter: option values,
//! comma-separated column lists and the whole argument list.
use vstd::prelude::*;
use vstd::string::StrSliceExecFns;

use crate::constants::CompressionCodec;
use crate::conversion::{
    default_options, string_groups_view, strings_view, OptionsView, ParquetAccelerationPolicy,
    ParquetAggregatePolicy, ParquetClusteringPolicy, ParquetConversionOptions,
    ParquetDictionaryPolicy, ParquetStatsPolicy,
};
use crate::util::{concat, str_eq, text};

verus! {

/// A result whose error message is taken by its characters.
pub open spec fn text_result<T>(r: Result<T, String>) -> Result<T, Seq<char>> {
    match r {
        Ok(v) => Ok(v),
        Err(e) => Err(e@),
    }
}

// ---------------------------------------------------------------------------
// Whitespace, trimming and comma-separated lists
// ---------------------------------------------------------------------------

/// Unicode `White_Space`, the set that `char::is_whitespace` tests.
pub open spec fn is_white_space(c: char) -> bool {
    let u = c as u32;
    ||| 0x9 <= u <= 0xd
    ||| u == 0x20
    ||| u == 0x85
    ||| u == 0xa0
    ||| u == 0x1680
    ||| 0x2000 <= u <= 0x200a
    ||| u == 0x2028
    ||| u == 0x2029
    ||| u == 0x202f
    ||| u == 0x205f
    ||| u == 0x3000
}

/// Whether `c` is Unicode whitespace.
pub fn white_space(c: char) -> (res: bool)
    ensures
        res == is_white_space(c),
{
    let u = c as u32;
    (0x9 <= u && u <= 0xd) || u == 0x20 || u == 0x85 || u == 0xa0 || u == 0x1680 || (0x2000 <= u
        && u <= 0x200a) || u == 0x2028 || u == 0x2029 || u == 0x202f || u == 0x205f || u == 0x3000
}

/// `s` without its leading whitespace.
pub open spec fn trim_start(s: Seq<char>) -> Seq<char>
    decreases s.len(),
{
    if s.len() > 0 && is_white_space(s[0]) {
        trim_start(s.drop_first())
    } else {
        s
    }
}

/// `s` without its trailing whitespace.
pub open spec fn trim_end(s: Seq<char>) -> Seq<char>
    decreases s.len(),
{
    if s.len() > 0 && is_white_space(s.last()) {
        trim_end(s.drop_last())
    } else {
        s
    }
}

/// `s` without leading or trailing whitespace.
pub open spec fn trim(s: Seq<char>) -> Seq<char> {
    trim_end(trim_start(s))
}

/// The trimmed piece as a list item, or nothing when it is blank.
pub open spec fn kept(piece: Seq<char>) -> Seq<Seq<char>> {
    if trim(piece).len() > 0 {
        seq![trim(piece)]
    } else {
        Seq::empty()
    }
}

/// The items of `s` from the piece that starts at `start`, having scanned up
/// to `i`.
pub open spec fn csv_from(s: Seq<char>, start: int, i: int) -> Seq<Seq<char>>
    decreases s.len() - i,
{
    if i >= s.len() {
        kept(s.subrange(start, s.len() as int))
    } else if s[i] == ',' {
        kept(s.subrange(start, i)) + csv_from(s, i + 1, i + 1)
    } else {
        csv_from(s, start, i + 1)
    }
}

/// The comma-separated items of `s`, each trimmed, blank ones dropped.
pub open spec fn csv_items(s: Seq<char>) -> Seq<Seq<char>> {
    csv_from(s, 0, 0)
}

/// Appends the trimmed characters `start..end` of `value` to `out` unless
/// they are blank.
fn push_trimmed(value: &str, start: usize, end: usize, out: &mut Vec<String>)
    requires
        start <= end <= value@.len(),
    ensures
        strings_view(final(out)@) == strings_view(old(out)@) + kept(
            value@.subrange(start as int, end as int),
        ),
{
    let ghost s = value@;
    let ghost piece = s.subrange(start as int, end as int);
    let mut lo = start;
    while lo < end && white_space(value.get_char(lo))
        invariant
            s == value@,
            start <= lo <= end <= s.len(),
            trim_start(piece) == trim_start(s.subrange(lo as int, end as int)),
        decreases end - lo,
    {
        assert(s.subrange(lo as int, end as int).drop_first() =~= s.subrange(
            lo + 1,
            end as int,
        ));
        lo = lo + 1;
    }
    assert(trim_start(piece) == s.subrange(lo as int, end as int));
    let mut hi = end;
    while hi > lo && white_space(value.get_char(hi - 1))
        invariant
            s == value@,
            start <= lo <= hi <= end <= s.len(),
            trim(piece) == trim_end(s.subrange(lo as int, hi as int)),
        decreases hi - lo,
    {
        assert(s.subrange(lo as int, hi as int).drop_last() =~= s.subrange(
            lo as int,
            hi - 1,
        ));
        hi = hi - 1;
    }
    assert(trim(piece) == s.subrange(lo as int, hi as int));
    if lo < hi {
        let item = value.substring_char(lo, hi).to_owned();
        let ghost before = out@;
        out.push(item);
        assert(strings_view(out@) =~= strings_view(before) + kept(piece));
    } else {
        assert(strings_view(out@) =~= strings_view(out@) + kept(piece));
    }
}

/// Splits `value` at commas, trims each item and drops the blank ones.
pub fn parse_csv_list(value: &str) -> (res: Vec<String>)
    ensures
        strings_view(res@) == csv_items(value@),
{
    let n = value.unicode_len();
    let mut out: Vec<String> = Vec::new();
    let mut start: usize = 0;
    let mut i: usize = 0;
    assert(strings_view(out@) =~= Seq::empty());
    while i < n
        invariant
            n == value@.len(),
            start <= i <= n,
            csv_items(value@) == strings_view(out@) + csv_from(value@, start as int, i as int),
        decreases n - i,
    {
        let c = value.get_char(i);
        if c == ',' {
            let ghost before = strings_view(out@);
            push_trimmed(value, start, i, &mut out);
            assert(before + csv_from(value@, start as int, i as int) =~= strings_view(out@)
                + csv_from(value@, i + 1, i + 1));
            start = i + 1;
        }
        i = i + 1;
    }
    let ghost before = strings_view(out@);
    push_trimmed(value, start, n, &mut out);
    assert(before + csv_from(value@, start as int, n as int) =~= strings_view(out@));
    out
}

// ---------------------------------------------------------------------------
// Numbers and policy names
// ---------------------------------------------------------------------------

/// Whether `c` is an ASCII decimal digit.
pub open spec fn is_digit(c: char) -> bool {
    48 <= (c as u32) <= 57
}

/// The decimal value of a run of digits.
pub open spec fn digits_value(s: Seq<char>) -> int
    decreases s.len(),
{
    if s.len() == 0 {
        0
    } else {
        digits_value(s.drop_last()) * 10 + ((s.last() as u32) - 48)
    }
}

/// The digits of a `u32` literal: the text without one leading `+`.
pub open spec fn unsigned_digits(s: Seq<char>) -> Seq<char> {
    if s.len() > 0 && s[0] == '+' {
        s.drop_first()
    } else {
        s
    }
}

/// `str::parse::<u32>`: an optional `+`, then one or more decimal digits
/// whose value fits in 32 bits.
pub open spec fn spec_parse_u32(s: Seq<char>) -> Option<u32> {
    let d = unsigned_digits(s);
    if d.len() > 0 && (forall|k: int| 0 <= k < d.len() ==> is_digit(#[trigger] d[k]))
        && digits_value(d) <= u32::MAX {
        Some(digits_value(d) as u32)
    } else {
        None
    }
}

/// Parses a decimal `u32` as `str::parse` does.
pub fn parse_u32(value: &str) -> (res: Option<u32>)
    ensures
        res == spec_parse_u32(value@),
{
    let n = value.unicode_len();
    let ghost s = value@;
    let ghost d = unsigned_digits(s);
    let mut i: usize = 0;
    if n > 0 && value.get_char(0) == '+' {
        i = 1;
    }
    let first = i;
    if first == n {
        return None;
    }
    assert(d =~= s.subrange(first as int, n as int));
    let mut acc: u64 = 0;
    let mut overflow = false;
    while i < n
        invariant
            s == value@,
            n == s.len(),
            d == unsigned_digits(s),
            d == s.subrange(first as int, n as int),
            first <= i <= n,
            forall|k: int| 0 <= k < i - first ==> is_digit(#[trigger] d[k]),
            overflow ==> digits_value(d.subrange(0, i - first)) > u32::MAX,
            !overflow ==> acc == digits_value(d.subrange(0, i - first)),
            !overflow ==> acc <= u32::MAX,
        decreases n - i,
    {
        let c = value.get_char(i);
        let u = c as u32;
        if u < 48 || u > 57 {
            assert(d[i - first] == c);
            return None;
        }
        let ghost prefix = d.subrange(0, i - first);
        let ghost next = d.subrange(0, i - first + 1);
        assert(next.drop_last() =~= prefix);
        assert(next.last() == c);
        if !overflow {
            acc = acc * 10 + (u - 48) as u64;
            if acc > 0xffff_ffff {
                overflow = true;
            }
        }
        i = i + 1;
    }
    assert(d.subrange(0, n - first) =~= d);
    if overflow {
        None
    } else {
        Some(acc as u32)
    }
}

/// The codec a `--compression` value names.
pub open spec fn spec_parse_compression(v: Seq<char>) -> Result<CompressionCodec, Seq<char>> {
    if v == "none"@ {
        Ok(CompressionCodec::Uncompressed)
    } else if v == "lz4"@ {
        Ok(CompressionCodec::Lz4)
    } else if v == "zstd"@ {
        Ok(CompressionCodec::Zstd)
    } else {
        Err("--compression must be one of: none, lz4, zstd"@)
    }
}

/// Parses a `--compression` value: `none`, `lz4` or `zstd`.
pub fn parse_compression(value: &str) -> (res: Result<CompressionCodec, String>)
    ensures
        text_result(res) == spec_parse_compression(value@),
{
    if str_eq(value, "none") {
        Ok(CompressionCodec::Uncompressed)
    } else if str_eq(value, "lz4") {
        Ok(CompressionCodec::Lz4)
    } else if str_eq(value, "zstd") {
        Ok(CompressionCodec::Zstd)
    } else {
        Err(text("--compression must be one of: none, lz4, zstd"))
    }
}

/// The policy a `--dictionary-policy` value names.
pub open spec fn spec_parse_dictionary_policy(v: Seq<char>) -> Result<
    ParquetDictionaryPolicy,
    Seq<char>,
> {
    if v == "auto"@ {
        Ok(ParquetDictionaryPolicy::Auto)
    } else if v == "never"@ {
        Ok(ParquetDictionaryPolicy::Never)
    } else if v == "always"@ {
        Ok(ParquetDictionaryPolicy::Always)
    } else {
        Err("--dictionary-policy must be one of: auto, never, always"@)
    }
}

/// Parses a `--dictionary-policy` value: `auto`, `never` or `always`.
pub fn parse_dictionary_policy(value: &str) -> (res: Result<ParquetDictionaryPolicy, String>)
    ensures
        text_result(res) == spec_parse_dictionary_policy(value@),
{
    if str_eq(value, "auto") {
        Ok(ParquetDictionaryPolicy::Auto)
    } else if str_eq(value, "never") {
        Ok(ParquetDictionaryPolicy::Never)
    } else if str_eq(value, "always") {
        Ok(ParquetDictionaryPolicy::Always)
    } else {
        Err(text("--dictionary-policy must be one of: auto, never, always"))
    }
}

/// The policy a `--stats-policy` value names.
pub open spec fn spec_parse_stats_policy(v: Seq<char>) -> Result<ParquetStatsPolicy, Seq<char>> {
    if v == "none"@ {
        Ok(ParquetStatsPolicy::Disabled)
    } else if v == "recompute"@ {
        Ok(ParquetStatsPolicy::Recompute)
    } else {
        Err("--stats-policy must be one of: none, recompute"@)
    }
}

/// Parses a `--stats-policy` value: `none` or `recompute`.
pub fn parse_stats_policy(value: &str) -> (res: Result<ParquetStatsPolicy, String>)
    ensures
        text_result(res) == spec_parse_stats_policy(value@),
{
    if str_eq(value, "none") {
        Ok(ParquetStatsPolicy::Disabled)
    } else if str_eq(value, "recompute") {
        Ok(ParquetStatsPolicy::Recompute)
    } else {
        Err(text("--stats-policy must be one of: none, recompute"))
    }
}

/// The policy an `--acceleration-policy` value names.
pub open spec fn spec_parse_acceleration_policy(v: Seq<char>) -> Result<
    ParquetAccelerationPolicy,
    Seq<char>,
> {
    if v == "none"@ {
        Ok(ParquetAccelerationPolicy::Disabled)
    } else if v == "declared-only"@ {
        Ok(ParquetAccelerationPolicy::DeclaredOnly)
    } else if v == "auto"@ {
        Ok(ParquetAccelerationPolicy::Auto)
    } else {
        Err("--acceleration-policy must be one of: none, declared-only, auto"@)
    }
}

/// Parses an `--acceleration-policy` value: `none`, `declared-only` or
/// `auto`.
pub fn parse_acceleration_policy(value: &str) -> (res: Result<ParquetAccelerationPolicy, String>)
    ensures
        text_result(res) == spec_parse_acceleration_policy(value@),
{
    if str_eq(value, "none") {
        Ok(ParquetAccelerationPolicy::Disabled)
    } else if str_eq(value, "declared-only") {
        Ok(ParquetAccelerationPolicy::DeclaredOnly)
    } else if str_eq(value, "auto") {
        Ok(ParquetAccelerationPolicy::Auto)
    } else {
        Err(text("--acceleration-policy must be one of: none, declared-only, auto"))
    }
}

/// The policy an `--aggregate-synopsis` value names.
pub open spec fn spec_parse_aggregate_policy(v: Seq<char>) -> Result<
    ParquetAggregatePolicy,
    Seq<char>,
> {
    if v == "none"@ {
        Ok(ParquetAggregatePolicy::Disabled)
    } else if v == "declared-only"@ {
        Ok(ParquetAggregatePolicy::DeclaredOnly)
    } else if v == "auto"@ {
        Ok(ParquetAggregatePolicy::Auto)
    } else {
        Err("--aggregate-synopsis must be one of: none, declared-only, auto"@)
    }
}

/// Parses an `--aggregate-synopsis` value: `none`, `declared-only` or
/// `auto`.
pub fn parse_aggregate_policy(value: &str) -> (res: Result<ParquetAggregatePolicy, String>)
    ensures
        text_result(res) == spec_parse_aggregate_policy(value@),
{
    if str_eq(value, "none") {
        Ok(ParquetAggregatePolicy::Disabled)
    } else if str_eq(value, "declared-only") {
        Ok(ParquetAggregatePolicy::DeclaredOnly)
    } else if str_eq(value, "auto") {
        Ok(ParquetAggregatePolicy::Auto)
    } else {
        Err(text("--aggregate-synopsis must be one of: none, declared-only, auto"))
    }
}

// ---------------------------------------------------------------------------
// The argument list
// ---------------------------------------------------------------------------

/// Where the conversion report goes.
#[derive(Debug, Clone, PartialEq, Eq)]
pub enum ReportTarget {
    /// Standard output (`--report -`).
    Stdout,
    Path(String),
}

/// A report target as mathematical values.
pub enum ReportTargetView {
    Stdout,
    Path(Seq<char>),
}

impl View for ReportTarget {
    type V = ReportTargetView;

    open spec fn view(&self) -> ReportTargetView {
        match self {
            ReportTarget::Stdout => ReportTargetView::Stdout,
            ReportTarget::Path(p) => ReportTargetView::Path(p@),
        }
    }
}

/// An optional report target as mathematical values.
pub open spec fn report_view(r: Option<ReportTarget>) -> Option<ReportTargetView> {
    match r {
        Some(t) => Some(t@),
        None => None,
    }
}

/// A conversion request: input and output paths, options and report target.
#[derive(Debug, Clone, PartialEq, Eq)]
pub struct Command {
    pub input: String,
    pub output: String,
    pub options: ParquetConversionOptions,
    pub report: Option<ReportTarget>,
}

/// A conversion request as mathematical values.
pub struct CommandView {
    pub input: Seq<char>,
    pub output: Seq<char>,
    pub options: OptionsView,
    pub report: Option<ReportTargetView>,
}

impl View for Command {
    type V = CommandView;

    open spec fn view(&self) -> CommandView {
        CommandView {
            input: self.input@,
            output: self.output@,
            options: self.options@,
            report: report_view(self.report),
        }
    }
}

/// What the parser has gathered so far.
pub struct ArgsSeen {
    pub options: OptionsView,
    pub report: Option<ReportTargetView>,
    pub positional: Seq<Seq<char>>,
}

/// Nothing seen yet: default options, no report, no paths.
pub open spec fn nothing_seen() -> ArgsSeen {
    ArgsSeen { options: default_options(), report: None, positional: Seq::empty() }
}

/// `-h` or `--help`.
pub open spec fn is_help(a: Seq<char>) -> bool {
    a == "-h"@ || a == "--help"@
}

/// The options that take the next argument as their value.
pub open spec fn takes_value(a: Seq<char>) -> bool {
    ||| a == "--table-name"@
    ||| a == "--namespace"@
    ||| a == "--morsel-row-count"@
    ||| a == "--segment-row-count"@
    ||| a == "--compression"@
    ||| a == "--dictionary-policy"@
    ||| a == "--stats-policy"@
    ||| a == "--acceleration-policy"@
    ||| a == "--point-lookup-columns"@
    ||| a == "--cluster-columns"@
    ||| a == "--topn-columns"@
    ||| a == "--aggregate-synopsis"@
    ||| a == "--aggregate-columns"@
    ||| a == "--composite-zone"@
    ||| a == "--report"@
}

/// The message for an option given without its value.
pub open spec fn missing_value(option: Seq<char>) -> Seq<char> {
    option + " requires a value"@
}

/// `seen` with its options replaced.
pub open spec fn with_options(seen: ArgsSeen, o: OptionsView) -> ArgsSeen {
    ArgsSeen { options: o, ..seen }
}

/// A positive row count, or the option's two messages.
pub open spec fn row_count_value(option: Seq<char>, v: Seq<char>) -> Result<u32, Seq<char>> {
    match spec_parse_u32(v) {
        None => Err(option + " must be a u32"@),
        Some(n) => if n == 0 {
            Err(option + " must be greater than zero"@)
        } else {
            Ok(n)
        },
    }
}

/// What option `a` with value `v` makes of `seen`.
pub open spec fn apply_value(a: Seq<char>, v: Seq<char>, seen: ArgsSeen) -> Result<
    ArgsSeen,
    Seq<char>,
> {
    let o = seen.options;
    if a == "--table-name"@ {
        Ok(with_options(seen, OptionsView { table_name: v, ..o }))
    } else if a == "--namespace"@ {
        Ok(with_options(seen, OptionsView { namespace: v, ..o }))
    } else if a == "--morsel-row-count"@ {
        match row_count_value(a, v) {
            Ok(n) => Ok(with_options(seen, OptionsView { morsel_row_count: n, ..o })),
            Err(e) => Err(e),
        }
    } else if a == "--segment-row-count"@ {
        match row_count_value(a, v) {
            Ok(n) => Ok(with_options(seen, OptionsView { segment_row_count: n, ..o })),
            Err(e) => Err(e),
        }
    } else if a == "--compression"@ {
        match spec_parse_compression(v) {
            Ok(c) => Ok(with_options(seen, OptionsView { page_compression: c, ..o })),
            Err(e) => Err(e),
        }
    } else if a == "--dictionary-policy"@ {
        match spec_parse_dictionary_policy(v) {
            Ok(p) => Ok(with_options(seen, OptionsView { dictionary_policy: p, ..o })),
            Err(e) => Err(e),
        }
    } else if a == "--stats-policy"@ {
        match spec_parse_stats_policy(v) {
            Ok(p) => Ok(with_options(seen, OptionsView { stats_policy: p, ..o })),
            Err(e) => Err(e),
        }
    } else if a == "--acceleration-policy"@ {
        match spec_parse_acceleration_policy(v) {
            Ok(p) => Ok(with_options(seen, OptionsView { acceleration_policy: p, ..o })),
            Err(e) => Err(e),
        }
    } else if a == "--point-lookup-columns"@ {
        Ok(with_options(seen, OptionsView { point_lookup_columns: csv_items(v), ..o }))
    } else if a == "--cluster-columns"@ {
        Ok(with_options(seen, OptionsView { cluster_columns: csv_items(v), ..o }))
    } else if a == "--topn-columns"@ {
        Ok(with_options(seen, OptionsView { topn_columns: csv_items(v), ..o }))
    } else if a == "--aggregate-synopsis"@ {
        match spec_parse_aggregate_policy(v) {
            Ok(p) => Ok(with_options(seen, OptionsView { aggregate_policy: p, ..o })),
            Err(e) => Err(e),
        }
    } else if a == "--aggregate-columns"@ {
        Ok(with_options(seen, OptionsView { aggregate_columns: csv_items(v), ..o }))
    } else if a == "--composite-zone"@ {
        Ok(
            with_options(
                seen,
                OptionsView { composite_zone_groups: o.composite_zone_groups.push(csv_items(v)), ..o },
            ),
        )
    } else if v == "-"@ {
        Ok(ArgsSeen { report: Some(ReportTargetView::Stdout), ..seen })
    } else {
        Ok(ArgsSeen { report: Some(ReportTargetView::Path(v)), ..seen })
    }
}

/// What an argument that takes no value makes of `seen`: a flag, an unknown
/// option (anything else that starts with `-`), or a path.
pub open spec fn apply_flag(a: Seq<char>, seen: ArgsSeen) -> Result<ArgsSeen, Seq<char>> {
    let o = seen.options;
    if a == "--emit-covx"@ {
        Ok(with_options(seen, OptionsView { emit_covx: true, ..o }))
    } else if a == "--emit-covm"@ {
        Ok(with_options(seen, OptionsView { emit_covm: true, ..o }))
    } else if a == "--stable-clustering"@ {
        Ok(
            with_options(
                seen,
                OptionsView {
                    clustering_policy: ParquetClusteringPolicy::StableClusterDeclaredColumns,
                    ..o
                },
            ),
        )
    } else if a.len() > 0 && a[0] == '-' {
        Err("unknown option "@ + a)
    } else {
        Ok(ArgsSeen { positional: seen.positional.push(a), ..seen })
    }
}

/// The request once every argument is seen: exactly two paths are needed.
pub open spec fn finish_args(seen: ArgsSeen) -> Result<Option<CommandView>, Seq<char>> {
    if seen.positional.len() != 2 {
        Err("expected <input.parquet> and <output.cove>"@)
    } else {
        Ok(
            Some(
                CommandView {
                    input: seen.positional[0],
                    output: seen.positional[1],
                    options: seen.options,
                    report: seen.report,
                },
            ),
        )
    }
}

/// Parsing `args` from position `i` on, having seen `seen`: help stops with
/// no request, the first error stops with its message.
pub open spec fn parse_from(args: Seq<Seq<char>>, i: int, seen: ArgsSeen) -> Result<
    Option<CommandView>,
    Seq<char>,
>
    decreases args.len() - i,
{
    if i >= args.len() {
        finish_args(seen)
    } else {
        let a = args[i];
        if is_help(a) {
            Ok(None)
        } else if takes_value(a) {
            if i + 1 < args.len() {
                match apply_value(a, args[i + 1], seen) {
                    Ok(next) => parse_from(args, i + 2, next),
                    Err(e) => Err(e),
                }
            } else {
                Err(missing_value(a))
            }
        } else {
            match apply_flag(a, seen) {
                Ok(next) => parse_from(args, i + 1, next),
                Err(e) => Err(e),
            }
        }
    }
}

/// The request that a whole argument list makes.
pub open spec fn spec_parse_args(args: Seq<Seq<char>>) -> Result<Option<CommandView>, Seq<char>> {
    parse_from(args, 0, nothing_seen())
}

/// A parse result as mathematical values.
pub open spec fn command_result(r: Result<Option<Command>, String>) -> Result<
    Option<CommandView>,
    Seq<char>,
> {
    match r {
        Ok(Some(c)) => Ok(Some(c@)),
        Ok(None) => Ok(None),
        Err(e) => Err(e@),
    }
}

/// The parser's running state.
struct ArgsState {
    options: ParquetConversionOptions,
    report: Option<ReportTarget>,
    positional: Vec<String>,
}

impl View for ArgsState {
    type V = ArgsSeen;

    closed spec fn view(&self) -> ArgsSeen {
        ArgsSeen {
            options: self.options@,
            report: report_view(self.report),
            positional: strings_view(self.positional@),
        }
    }
}

fn help_flag(a: &str) -> (res: bool)
    ensures
        res == is_help(a@),
{
    str_eq(a, "-h") || str_eq(a, "--help")
}

fn value_option(a: &str) -> (res: bool)
    ensures
        res == takes_value(a@),
{
    str_eq(a, "--table-name") || str_eq(a, "--namespace") || str_eq(a, "--morsel-row-count")
        || str_eq(a, "--segment-row-count") || str_eq(a, "--compression") || str_eq(
        a,
        "--dictionary-policy",
    ) || str_eq(a, "--stats-policy") || str_eq(a, "--acceleration-policy") || str_eq(
        a,
        "--point-lookup-columns",
    ) || str_eq(a, "--cluster-columns") || str_eq(a, "--topn-columns") || str_eq(
        a,
        "--aggregate-synopsis",
    ) || str_eq(a, "--aggregate-columns") || str_eq(a, "--composite-zone") || str_eq(
        a,
        "--report",
    )
}

fn row_count(option: &str, value: &str) -> (res: Result<u32, String>)
    ensures
        text_result(res) == row_count_value(option@, value@),
{
    match parse_u32(value) {
        None => Err(concat(option, " must be a u32")),
        Some(n) => if n == 0 {
            Err(concat(option, " must be greater than zero"))
        } else {
            Ok(n)
        },
    }
}

fn set_value(a: &str, v: &str, st: &mut ArgsState) -> (res: Result<(), String>)
    ensures
        match apply_value(a@, v@, old(st)@) {
            Ok(next) => res is Ok && final(st)@ == next,
            Err(e) => res matches Err(m) && m@ == e,
        },
{
    if str_eq(a, "--table-name") {
        st.options.table_name = text(v);
    } else if str_eq(a, "--namespace") {
        st.options.namespace = text(v);
    } else if str_eq(a, "--morsel-row-count") {
        match row_count(a, v) {
            Ok(n) => st.options.morsel_row_count = n,
            Err(e) => return Err(e),
        }
    } else if str_eq(a, "--segment-row-count") {
        match row_count(a, v) {
            Ok(n) => st.options.segment_row_count = n,
            Err(e) => return Err(e),
        }
    } else if str_eq(a, "--compression") {
        match parse_compression(v) {
            Ok(c) => st.options.page_compression = c,
            Err(e) => return Err(e),
        }
    } else if str_eq(a, "--dictionary-policy") {
        match parse_dictionary_policy(v) {
            Ok(p) => st.options.dictionary_policy = p,
            Err(e) => return Err(e),
        }
    } else if str_eq(a, "--stats-policy") {
        match parse_stats_policy(v) {
            Ok(p) => st.options.stats_policy = p,
            Err(e) => return Err(e),
        }
    } else if str_eq(a, "--acceleration-policy") {
        match parse_acceleration_policy(v) {
            Ok(p) => st.options.acceleration_policy = p,
            Err(e) => return Err(e),
        }
    } else if str_eq(a, "--point-lookup-columns") {
        st.options.point_lookup_columns = parse_csv_list(v);
    } else if str_eq(a, "--cluster-columns") {
        st.options.cluster_columns = parse_csv_list(v);
    } else if str_eq(a, "--topn-columns") {
        st.options.topn_columns = parse_csv_list(v);
    } else if str_eq(a, "--aggregate-synopsis") {
        match parse_aggregate_policy(v) {
            Ok(p) => st.options.aggregate_policy = p,
            Err(e) => return Err(e),
        }
    } else if str_eq(a, "--aggregate-columns") {
        st.options.aggregate_columns = parse_csv_list(v);
    } else if str_eq(a, "--composite-zone") {
        let group = parse_csv_list(v);
        let ghost before = st.options.composite_zone_groups@;
        st.options.composite_zone_groups.push(group);
        assert(string_groups_view(st.options.composite_zone_groups@) =~= string_groups_view(
            before,
        ).push(csv_items(v@)));
    } else if str_eq(v, "-") {
        st.report = Some(ReportTarget::Stdout);
    } else {
        st.report = Some(ReportTarget::Path(text(v)));
    }
    Ok(())
}

fn set_flag(a: &String, st: &mut ArgsState) -> (res: Result<(), String>)
    ensures
        match apply_flag(a@, old(st)@) {
            Ok(next) => res is Ok && final(st)@ == next,
            Err(e) => res matches Err(m) && m@ == e,
        },
{
    let s = a.as_str();
    if str_eq(s, "--emit-covx") {
        st.options.emit_covx = true;
    } else if str_eq(s, "--emit-covm") {
        st.options.emit_covm = true;
    } else if str_eq(s, "--stable-clustering") {
        st.options.clustering_policy = ParquetClusteringPolicy::StableClusterDeclaredColumns;
    } else if s.unicode_len() > 0 && s.get_char(0) == '-' {
        return Err(concat("unknown option ", s));
    } else {
        let ghost before = st.positional@;
        st.positional.push(a.clone());
        assert(strings_view(st.positional@) =~= strings_view(before).push(a@));
    }
    Ok(())
}

/// Parses the converter's arguments (without the program name). `Ok(None)`
/// asks for the usage text; otherwise the request, or the message of the
/// first argument that fails.
pub fn parse_args(args: Vec<String>) -> (res: Result<Option<Command>, String>)
    ensures
        command_result(res) == spec_parse_args(strings_view(args@)),
{
    let ghost all = strings_view(args@);
    let mut st = ArgsState {
        options: ParquetConversionOptions::default(),
        report: None,
        positional: Vec::new(),
    };
    assert(st@.positional =~= Seq::<Seq<char>>::empty());
    let mut i: usize = 0;
    while i < args.len()
        invariant
            all == strings_view(args@),
            i <= args.len(),
            spec_parse_args(all) == parse_from(all, i as int, st@),
        decreases args.len() - i,
    {
        let a = &args[i];
        if help_flag(a.as_str()) {
            return Ok(None);
        }
        if value_option(a.as_str()) {
            if i + 1 < args.len() {
                match set_value(a.as_str(), args[i + 1].as_str(), &mut st) {
                    Ok(()) => {},
                    Err(e) => return Err(e),
                }
                i = i + 2;
            } else {
                return Err(concat(a.as_str(), " requires a value"));
            }
        } else {
            match set_flag(a, &mut st) {
                Ok(()) => {},
                Err(e) => return Err(e),
            }
            i = i + 1;
        }
    }
    if st.positional.len() != 2 {
        return Err(text("expected <input.parquet> and <output.cove>"));
    }
    let input = st.positional[0].clone();
    let output = st.positional[1].clone();
    Ok(Some(Command { input, output, options: st.options, report: st.report }))
}

} // verus!
