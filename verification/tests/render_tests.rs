use file_finder::record::{FileRecord, SearchOptions};
use file_finder::render::{format_line, human_readable_size};

fn options_none() -> SearchOptions {
    SearchOptions { date: false, size: false, human_readable: false, sort: None, content_search: false }
}

#[test]
fn zero_bytes_renders_as_zero_b() {
    assert_eq!(human_readable_size(0), "0 B");
}

#[test]
fn one_kilobyte_renders_with_two_decimals() {
    assert_eq!(human_readable_size(1024), "1.00 KB");
}

#[test]
fn one_and_a_half_kilobytes() {
    assert_eq!(human_readable_size(1536), "1.50 KB");
}

#[test]
fn one_megabyte() {
    assert_eq!(human_readable_size(1048576), "1.00 MB");
}

#[test]
fn small_sizes_keep_the_byte_unit() {
    assert_eq!(human_readable_size(1), "1.00 B");
    assert_eq!(human_readable_size(500), "500.00 B");
    assert_eq!(human_readable_size(1023), "1023.00 B");
}

#[test]
fn larger_units() {
    assert_eq!(human_readable_size(1073741824), "1.00 GB");
    assert_eq!(human_readable_size(1099511627776), "1.00 TB");
    assert_eq!(human_readable_size(1125899906842624), "1.00 PB");
}

#[test]
fn rounding_is_to_two_decimal_places() {
    // 1075 / 1024 = 1.0498...
    assert_eq!(human_readable_size(1075), "1.05 KB");
    // 2560 / 1024 = 2.5 exactly
    assert_eq!(human_readable_size(2560), "2.50 KB");
}

#[test]
fn plain_line_has_only_the_path() {
    let rec = FileRecord { path: "a/b.txt".to_string(), size: 7, modified: 0, matches_content: false };
    let line = format_line(&rec, &options_none(), true);
    assert_eq!(line, "Found: a/b.txt");
}

#[test]
fn date_column_renders_utc() {
    let rec = FileRecord { path: "a/b.txt".to_string(), size: 7, modified: 0, matches_content: false };
    let mut opts = options_none();
    opts.date = true;
    let line = format_line(&rec, &opts, true);
    assert_eq!(line, "Found: a/b.txt, Modified: 1970-01-01 00:00:00");
}

#[test]
fn date_column_renders_a_known_timestamp() {
    let rec = FileRecord { path: "x".to_string(), size: 0, modified: 1000000000, matches_content: false };
    let mut opts = options_none();
    opts.date = true;
    let line = format_line(&rec, &opts, false);
    assert_eq!(line, "Found: x, Modified: 2001-09-09 01:46:40");
}

#[test]
fn size_column_in_raw_bytes() {
    let rec = FileRecord { path: "f".to_string(), size: 2048, modified: 0, matches_content: false };
    let mut opts = options_none();
    opts.size = true;
    let line = format_line(&rec, &opts, true);
    assert_eq!(line, "Found: f, Size: 2048 bytes");
}

#[test]
fn size_column_human_readable() {
    let rec = FileRecord { path: "f".to_string(), size: 2048, modified: 0, matches_content: false };
    let mut opts = options_none();
    opts.size = true;
    opts.human_readable = true;
    let line = format_line(&rec, &opts, true);
    assert_eq!(line, "Found: f, Size: 2.00 KB");
}

#[test]
fn size_column_omitted_when_not_a_file_any_more() {
    let rec = FileRecord { path: "f".to_string(), size: 2048, modified: 0, matches_content: false };
    let mut opts = options_none();
    opts.size = true;
    let line = format_line(&rec, &opts, false);
    assert_eq!(line, "Found: f");
}

#[test]
fn content_match_indicator() {
    let rec = FileRecord { path: "f".to_string(), size: 1, modified: 0, matches_content: true };
    let mut opts = options_none();
    opts.content_search = true;
    let line = format_line(&rec, &opts, true);
    assert_eq!(line, "Found: f, Matches content");
}

#[test]
fn content_match_indicator_needs_the_option() {
    let rec = FileRecord { path: "f".to_string(), size: 1, modified: 0, matches_content: true };
    let line = format_line(&rec, &options_none(), true);
    assert_eq!(line, "Found: f");
}

#[test]
fn all_columns_together() {
    let rec = FileRecord { path: "a/b.txt".to_string(), size: 1536, modified: 0, matches_content: true };
    let opts = SearchOptions { date: true, size: true, human_readable: true, sort: None, content_search: true };
    let line = format_line(&rec, &opts, true);
    assert_eq!(line, "Found: a/b.txt, Modified: 1970-01-01 00:00:00, Size: 1.50 KB, Matches content");
}

#[test]
fn rounding_can_carry_into_the_next_whole_unit() {
    // 1048575 / 1024 = 1023.999..., which rounds up to 1024.00
    assert_eq!(human_readable_size(1048575), "1024.00 KB");
}

#[test]
fn petabytes_is_the_largest_unit_and_covers_everything_above() {
    // 1024^6 bytes stay in PB rather than moving to a seventh unit
    assert_eq!(human_readable_size(1152921504606846976), "1024.00 PB");
    assert_eq!(human_readable_size(u64::MAX), "16384.00 PB");
}
