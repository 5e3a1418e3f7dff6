use metrics::aggregate::{metrics, scan, File, Meta};
use metrics::cache::Cache;
use metrics::config::Args;
use metrics::count::{count_char_occurrences, count_pattern_occurrences};
use metrics::report::format_bytes;
use metrics::select::selects_file;

fn file(content: &str, path: &str, size: u64) -> File {
    File(content.to_string(), Meta::new(path.to_string(), size))
}

fn exts(names: &[&str]) -> Vec<String> {
    names.iter().map(|s| s.to_string()).collect()
}

#[test]
fn empty_file_has_zero_lines() {
    assert_eq!(count_char_occurrences("", '\n'), 0);
}

#[test]
fn line_count_is_newline_count() {
    assert_eq!(count_char_occurrences("x", '\n'), 0);
    assert_eq!(count_char_occurrences("x\n", '\n'), 1);
    assert_eq!(count_char_occurrences("x\ny\n", '\n'), 2);
    assert_eq!(count_char_occurrences("x\n\n\n", '\n'), 3);
    assert_eq!(count_char_occurrences("\n", '\n'), 1);
}

#[test]
fn semicolons_count_everywhere() {
    assert_eq!(count_char_occurrences("a;b;;\"c;\"", ';'), 4);
}

#[test]
fn todo_markers_counted_per_occurrence() {
    assert_eq!(
        count_pattern_occurrences("// TODO: x // TODO: y", "// TODO:"),
        2
    );
}

#[test]
fn fixme_markers_counted_per_occurrence() {
    assert_eq!(
        count_pattern_occurrences("// FIXME: a\nx// FIXME: b", "// FIXME:"),
        2
    );
    assert_eq!(count_pattern_occurrences("// TODO: a", "// FIXME:"), 0);
}

#[test]
fn pattern_matches_do_not_overlap() {
    assert_eq!(count_pattern_occurrences("aaa", "aa"), 1);
    assert_eq!(count_pattern_occurrences("aaaa", "aa"), 2);
}

#[test]
fn inner_extension_components_are_skipped() {
    assert!(selects_file("a.b.rs", &exts(&["rs"])));
    assert!(!selects_file("a.rs.b", &exts(&["rs"])));
}

#[test]
fn no_extension_is_never_selected() {
    assert!(!selects_file("a", &exts(&[""])));
    assert!(!selects_file("a", &exts(&["a"])));
    assert!(!selects_file("a", &exts(&[])));
}

#[test]
fn dot_file_has_no_extension() {
    assert!(!selects_file(".rs", &exts(&["rs"])));
}

#[test]
fn empty_extension_is_never_selected() {
    assert!(!selects_file("a.", &exts(&[""])));
}

#[test]
fn extension_match_is_case_sensitive() {
    assert!(!selects_file("a.RS", &exts(&["rs"])));
    assert!(selects_file("a.rs", &exts(&["c", "rs"])));
}

#[test]
fn bytes_below_one_kib_keep_unit_b() {
    assert_eq!(format_bytes(0), "0.00 B");
    assert_eq!(format_bytes(1023), "1023.00 B");
}

#[test]
fn kib_boundary_and_fractions() {
    assert_eq!(format_bytes(1024), "1.00 KiB");
    assert_eq!(format_bytes(1536), "1.50 KiB");
    assert_eq!(format_bytes(1048575), "1023.99 KiB");
}

#[test]
fn larger_units_scale_by_1024() {
    assert_eq!(format_bytes(1048576), "1.00 MiB");
    assert_eq!(format_bytes(1073741824), "1.00 GiB");
    assert_eq!(format_bytes(1099511627776), "1.00 TiB");
    assert_eq!(format_bytes(1125899906842624), "1.00 PiB");
}

#[test]
fn sizes_at_the_top_threshold_fall_back_to_raw_digits() {
    assert_eq!(format_bytes(1152921504606846976), "1152921504606846976");
    assert_eq!(format_bytes(u64::MAX), "18446744073709551615");
}

#[test]
fn scan_reports_per_file_counts() {
    let m = scan(&file("// TODO: a;\nb\n", "t.rs", 14));
    assert_eq!(m.line_count, 2);
    assert_eq!(m.semicolon_count, 1);
    assert_eq!(m.todo_count, 1);
    assert_eq!(m.fixme_count, 0);
    assert_eq!(m.path, "t.rs");
    assert_eq!(m.size_bytes, 14);
}

#[test]
fn scan_of_empty_file_yields_zero_lines() {
    let m = scan(&file("", "e.rs", 0));
    assert_eq!(m.line_count, 0);
    assert_eq!(m.semicolon_count, 0);
    assert_eq!(m.todo_count, 0);
    assert_eq!(m.fixme_count, 0);
}

#[test]
fn scan_counts_newline_terminated_segments() {
    assert_eq!(scan(&file("x", "a", 1)).line_count, 0);
    assert_eq!(scan(&file("x\n", "a", 2)).line_count, 1);
    assert_eq!(scan(&file("x\n\n\n", "a", 4)).line_count, 3);
}

#[test]
fn scenario_two_small_files() {
    let files = vec![file("x;\ny;\n", "a.rs", 6), file("// TODO: z\n", "b.rs", 11)];
    let m = metrics(files);
    assert_eq!(m.num_files, 2);
    assert_eq!(m.semicolons, 2);
    assert_eq!(m.todos, 1);
    assert_eq!(m.fixmes, 0);
    assert_eq!(m.newlines, 3);
    assert_eq!(m.files.num_files, 2);
    assert_eq!(m.files.total_lines, 3);
    assert_eq!(m.files.total_size, 17);
    let min = m.files.min_lines().unwrap();
    assert_eq!(min, (1, "b.rs".to_string()));
    let max = m.files.max_lines().unwrap();
    assert_eq!(max, (2, "a.rs".to_string()));
    assert_eq!(m.files.average_lines().unwrap(), 1);
    assert_eq!(m.files.min_size().unwrap(), (6, "a.rs".to_string()));
    assert_eq!(m.files.max_size().unwrap(), (11, "b.rs".to_string()));
    assert_eq!(m.files.average_size().unwrap(), 8);
}

#[test]
fn empty_dataset_reports_no_data_instead_of_crashing() {
    let m = metrics(Vec::new());
    assert_eq!(m.num_files, 0);
    assert_eq!(m.files.total_lines, 0);
    assert_eq!(m.files.total_size, 0);
    assert!(m.files.min_lines().is_none());
    assert!(m.files.max_lines().is_none());
    assert!(m.files.average_lines().is_none());
    assert!(m.files.min_size().is_none());
    assert!(m.files.max_size().is_none());
    assert!(m.files.average_size().is_none());
}

#[test]
fn totals_do_not_depend_on_traversal_order() {
    let forward = vec![
        file("x;\ny;\n", "a.rs", 6),
        file("// TODO: z\n", "b.rs", 11),
        file("a;\n// FIXME: w\n\n", "c.rs", 16),
    ];
    let backward = vec![
        file("a;\n// FIXME: w\n\n", "c.rs", 16),
        file("// TODO: z\n", "b.rs", 11),
        file("x;\ny;\n", "a.rs", 6),
    ];
    let m1 = metrics(forward);
    let m2 = metrics(backward);
    assert_eq!(m1.newlines, m2.newlines);
    assert_eq!(m1.semicolons, m2.semicolons);
    assert_eq!(m1.todos, m2.todos);
    assert_eq!(m1.fixmes, m2.fixmes);
    assert_eq!(m1.num_files, m2.num_files);
    assert_eq!(m1.files.total_lines, m2.files.total_lines);
    assert_eq!(m1.files.total_size, m2.files.total_size);
}

#[test]
fn tied_metric_values_keep_the_last_inserted_path() {
    let m = metrics(vec![file("x\n", "a.rs", 5), file("y\n", "b.rs", 5)]);
    assert_eq!(m.files.min_lines().unwrap(), (1, "b.rs".to_string()));
    assert_eq!(m.files.max_lines().unwrap(), (1, "b.rs".to_string()));
    assert_eq!(m.files.min_size().unwrap(), (5, "b.rs".to_string()));
}

#[test]
fn cache_indexes_order_their_keys() {
    let mut c = Cache::new();
    c.insert_line(3, "a.rs".to_string());
    c.insert_line(1, "b.rs".to_string());
    c.insert_line(3, "c.rs".to_string());
    assert_eq!(c.min_lines().unwrap(), (1, "b.rs".to_string()));
    assert_eq!(c.max_lines().unwrap(), (3, "c.rs".to_string()));
    c.insert_size(7, "a.rs".to_string());
    c.insert_size(2, "b.rs".to_string());
    assert_eq!(c.min_size().unwrap(), (2, "b.rs".to_string()));
    assert_eq!(c.max_size().unwrap(), (7, "a.rs".to_string()));
}

#[test]
fn averages_divide_totals_by_file_count() {
    let mut c = Cache::new();
    assert!(c.average_lines().is_none());
    assert!(c.average_size().is_none());
    c.total_lines = 7;
    c.total_size = 21;
    c.num_files = 2;
    assert_eq!(c.average_lines().unwrap(), 3);
    assert_eq!(c.average_size().unwrap(), 10);
}

#[test]
fn args_carry_the_configuration() {
    let args = Args {
        extensions: exts(&["rs"]),
        paths: vec!["src".to_string()],
    };
    assert!(selects_file("lib.rs", &args.extensions));
    assert_eq!(args.paths.len(), 1);
}
