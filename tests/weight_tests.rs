use weight::{
    check_patterns, collect_outcomes, combine_matches, decimal_string, file_line, format_size,
    found_line, no_files_notice, select_files, summarize, summary_lines, Outcome, Summary,
};

fn sized(path: &str, size: u64) -> Outcome {
    Outcome::Sized { path: path.to_string(), size }
}

fn failed(path: &str) -> Outcome {
    Outcome::Failed { path: path.to_string(), cause: "No such file or directory".to_string() }
}

fn strings(items: &[&str]) -> Vec<String> {
    items.iter().map(|s| s.to_string()).collect()
}

fn summary_of(outcomes: &Vec<Outcome>) -> Summary {
    match summarize(outcomes) {
        Ok(s) => s,
        Err(_) => panic!("total overflowed"),
    }
}

#[test]
fn zero_renders_as_bytes() {
    assert_eq!(format_size(0), "0 B");
}

#[test]
fn exactly_one_kilobyte() {
    assert_eq!(format_size(1024), "1.00 KB");
    assert_eq!(format_size(1023), "1023 B");
}

#[test]
fn scaled_units() {
    assert_eq!(format_size(1536), "1.50 KB");
    assert_eq!(format_size(1048576), "1.00 MB");
    assert_eq!(format_size(5 * 1073741824), "5.00 GB");
    assert_eq!(format_size(1099511627776), "1.00 TB");
    assert_eq!(format_size(1024 * 1099511627776), "1024.00 TB");
    assert_eq!(format_size(u64::MAX), "16777216.00 TB");
}

#[test]
fn rounding_to_hundredths() {
    // 1.125 KB lies halfway: the even neighbour is kept.
    assert_eq!(format_size(1152), "1.12 KB");
    // 1.375 KB: halfway again, and the even neighbour is above.
    assert_eq!(format_size(1408), "1.38 KB");
    // 1023.999 KB rounds up into the next hundred.
    assert_eq!(format_size(1048575), "1024.00 KB");
    assert_eq!(format_size(1034), "1.01 KB");
}

#[test]
fn rendered_size_reads_back_within_a_hundredth() {
    let units = ["B", "KB", "MB", "GB", "TB"];
    for size in [0u64, 1, 999, 1023, 1024, 1500, 123456, 98765432, 7777777777, 5555555555555] {
        let text = format_size(size);
        let (number, unit) = text.split_once(' ').unwrap();
        let k = units.iter().position(|u| *u == unit).unwrap();
        let value: f64 = number.parse().unwrap();
        let exact = size as f64 / 1024f64.powi(k as i32);
        assert!((value - exact).abs() <= 0.01, "{} read back as {}", size, text);
        if k > 0 {
            assert!(exact < 1024.0 || k == 4);
            assert!(exact >= 1.0);
        }
    }
}

#[test]
fn decimal_digits() {
    assert_eq!(decimal_string(0), "0");
    assert_eq!(decimal_string(7), "7");
    assert_eq!(decimal_string(1024), "1024");
    assert_eq!(decimal_string(u64::MAX), "18446744073709551615");
}

#[test]
fn two_text_files_total() {
    let files = strings(&["a.txt", "b.txt"]);
    let outcomes = collect_outcomes(&files, vec![Ok(10), Ok(14)]);
    let s = summary_of(&outcomes);
    assert_eq!(s.total, 24);
    assert_eq!(s.processed, 2);
    assert_eq!(s.errors, 0);
    assert_eq!(
        summary_lines(&s),
        strings(&["--- Summary ---", "Files processed: 2", "Total size: 24 B"])
    );
}

#[test]
fn no_match_gives_notice() {
    let per_pattern: Vec<Vec<String>> = vec![Vec::new()];
    let candidates = combine_matches(&per_pattern);
    let files = select_files(&candidates, &Vec::new());
    assert!(files.is_empty());
    assert_eq!(no_files_notice(), "No files found matching the patterns");
}

#[test]
fn vanished_file_is_one_error() {
    let files = strings(&["a.txt", "gone.txt", "b.txt"]);
    let reads = vec![Ok(10), Err("No such file or directory".to_string()), Ok(14)];
    let outcomes = collect_outcomes(&files, reads);
    assert!(matches!(&outcomes[1], Outcome::Failed { path, .. } if path == "gone.txt"));
    let s = summary_of(&outcomes);
    assert_eq!(s.total, 24);
    assert_eq!(s.processed, 2);
    assert_eq!(s.errors, 1);
    assert_eq!(
        summary_lines(&s),
        strings(&["--- Summary ---", "Files processed: 2", "Errors: 1", "Total size: 24 B"])
    );
}

#[test]
fn same_file_from_two_patterns_counts_twice() {
    let per_pattern = vec![strings(&["a.txt"]), strings(&["a.txt", "b.md"])];
    let candidates = combine_matches(&per_pattern);
    assert_eq!(candidates, strings(&["a.txt", "a.txt", "b.md"]));
    let files = select_files(&candidates, &vec![true, true, true]);
    let outcomes = collect_outcomes(&files, vec![Ok(10), Ok(10), Ok(5)]);
    let s = summary_of(&outcomes);
    assert_eq!(s.total, 25);
    assert_eq!(s.processed, 3);
}

#[test]
fn counts_cover_every_file() {
    let files = strings(&["a", "b", "c", "d"]);
    let reads = vec![Ok(1), Err("denied".to_string()), Err("gone".to_string()), Ok(3)];
    let outcomes = collect_outcomes(&files, reads);
    let s = summary_of(&outcomes);
    assert_eq!(s.processed + s.errors, files.len());
    assert_eq!(s.errors, 2);
    assert_eq!(s.total, 4);
}

#[test]
fn order_does_not_change_summary() {
    let forward = vec![sized("a", 3), failed("b"), sized("c", 40)];
    let backward = vec![sized("c", 40), failed("b"), sized("a", 3)];
    let s1 = summary_of(&forward);
    let s2 = summary_of(&backward);
    assert_eq!((s1.total, s1.processed, s1.errors), (s2.total, s2.processed, s2.errors));
    assert_eq!((s1.total, s1.processed, s1.errors), (43, 2, 1));
}

#[test]
fn repeated_run_is_identical() {
    let outcomes = vec![sized("a", 3), sized("b", 2048)];
    let s1 = summary_of(&outcomes);
    let s2 = summary_of(&outcomes);
    assert_eq!((s1.total, s1.processed, s1.errors), (s2.total, s2.processed, s2.errors));
    assert_eq!(summary_lines(&s1), summary_lines(&s2));
}

#[test]
fn total_overflow_is_reported() {
    let outcomes = vec![sized("a", u64::MAX), sized("b", 1)];
    assert!(summarize(&outcomes).is_err());
    let fits = vec![sized("a", u64::MAX - 1), sized("b", 1)];
    assert_eq!(summary_of(&fits).total, u64::MAX);
}

#[test]
fn empty_outcomes_summarize_to_zero() {
    let s = summary_of(&Vec::new());
    assert_eq!((s.total, s.processed, s.errors), (0, 0, 0));
}

#[test]
fn non_files_are_dropped() {
    let candidates = strings(&["src", "a.rs", "link", "b.rs"]);
    let files = select_files(&candidates, &vec![false, true, false, true]);
    assert_eq!(files, strings(&["a.rs", "b.rs"]));
}

#[test]
fn malformed_pattern_is_reported() {
    let patterns = strings(&["*.txt", "**/*.rs", "a***b", "[x"]);
    match check_patterns(&patterns) {
        Err(e) => {
            assert_eq!(e.index, 2);
            assert_eq!(e.pattern, "a***b");
        }
        Ok(()) => panic!("malformed pattern accepted"),
    }
    assert!(check_patterns(&strings(&["[x"])).is_err());
    assert!(check_patterns(&strings(&["a**b/c"])).is_err());
}

#[test]
fn well_formed_patterns_pass() {
    assert!(check_patterns(&strings(&["*.txt", "**/*.png", "src/?.rs", "[ab].md"])).is_ok());
    assert!(check_patterns(&Vec::new()).is_ok());
}

#[test]
fn report_lines() {
    assert_eq!(file_line(&"dir/a.png".to_string(), 2560), "dir/a.png: 2.50 KB");
    assert_eq!(found_line(3), "Found 3 files, calculating sizes...");
}
