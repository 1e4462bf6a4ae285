use rustsnippetsutils::scan::{find_matching_line, recency_order, LogFile};

fn file(age_secs: u64, text: &str) -> LogFile {
    LogFile { age_secs, content: Some(text.to_string()) }
}

#[test]
fn empty_directory_gives_empty_text() {
    let files: Vec<LogFile> = Vec::new();
    assert_eq!(find_matching_line(&files, "x", ""), "");
    assert_eq!(find_matching_line(&files, "x", "45"), "");
}

#[test]
fn last_line_of_a_file_wins() {
    let files = vec![file(10, "alpha one\nbeta\nalpha two\nomega\n")];
    assert_eq!(find_matching_line(&files, "alpha", ""), "alpha two");
}

#[test]
fn freshest_file_wins() {
    let files = vec![
        file(500, "task old\nlater task line\n"),
        file(20, "task fresh\nnothing\n"),
        file(100, "task middle\n"),
    ];
    assert_eq!(find_matching_line(&files, "task", ""), "task fresh");
}

#[test]
fn unreadable_files_are_skipped() {
    let files = vec![
        LogFile { age_secs: 1, content: None },
        file(9, "keep this\n"),
    ];
    assert_eq!(find_matching_line(&files, "keep", ""), "keep this");
}

#[test]
fn no_match_gives_empty_text() {
    let files = vec![file(3, "a\nb\n")];
    assert_eq!(find_matching_line(&files, "zzz", ""), "");
}

#[test]
fn crlf_endings_are_dropped() {
    let files = vec![file(3, "first run\r\nsecond run\r\n")];
    assert_eq!(find_matching_line(&files, "run", ""), "second run");
}

#[test]
fn duration_replaces_leading_field() {
    let files = vec![file(3, "1:30;lift;heavy\nlift without field\n")];
    assert_eq!(find_matching_line(&files, "lift", "45"), "45:00;lift;heavy");
}

#[test]
fn duration_excludes_lines_without_clock_field() {
    let files = vec![file(3, "run;10k\nrun plain\n")];
    assert_eq!(find_matching_line(&files, "run", "2"), "");
    let files = vec![file(3, "0915;run;10k\nrun plain\n")];
    assert_eq!(find_matching_line(&files, "run", "2"), "2:00:00;run;10k");
}

#[test]
fn duration_unknown_is_kept_in_text() {
    let files = vec![file(3, "12:00;swim\n")];
    assert_eq!(find_matching_line(&files, "swim", "6"), "UNKNOWN;swim");
}

#[test]
fn repeated_search_gives_same_line() {
    let files = vec![file(7, "x 1\nx 2\n"), file(8, "x 3\n")];
    let first = find_matching_line(&files, "x", "");
    let second = find_matching_line(&files, "x", "");
    assert_eq!(first, second);
    assert_eq!(first, "x 2");
}

#[test]
fn recency_order_is_stable() {
    assert_eq!(recency_order(&vec![30, 10, 30, 5]), vec![3, 1, 0, 2]);
    assert_eq!(recency_order(&Vec::new()), Vec::<usize>::new());
}
