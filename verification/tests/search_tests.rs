use rgsearch::search::{SearchOutput, WalkItem};
use rgsearch::{Grep, SearchError, SearchOptions};

fn file_entry(path: &str, lines: &[&str]) -> WalkItem {
    WalkItem::Entry {
        now: 0,
        path: path.to_string(),
        is_file: true,
        lines: Some(lines.iter().map(|l| l.to_string()).collect()),
    }
}

fn content_opts() -> SearchOptions {
    SearchOptions {
        output_mode: Some("content".to_string()),
        line_numbers: Some(true),
        ..Default::default()
    }
}

fn run_content(pattern: &str, opts: SearchOptions, items: Vec<WalkItem>) -> Vec<String> {
    let g = Grep::new();
    match g.search(pattern, &opts, 0, &items).unwrap() {
        SearchOutput::Content(v) => v,
        _ => panic!("expected content output"),
    }
}

fn run_files(pattern: &str, opts: SearchOptions, items: Vec<WalkItem>) -> Vec<String> {
    let g = Grep::new();
    match g.search(pattern, &opts, 0, &items).unwrap() {
        SearchOutput::Files(v) => v,
        _ => panic!("expected files output"),
    }
}

fn run_counts(pattern: &str, opts: SearchOptions, items: Vec<WalkItem>) -> Vec<(String, u64)> {
    let g = Grep::new();
    match g.search(pattern, &opts, 0, &items).unwrap() {
        SearchOutput::Counts(v) => v.into_iter().map(|c| (c.path, c.count)).collect(),
        _ => panic!("expected count output"),
    }
}

#[test]
fn content_context_merges_into_one_range() {
    // Matches on lines 2 and 4 of 6, before=1/after=1: one merged range,
    // lines 1 through 5, no separator inside the file.
    let mut opts = content_opts();
    opts.before = Some(1);
    opts.after = Some(1);
    let items = vec![file_entry("f.txt", &["l1", "foo2", "l3", "foo4", "l5", "l6"])];
    let out = run_content("foo", opts, items);
    assert_eq!(
        out,
        vec![
            "f.txt-1:l1".to_string(),
            "f.txt:2:foo2".to_string(),
            "f.txt-3:l3".to_string(),
            "f.txt:4:foo4".to_string(),
            "f.txt-5:l5".to_string(),
        ]
    );
}

#[test]
fn content_far_matches_split_with_separator() {
    // Matches on lines 1 and 6 with zero context: two single-line ranges
    // joined by one `--`.
    let items = vec![file_entry("f.txt", &["foo1", "l2", "l3", "l4", "l5", "foo6"])];
    let out = run_content("foo", content_opts(), items);
    assert_eq!(
        out,
        vec![
            "f.txt:1:foo1".to_string(),
            "--".to_string(),
            "f.txt:6:foo6".to_string(),
        ]
    );
}

#[test]
fn content_gap_of_one_line_still_merges() {
    // Matches on lines 2 and 4 with zero context: exactly one non-matching
    // line between them, so one range and no separator.
    let items = vec![file_entry("f.txt", &["l1", "foo2", "l3", "foo4", "l5"])];
    let out = run_content("foo", content_opts(), items);
    assert_eq!(
        out,
        vec!["f.txt:2:foo2".to_string(), "f.txt:4:foo4".to_string()]
    );
}

#[test]
fn content_gap_of_two_lines_splits() {
    // Matches on lines 2 and 5 with zero context: two non-matching lines
    // between them, so two ranges joined by `--`.
    let items = vec![file_entry("f.txt", &["l1", "foo2", "l3", "l4", "foo5"])];
    let out = run_content("foo", content_opts(), items);
    assert_eq!(
        out,
        vec![
            "f.txt:2:foo2".to_string(),
            "--".to_string(),
            "f.txt:5:foo5".to_string(),
        ]
    );
}

#[test]
fn content_match_status_is_sticky() {
    // Line 4 is a match for one record and before-context for the record of
    // line 5: it must render as a match, never as context.
    let mut opts = content_opts();
    opts.before = Some(1);
    let items = vec![file_entry("f.txt", &["l1", "l2", "l3", "foo4", "foo5"])];
    let out = run_content("foo", opts, items);
    assert_eq!(
        out,
        vec![
            "f.txt-3:l3".to_string(),
            "f.txt:4:foo4".to_string(),
            "f.txt:5:foo5".to_string(),
        ]
    );
}

#[test]
fn content_without_line_numbers_is_uniform() {
    let mut opts = content_opts();
    opts.line_numbers = Some(false);
    opts.before = Some(1);
    let items = vec![file_entry("f.txt", &["l1", "foo2"])];
    let out = run_content("foo", opts, items);
    assert_eq!(out, vec!["f.txt:l1".to_string(), "f.txt:foo2".to_string()]);
}

#[test]
fn content_renders_two_digit_line_numbers() {
    let lines: Vec<String> = (1..=12)
        .map(|i| if i == 12 { "foo12".to_string() } else { format!("l{}", i) })
        .collect();
    let refs: Vec<&str> = lines.iter().map(|s| s.as_str()).collect();
    let items = vec![file_entry("f.txt", &refs)];
    let out = run_content("foo", content_opts(), items);
    assert_eq!(out, vec!["f.txt:12:foo12".to_string()]);
}

#[test]
fn content_separator_between_files() {
    let items = vec![
        file_entry("a.txt", &["foo"]),
        file_entry("b.txt", &["foo"]),
    ];
    let out = run_content("foo", content_opts(), items);
    assert_eq!(
        out,
        vec![
            "a.txt:1:foo".to_string(),
            "--".to_string(),
            "b.txt:1:foo".to_string(),
        ]
    );
}

#[test]
fn content_head_limit_counts_lines_and_separators() {
    let items = vec![
        file_entry("a.txt", &["foo"]),
        file_entry("b.txt", &["foo"]),
    ];
    let mut opts = content_opts();
    opts.head_limit = Some(2);
    let out = run_content("foo", opts, items);
    assert_eq!(out, vec!["a.txt:1:foo".to_string(), "--".to_string()]);
}

#[test]
fn content_head_limit_zero_emits_nothing() {
    let items = vec![file_entry("a.txt", &["foo"])];
    let mut opts = content_opts();
    opts.head_limit = Some(0);
    let out = run_content("foo", opts, items);
    assert!(out.is_empty());
}

#[test]
fn content_empty_file_yields_nothing() {
    let items = vec![file_entry("a.txt", &[])];
    let out = run_content("foo", content_opts(), items);
    assert!(out.is_empty());
}

#[test]
fn files_mode_is_the_default_and_deduplicates() {
    // A file matching on several lines appears once.
    let items = vec![file_entry("a.txt", &["foo", "bar", "foo"])];
    let out = run_files("foo", SearchOptions::default(), items);
    assert_eq!(out, vec!["a.txt".to_string()]);
}

#[test]
fn files_mode_head_limit_caps_distinct_paths() {
    let items = vec![
        file_entry("a.txt", &["foo"]),
        file_entry("b.txt", &["foo"]),
        file_entry("c.txt", &["foo"]),
    ];
    let mut opts = SearchOptions::default();
    opts.head_limit = Some(2);
    let out = run_files("foo", opts, items);
    assert_eq!(out.len(), 2);
}

#[test]
fn files_mode_skips_non_files_and_unreadable_files() {
    let items = vec![
        WalkItem::Entry {
            now: 0,
            path: "dir".to_string(),
            is_file: false,
            lines: None,
        },
        WalkItem::Entry {
            now: 0,
            path: "binary.bin".to_string(),
            is_file: true,
            lines: None,
        },
        file_entry("a.txt", &["foo"]),
    ];
    let out = run_files("foo", SearchOptions::default(), items);
    assert_eq!(out, vec!["a.txt".to_string()]);
}

#[test]
fn count_mode_counts_matching_lines() {
    let items = vec![file_entry("a.txt", &["foo", "bar", "foo", "foofoo"])];
    let mut opts = SearchOptions::default();
    opts.output_mode = Some("count".to_string());
    let out = run_counts("foo", opts, items);
    assert_eq!(out, vec![("a.txt".to_string(), 3)]);
}

#[test]
fn count_mode_omits_files_without_matches() {
    let items = vec![
        file_entry("a.txt", &["bar"]),
        file_entry("b.txt", &["foo"]),
    ];
    let mut opts = SearchOptions::default();
    opts.output_mode = Some("count".to_string());
    let out = run_counts("foo", opts, items);
    assert_eq!(out, vec![("b.txt".to_string(), 1)]);
}

#[test]
fn count_mode_head_limit_caps_records() {
    let items = vec![
        file_entry("a.txt", &["foo"]),
        file_entry("b.txt", &["foo"]),
    ];
    let mut opts = SearchOptions::default();
    opts.output_mode = Some("count".to_string());
    opts.head_limit = Some(1);
    let out = run_counts("foo", opts, items);
    assert_eq!(out, vec![("a.txt".to_string(), 1)]);
}

#[test]
fn case_insensitive_flag_reaches_the_engine() {
    let out = run_files(
        "foo",
        SearchOptions::default(),
        vec![file_entry("a.txt", &["FOO"])],
    );
    assert!(out.is_empty());
    let mut opts = SearchOptions::default();
    opts.case_insensitive = Some(true);
    let out = run_files("foo", opts, vec![file_entry("a.txt", &["FOO"])]);
    assert_eq!(out, vec!["a.txt".to_string()]);
}

#[test]
fn regex_patterns_are_honored() {
    let items = vec![file_entry("a.txt", &["abc", "axc", "ac"])];
    let mut opts = SearchOptions::default();
    opts.output_mode = Some("count".to_string());
    let out = run_counts("a.c", opts, items);
    assert_eq!(out, vec![("a.txt".to_string(), 2)]);
}

#[test]
fn glob_and_type_filter_combine_with_and_semantics() {
    // Glob `*.py` and type filter `js` admit no file together.
    let items = vec![
        file_entry("a.py", &["foo"]),
        file_entry("b.js", &["foo"]),
    ];
    let mut opts = SearchOptions::default();
    opts.glob = Some("*.py".to_string());
    opts.types = Some(vec!["js".to_string()]);
    let out = run_files("foo", opts, items);
    assert!(out.is_empty());
}

#[test]
fn glob_alone_selects_matching_paths() {
    let items = vec![
        file_entry("a.py", &["foo"]),
        file_entry("b.js", &["foo"]),
    ];
    let mut opts = SearchOptions::default();
    opts.glob = Some("*.py".to_string());
    let out = run_files("foo", opts, items);
    assert_eq!(out, vec!["a.py".to_string()]);
}

#[test]
fn type_filter_alone_selects_by_extension_class() {
    let items = vec![
        file_entry("a.py", &["foo"]),
        file_entry("b.js", &["foo"]),
    ];
    let mut opts = SearchOptions::default();
    opts.types = Some(vec!["js".to_string()]);
    let out = run_files("foo", opts, items);
    assert_eq!(out, vec!["b.js".to_string()]);
}

#[test]
fn type_aliases_map_to_canonical_tags() {
    // The colloquial name `python` selects `.py` files.
    let items = vec![
        file_entry("a.py", &["foo"]),
        file_entry("b.js", &["foo"]),
    ];
    let mut opts = SearchOptions::default();
    opts.types = Some(vec!["python".to_string()]);
    let out = run_files("foo", opts, items);
    assert_eq!(out, vec!["a.py".to_string()]);
}

#[test]
fn unknown_type_name_is_a_validation_error() {
    let g = Grep::new();
    let mut opts = SearchOptions::default();
    opts.types = Some(vec!["python".to_string(), "nope".to_string()]);
    let err = g.search("foo", &opts, 0, &vec![]).unwrap_err();
    match err {
        SearchError::UnknownFileType(name) => assert_eq!(name, "nope"),
        _ => panic!("expected an unknown-file-type error"),
    }
}

#[test]
fn unknown_output_mode_is_a_validation_error() {
    let g = Grep::new();
    let mut opts = SearchOptions::default();
    opts.output_mode = Some("bogus".to_string());
    let err = g.search("foo", &opts, 0, &vec![]).unwrap_err();
    match err {
        SearchError::InvalidOutputMode(s) => assert_eq!(s, "bogus"),
        _ => panic!("expected an invalid-output-mode error"),
    }
}

#[test]
fn malformed_pattern_is_rejected_before_traversal() {
    // An unbalanced group never reaches the walk: the items would match.
    let g = Grep::new();
    let items = vec![file_entry("a.txt", &["foo"])];
    let err = g.search("(foo", &SearchOptions::default(), 0, &items).unwrap_err();
    assert!(matches!(err, SearchError::InvalidPattern(_)));
}

#[test]
fn malformed_glob_is_rejected() {
    let g = Grep::new();
    let mut opts = SearchOptions::default();
    opts.glob = Some("a[".to_string());
    let err = g.search("foo", &opts, 0, &vec![]).unwrap_err();
    assert!(matches!(err, SearchError::InvalidGlob(_)));
}

#[test]
fn traversal_failure_aborts_the_call() {
    let items = vec![
        file_entry("a.txt", &["foo"]),
        WalkItem::Failure {
            now: 0,
            message: "permission denied".to_string(),
        },
        file_entry("b.txt", &["foo"]),
    ];
    let g = Grep::new();
    let err = g.search("foo", &SearchOptions::default(), 0, &items).unwrap_err();
    match err {
        SearchError::Traversal(msg) => assert_eq!(msg, "permission denied"),
        _ => panic!("expected a traversal error"),
    }
}

#[test]
fn expired_deadline_times_out_immediately() {
    // A zero timeout makes the deadline equal to the start instant; the
    // first entry's clock reading already reaches it.
    let items = vec![WalkItem::Entry {
        now: 5,
        path: "a.txt".to_string(),
        is_file: true,
        lines: Some(vec!["foo".to_string()]),
    }];
    let g = Grep::new();
    let mut opts = SearchOptions::default();
    opts.timeout_ms = Some(0);
    let err = g.search("foo", &opts, 5, &items).unwrap_err();
    assert!(err.is_timeout());
    assert!(matches!(err, SearchError::Timeout));
}

#[test]
fn unexpired_deadline_lets_the_call_finish() {
    let items = vec![WalkItem::Entry {
        now: 5,
        path: "a.txt".to_string(),
        is_file: true,
        lines: Some(vec!["foo".to_string()]),
    }];
    let g = Grep::new();
    let mut opts = SearchOptions::default();
    opts.timeout_ms = Some(10);
    let out = g.search("foo", &opts, 0, &items).unwrap();
    match out {
        SearchOutput::Files(v) => assert_eq!(v, vec!["a.txt".to_string()]),
        _ => panic!("expected files output"),
    }
}
