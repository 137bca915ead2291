use rgsearch::filters::TypeFilter;
use rgsearch::guard::{deadline_from, timed_out};
use rgsearch::query::{canonical_type, parse_types, resolve_context};
use rgsearch::{OutputMode, SearchError};

#[test]
fn output_mode_parses_the_three_known_strings() {
    assert_eq!(OutputMode::from_str("content").unwrap(), OutputMode::Content);
    assert_eq!(
        OutputMode::from_str("files_with_matches").unwrap(),
        OutputMode::FilesWithMatches
    );
    assert_eq!(OutputMode::from_str("count").unwrap(), OutputMode::Count);
}

#[test]
fn output_mode_rejects_unknown_strings() {
    match OutputMode::from_str("lines").unwrap_err() {
        SearchError::InvalidOutputMode(s) => assert_eq!(s, "lines"),
        _ => panic!("expected an invalid-output-mode error"),
    }
}

#[test]
fn alias_table_maps_colloquial_names() {
    assert_eq!(canonical_type("python").unwrap(), "py");
    assert_eq!(canonical_type("javascript").unwrap(), "js");
    assert_eq!(canonical_type("rs").unwrap(), "rust");
    assert_eq!(canonical_type("yml").unwrap(), "yaml");
    assert_eq!(canonical_type("c++").unwrap(), "cpp");
    assert_eq!(canonical_type("go").unwrap(), "go");
    assert!(canonical_type("cobol").is_none());
}

#[test]
fn parse_types_maps_each_name_and_stops_at_the_first_unknown() {
    let names = vec!["python".to_string(), "markdown".to_string()];
    assert_eq!(
        parse_types(Some(&names)).unwrap(),
        vec!["py".to_string(), "md".to_string()]
    );
    let bad = vec!["python".to_string(), "fortran".to_string(), "smalltalk".to_string()];
    match parse_types(Some(&bad)).unwrap_err() {
        SearchError::UnknownFileType(n) => assert_eq!(n, "fortran"),
        _ => panic!("expected an unknown-file-type error"),
    }
    assert!(parse_types(None).unwrap().is_empty());
}

#[test]
fn combined_context_overrides_before_and_after() {
    assert_eq!(resolve_context(Some(5), None, Some(2)), (2, 2));
    assert_eq!(resolve_context(Some(3), Some(4), None), (3, 4));
    assert_eq!(resolve_context(None, None, None), (0, 0));
}

#[test]
fn deadline_is_start_plus_timeout() {
    assert_eq!(deadline_from(10, Some(5)), Some(15));
    assert_eq!(deadline_from(10, None), None);
    assert_eq!(deadline_from(u64::MAX, Some(5)), Some(u64::MAX));
}

#[test]
fn deadline_check_is_inclusive() {
    assert!(timed_out(15, Some(15)));
    assert!(timed_out(16, Some(15)));
    assert!(!timed_out(14, Some(15)));
    assert!(!timed_out(u64::MAX, None));
}

#[test]
fn unknown_canonical_name_fails_the_type_matcher_build() {
    // The alias table never emits such a name; handing one in directly
    // exercises the build failure of the type matcher itself.
    match TypeFilter::new(&vec!["zzznotatype".to_string()]) {
        Err(e) => assert!(matches!(e, SearchError::InvalidTypeConfig(_))),
        Ok(_) => panic!("expected a type-configuration error"),
    }
    assert!(TypeFilter::new(&vec!["py".to_string(), "js".to_string()]).is_ok());
}

#[test]
fn error_messages_name_the_class_and_the_cause() {
    assert_eq!(
        SearchError::InvalidOutputMode("lines".to_string()).message(),
        "Invalid output mode: lines"
    );
    assert_eq!(
        SearchError::UnknownFileType("fortran".to_string()).message(),
        "Unknown file type: fortran"
    );
    assert_eq!(
        SearchError::PathNotFound("/nowhere".to_string()).message(),
        "Path not found: /nowhere"
    );
    assert_eq!(SearchError::Timeout.message(), "search timed out");
}

#[test]
fn error_kinds_are_distinguishable() {
    assert!(SearchError::Timeout.is_timeout());
    assert!(!SearchError::PathNotFound("missing".to_string()).is_timeout());
    assert!(!SearchError::InvalidTypeConfig("broken".to_string()).is_timeout());
    assert!(matches!(
        SearchError::PathNotFound("missing".to_string()),
        SearchError::PathNotFound(_)
    ));
}
