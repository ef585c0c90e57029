use ratatui_vault::commands::query::{query_section, query_section_value, Status};

#[test]
fn test_query_section() {
    let haystack = "
[Section1]
[Section2]
    foz=baz 
    bar
[Section2]";
    let (status, lines) = query_section(haystack, "Section2");
    assert!(matches!(status, Status::SectionFound));
    assert_eq!(lines, vec!["foz=baz", "bar"]);
}

#[test]
fn test_query_section_value() {
    let haystack = "
[Section1]
[Section2]
    foz=baz 
    bar
[Section2]";
    let value = query_section_value(haystack, "Section2", "foz");
    assert_eq!(value.unwrap(), "baz");
}

#[test]
fn query_section_missing_section_is_found_and_empty() {
    let (status, lines) = query_section("[A]\nx=1\n", "B");
    assert!(matches!(status, Status::SectionFound));
    assert!(lines.is_empty());
}

#[test]
fn query_section_skips_blank_lines_and_stops_at_next_header() {
    let haystack = "[A]\r\n  one \r\n\r\n\ttwo\n[B]\nthree\n";
    let (_, lines) = query_section(haystack, "A");
    assert_eq!(lines, vec!["one", "two"]);
}

#[test]
fn query_section_header_must_match_whole_trimmed_line() {
    let (_, lines) = query_section("[AB]\nx\n [A] \ny\n", "A");
    assert_eq!(lines, vec!["y"]);
}

#[test]
fn query_section_value_first_match_and_exactly_one_equals() {
    let haystack = "[S]\nkey=a=b\n key = first \nkey=second\n";
    assert_eq!(query_section_value(haystack, "S", "key").unwrap(), "first");
    assert_eq!(query_section_value(haystack, "S", "other"), None);
    assert_eq!(query_section_value(haystack, "T", "key"), None);
}
