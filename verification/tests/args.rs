use ratatui_vault::args::split_line;

#[test]
fn parse_args() {
    let line = "foo --foz=baz bar --dump";
    let args = line
        .split_ascii_whitespace()
        .map(|arg| arg.to_owned())
        .collect::<Vec<_>>();
    let (positional, options) = ratatui_vault::args::parse_args(args);
    assert_eq!(options, vec![["foz", "baz"], ["dump", ""]]);
    assert_eq!(positional, vec!["foo", "bar"]);
}

#[test]
fn parse_args_splits_at_first_equals_only() {
    let args = vec!["--a=b=c".to_owned(), "-x".to_owned(), "--".to_owned(), "--=v".to_owned()];
    let (positional, options) = ratatui_vault::args::parse_args(args);
    assert_eq!(positional, vec!["-x"]);
    assert_eq!(options, vec![["a", "b=c"], ["", ""], ["", "v"]]);
}

#[test]
fn split_line_trims_key_and_value() {
    assert_eq!(split_line("  host = example.org \n"), Some(("host", "example.org")));
    assert_eq!(split_line("a=b=c"), None);
    assert_eq!(split_line("no equals"), None);
    assert_eq!(split_line("="), Some(("", "")));
}
