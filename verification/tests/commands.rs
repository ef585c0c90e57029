use ratatui_vault::commands::change;
use ratatui_vault::commands::diff::{merge, merge_texts, try_merge};
use ratatui_vault::commands::query;
use ratatui_vault::crypt::{decrypt_vault, encrypt_vault, SecretString};

#[test]
fn change_keeps_text_under_new_password() {
    let old = SecretString::new("old password".to_owned());
    let new = SecretString::new("new password".to_owned());
    let vault = encrypt_vault("[A]\nx=1\n".to_owned(), &old).unwrap();
    let changed = change::run(&vault, &old, &new).unwrap();
    assert_eq!(decrypt_vault(&changed, &new).unwrap(), "[A]\nx=1\n");
    assert!(decrypt_vault(&changed, &old).is_err());
    assert!(change::run(&vault, &new, &old).is_err());
}

#[test]
fn query_run_returns_section_lines() {
    let pw = SecretString::new("pw-pw-pw".to_owned());
    let vault = encrypt_vault("[A]\n a=1 \n[B]\nb=2\n".to_owned(), &pw).unwrap();
    assert_eq!(query::run(&vault, &pw, "A").unwrap(), vec!["a=1"]);
    assert_eq!(query::run(&vault, &pw, "C").unwrap(), Vec::<String>::new());
}

#[test]
fn merge_marks_lines_of_one_side() {
    assert_eq!(merge_texts("a\nb\nc", "a\nc\nd"), "a\n-b\nc\n+d");
    assert_eq!(merge_texts("", ""), "");
    assert_eq!(merge_texts("x\n", "x\n"), "x\n");
    assert_eq!(merge_texts("x", "x\n"), "x\n+");
}

#[test]
fn merge_decrypts_both_vaults() {
    let pw = SecretString::new("pw-pw-pw".to_owned());
    let t = encrypt_vault("one\ntwo".to_owned(), &pw).unwrap();
    let s = encrypt_vault("one\nthree".to_owned(), &pw).unwrap();
    assert_eq!(merge(&t, &s, &pw), "one\n-two\n+three");
    assert_eq!(try_merge(&t, &s, &pw).unwrap(), "one\n-two\n+three");
    let other = SecretString::new("other!!!".to_owned());
    assert_eq!(
        try_merge(&t, &s, &other).unwrap_err().0,
        "Could not decrypt file with provided pass phrase"
    );
}

#[test]
fn merge_of_a_text_with_itself_marks_nothing() {
    let text = "alpha\r\nbeta\n\ngamma\n";
    assert_eq!(merge_texts(text, text), "alpha\nbeta\n\ngamma\n");
}

#[test]
fn merge_marks_as_few_lines_as_possible() {
    // A longest common subsequence of [a, b, c, d] and [b, c, d, a] has 3 lines.
    let merged = merge_texts("a\nb\nc\nd", "b\nc\nd\na");
    let marked = merged.lines().filter(|l| l.starts_with('+') || l.starts_with('-')).count();
    assert_eq!(marked, 2);
}

#[test]
fn wrong_pass_phrase_is_passed_on() {
    let pw = SecretString::new("right one".to_owned());
    let wrong = SecretString::new("wrong one".to_owned());
    let vault = encrypt_vault("[A]\npassword=1\n".to_owned(), &pw).unwrap();
    let msg = "Could not decrypt file with provided pass phrase";
    assert_eq!(change::run(&vault, &wrong, &pw).unwrap_err().0, msg);
    assert_eq!(query::run(&vault, &wrong, "A").unwrap_err().0, msg);
}

#[test]
fn lines_of_one_side_carry_its_mark() {
    let merged = merge_texts("keep\nold", "new\nkeep");
    let lines: Vec<&str> = merged.split('\n').collect();
    assert!(lines.contains(&"+new"));
    assert!(lines.contains(&"-old"));
    assert!(lines.contains(&"keep"));
}
