use ratatui_vault::ui::{
    editor_action, ends_prompt, modified_after, pass_phrase, save_answer, search_box_height, search_takes,
    EditorAction, KeyCode, KeyEvent,
};

fn key(key: KeyCode, ctrl: bool, alt: bool) -> KeyEvent {
    KeyEvent { key, ctrl, alt }
}

#[test]
fn editor_keys_with_search_open() {
    assert_eq!(editor_action(true, key(KeyCode::Down, false, false)), EditorAction::SearchNext);
    assert_eq!(editor_action(true, key(KeyCode::Up, true, false)), EditorAction::SearchPrevious);
    assert_eq!(editor_action(true, key(KeyCode::Enter, false, false)), EditorAction::SearchAccept);
    assert_eq!(editor_action(true, key(KeyCode::Esc, false, false)), EditorAction::SearchClose);
    assert_eq!(editor_action(true, key(KeyCode::Char('q'), true, false)), EditorAction::SearchType);
}

#[test]
fn editor_keys_with_search_closed() {
    assert_eq!(editor_action(false, key(KeyCode::Char('c'), true, false)), EditorAction::Copy);
    assert_eq!(editor_action(false, key(KeyCode::Char('c'), true, true)), EditorAction::Edit);
    assert_eq!(editor_action(false, key(KeyCode::Char('x'), true, false)), EditorAction::Cut);
    assert_eq!(editor_action(false, key(KeyCode::Char('v'), true, false)), EditorAction::Paste);
    assert_eq!(editor_action(false, key(KeyCode::Char('q'), true, true)), EditorAction::Quit);
    assert_eq!(editor_action(false, key(KeyCode::Char('f'), true, false)), EditorAction::OpenSearch);
    assert_eq!(editor_action(false, key(KeyCode::Char('f'), false, false)), EditorAction::Edit);
    assert_eq!(editor_action(false, key(KeyCode::Down, false, false)), EditorAction::Edit);
}

#[test]
fn only_edits_mark_the_document() {
    assert!(modified_after(false, EditorAction::Edit, true));
    assert!(!modified_after(false, EditorAction::Edit, false));
    assert!(!modified_after(false, EditorAction::Paste, true));
    assert!(modified_after(true, EditorAction::Cut, false));
}

#[test]
fn search_box_and_prompt_keys() {
    assert!(!search_takes(key(KeyCode::Enter, false, false)));
    assert!(!search_takes(key(KeyCode::Char('m'), true, false)));
    assert!(search_takes(key(KeyCode::Char('m'), false, false)));
    assert_eq!(search_box_height(true), 3);
    assert_eq!(search_box_height(false), 0);
    assert!(ends_prompt(key(KeyCode::Char('q'), true, false)));
    assert!(!ends_prompt(key(KeyCode::Char('q'), false, false)));
}

#[test]
fn save_answers() {
    assert_eq!(save_answer("y"), Some(true));
    assert_eq!(save_answer("n"), Some(false));
    assert_eq!(save_answer("yes"), None);
    assert_eq!(save_answer(""), None);
}

#[test]
fn pass_phrase_joins_and_trims() {
    assert_eq!(pass_phrase(&vec![" ab".to_owned(), "c d ".to_owned()]), "abc d");
    assert_eq!(pass_phrase(&vec![]), "");
}
