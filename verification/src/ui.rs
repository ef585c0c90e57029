//! The decisions of the vault editor and the pass phrase prompt: what a key
//! does, when the document counts as modified, how a save question is
//! answered. Drawing and reading keys stay with the terminal.
use vstd::prelude::*;
use vstd::string::*;
use crate::text::{str_eq, string_views, trim, trimmed};

verus! {

/// The keys that the editor and the prompt tell apart.
#[derive(PartialEq, Eq, Structural, Clone, Copy, Debug)]
pub enum KeyCode {
    Char(char),
    Enter,
    Esc,
    Up,
    Down,
    /// Any other key.
    Other,
}

/// A key press, with its modifiers.
#[derive(PartialEq, Eq, Structural, Clone, Copy, Debug)]
pub struct KeyEvent {
    pub key: KeyCode,
    pub ctrl: bool,
    pub alt: bool,
}

/// What the editor does with a key press.
#[derive(PartialEq, Eq, Structural, Clone, Copy, Debug)]
pub enum EditorAction {
    /// Search box open: jump to the next match.
    SearchNext,
    /// Search box open: jump to the previous match.
    SearchPrevious,
    /// Search box open: jump to the first match and close the box.
    SearchAccept,
    /// Search box open: close the box.
    SearchClose,
    /// Search box open: the key goes to the search box.
    SearchType,
    /// Copy the selection to the yank buffer.
    Copy,
    /// Cut the selection to the yank buffer.
    Cut,
    /// Paste the yank buffer.
    Paste,
    /// Leave the editor.
    Quit,
    /// Open the search box.
    OpenSearch,
    /// The key goes to the document.
    Edit,
}

/// Whether `e` is `key` with Ctrl and without Alt.
pub open spec fn is_ctrl_only(e: KeyEvent, c: char) -> bool {
    e.key == KeyCode::Char(c) && e.ctrl && !e.alt
}

/// What a key press does, with the search box open or not.
pub open spec fn spec_editor_action(search_open: bool, e: KeyEvent) -> EditorAction {
    if search_open {
        match e.key {
            KeyCode::Down => EditorAction::SearchNext,
            KeyCode::Up => EditorAction::SearchPrevious,
            KeyCode::Enter => EditorAction::SearchAccept,
            KeyCode::Esc => EditorAction::SearchClose,
            _ => EditorAction::SearchType,
        }
    } else if is_ctrl_only(e, 'c') {
        EditorAction::Copy
    } else if is_ctrl_only(e, 'x') {
        EditorAction::Cut
    } else if is_ctrl_only(e, 'v') {
        EditorAction::Paste
    } else if e.key == KeyCode::Char('q') && e.ctrl {
        EditorAction::Quit
    } else if e.key == KeyCode::Char('f') && e.ctrl {
        EditorAction::OpenSearch
    } else {
        EditorAction::Edit
    }
}

/// The keys of the editor, as its status line advertises them: with the
/// search box open, Down, Up, Enter and Esc move to the next or previous
/// match, accept, or close, and any other key goes to the search box. With
/// it closed, ^Q quits and ^F opens the search (whatever Alt), ^C, ^X and ^V
/// without Alt copy, cut and paste, and a key without Ctrl goes to the
/// document.
pub open spec fn editor_keys_hold(search_open: bool, e: KeyEvent, a: EditorAction) -> bool {
    &&& (search_open && e.key == KeyCode::Down ==> a == EditorAction::SearchNext)
    &&& (search_open && e.key == KeyCode::Up ==> a == EditorAction::SearchPrevious)
    &&& (search_open && e.key == KeyCode::Enter ==> a == EditorAction::SearchAccept)
    &&& (search_open && e.key == KeyCode::Esc ==> a == EditorAction::SearchClose)
    &&& (search_open && e.key != KeyCode::Down && e.key != KeyCode::Up && e.key != KeyCode::Enter
        && e.key != KeyCode::Esc ==> a == EditorAction::SearchType)
    &&& (!search_open && e.key == KeyCode::Char('q') && e.ctrl ==> a == EditorAction::Quit)
    &&& (!search_open && e.key == KeyCode::Char('f') && e.ctrl ==> a == EditorAction::OpenSearch)
    &&& (!search_open && e.key == KeyCode::Char('c') && e.ctrl && !e.alt ==> a == EditorAction::Copy)
    &&& (!search_open && e.key == KeyCode::Char('x') && e.ctrl && !e.alt ==> a == EditorAction::Cut)
    &&& (!search_open && e.key == KeyCode::Char('v') && e.ctrl && !e.alt ==> a == EditorAction::Paste)
    &&& (!search_open && !e.ctrl ==> a == EditorAction::Edit)
}

/// The editor's keys do what they are advertised to do, for every key press.
pub proof fn lemma_editor_keys(search_open: bool, e: KeyEvent)
    ensures
        editor_keys_hold(search_open, e, spec_editor_action(search_open, e)),
{
}

/// What the editor does with the key press `event`.
pub fn editor_action(search_open: bool, event: KeyEvent) -> (a: EditorAction)
    ensures
        a == spec_editor_action(search_open, event),
        editor_keys_hold(search_open, event, a),
{
    proof {
        lemma_editor_keys(search_open, event);
    }
    if search_open {
        match event.key {
            KeyCode::Down => EditorAction::SearchNext,
            KeyCode::Up => EditorAction::SearchPrevious,
            KeyCode::Enter => EditorAction::SearchAccept,
            KeyCode::Esc => EditorAction::SearchClose,
            _ => EditorAction::SearchType,
        }
    } else {
        match event.key {
            KeyCode::Char('c') if event.ctrl && !event.alt => EditorAction::Copy,
            KeyCode::Char('x') if event.ctrl && !event.alt => EditorAction::Cut,
            KeyCode::Char('v') if event.ctrl && !event.alt => EditorAction::Paste,
            KeyCode::Char('q') if event.ctrl => EditorAction::Quit,
            KeyCode::Char('f') if event.ctrl => EditorAction::OpenSearch,
            _ => EditorAction::Edit,
        }
    }
}

/// Whether the document is modified after `action`, where `changed` tells
/// whether the text area changed the text: only keys that go to the
/// document mark it.
pub fn modified_after(modified: bool, action: EditorAction, changed: bool) -> (m: bool)
    ensures
        m == (modified || (action == EditorAction::Edit && changed)),
{
    modified || (action == EditorAction::Edit && changed)
}

/// Whether the search box takes the key press `event`: it refuses the keys
/// that would break its single line (Enter, Ctrl+M).
pub fn search_takes(event: KeyEvent) -> (b: bool)
    ensures
        b == !(event.key == KeyCode::Enter || (event.key == KeyCode::Char('m') && event.ctrl)),
{
    match event.key {
        KeyCode::Enter => false,
        KeyCode::Char('m') => !event.ctrl,
        _ => true,
    }
}

/// The height of the search box: 3 rows when open, none when closed.
pub fn search_box_height(open: bool) -> (h: u16)
    ensures
        h == (if open {
            3u16
        } else {
            0u16
        }),
{
    if open {
        3
    } else {
        0
    }
}

/// Whether the key press `event` ends the pass phrase prompt (Ctrl+Q).
pub fn ends_prompt(event: KeyEvent) -> (b: bool)
    ensures
        b == (event.key == KeyCode::Char('q') && event.ctrl),
{
    match event.key {
        KeyCode::Char('q') => event.ctrl,
        _ => false,
    }
}

/// The answer to "Save modifications (y|n)": `y` saves, `n` does not, any
/// other answer asks again (`None`).
pub fn save_answer(answer: &str) -> (r: Option<bool>)
    ensures
        r == (if answer@ == "y"@ {
            Some(true)
        } else if answer@ == "n"@ {
            Some(false)
        } else {
            None
        }),
{
    if str_eq(answer, "y") {
        Some(true)
    } else if str_eq(answer, "n") {
        Some(false)
    } else {
        None
    }
}

/// `parts` one after the other.
pub open spec fn concatenated(parts: Seq<Seq<char>>) -> Seq<char>
    decreases parts.len(),
{
    if parts.len() == 0 {
        Seq::empty()
    } else {
        concatenated(parts.drop_last()) + parts.last()
    }
}

/// The pass phrase that the prompt's lines hold: the lines joined with
/// nothing between them, then trimmed.
pub fn pass_phrase(lines: &Vec<String>) -> (phrase: String)
    ensures
        phrase@ == trimmed(concatenated(string_views(lines@))),
{
    let ghost all = string_views(lines@);
    let mut text = String::new();
    let mut i: usize = 0;
    while i < lines.len()
        invariant
            i <= lines.len(),
            all == string_views(lines@),
            text@ == concatenated(all.take(i as int)),
        decreases lines.len() - i,
    {
        text.append(lines[i].as_str());
        assert(all.take(i + 1).drop_last() =~= all.take(i as int));
        i = i + 1;
    }
    assert(all.take(lines@.len() as int) =~= all);
    trim(text.as_str()).to_owned()
}

} // verus!
