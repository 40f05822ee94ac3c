use notepad::file_io::{FileEncoding, LineEnding};
use notepad::shortcuts::{handle_key_binding, KeyBinding, KeyInput, Shortcut};
use notepad::tab::{cursor_position, position_label, title_from_file_name, FilePath, Tab};
use notepad::tabs::TabList;
use notepad::undo::CursorPos;
use std::path::PathBuf;

fn at(line: usize, col: usize) -> CursorPos {
    CursorPos { line, col }
}

#[test]
fn new_tab_is_clean_and_untitled() {
    let t = Tab::new(LineEnding::Lf);
    assert_eq!(t.title, "Untitled");
    assert_eq!(t.display_title(), "Untitled");
    assert!(!t.is_dirty);
    assert!(t.file_path.is_none());
    assert_eq!(t.encoding, FileEncoding::Utf8);
    assert_eq!(t.line_ending, LineEnding::Lf);
}

#[test]
fn tab_from_file_is_titled_by_its_name() {
    let t = Tab::from_file(PathBuf::from("/tmp/notes.txt"), "hello", FileEncoding::Utf16Le, LineEnding::CrLf);
    assert_eq!(t.title, "notes.txt");
    assert_eq!(t.file_path.as_ref().map(|p| p.path().clone()), Some(PathBuf::from("/tmp/notes.txt")));
    assert_eq!(t.encoding, FileEncoding::Utf16Le);
    assert_eq!(t.line_ending, LineEnding::CrLf);
    assert!(!t.is_dirty);
}

#[test]
fn titles_from_file_names() {
    assert_eq!(title_from_file_name(Some("a.rs".to_string())), "a.rs");
    assert_eq!(title_from_file_name(None), "Untitled");
}

#[test]
fn edits_mark_the_tab_dirty_until_saved() {
    let mut t = Tab::new(LineEnding::Lf);
    t.record_edit("x", at(0, 1));
    assert!(t.is_dirty);
    assert_eq!(t.display_title(), "*Untitled");
    t.mark_saved();
    assert!(!t.is_dirty);
    t.set_content();
    assert!(t.is_dirty);
    t.mark_saved_as(PathBuf::from("/home/u/b.md"));
    assert_eq!(t.title, "b.md");
    assert!(!t.is_dirty);
    assert_eq!(t.file_path.as_ref().map(|p| p.path().clone()), Some(PathBuf::from("/home/u/b.md")));
    t.mark_saved_as(PathBuf::from("/"));
    assert_eq!(t.title, "Untitled");
}

#[test]
fn tab_undo_and_redo_hand_back_texts() {
    let mut t = Tab::from_file(PathBuf::from("f.txt"), "start", FileEncoding::Utf8, LineEnding::Lf);
    assert_eq!(t.undo(), None);
    assert!(!t.is_dirty);
    t.force_snapshot("edited", at(0, 6));
    assert_eq!(t.undo(), Some("start".to_string()));
    assert!(t.is_dirty);
    assert_eq!(t.redo(), Some("edited".to_string()));
    assert_eq!(t.redo(), None);
}

#[test]
fn cursor_positions_are_one_based() {
    assert_eq!(cursor_position(0, 0), (1, 1));
    assert_eq!(cursor_position(4, 9), (5, 10));
}

#[test]
fn tab_list_keeps_an_active_tab() {
    let mut tabs = TabList::new("a");
    tabs.open("b");
    tabs.open("c");
    assert_eq!(tabs.len(), 3);
    assert_eq!(*tabs.active(), "c");
    tabs.next();
    assert_eq!(tabs.active_index(), 0);
    tabs.prev();
    assert_eq!(tabs.active_index(), 2);
    tabs.switch_to(1);
    assert_eq!(*tabs.active(), "b");
    tabs.switch_to(7);
    assert_eq!(*tabs.active(), "b");
    tabs.close(0, "fresh");
    assert_eq!(*tabs.active(), "b");
    assert_eq!(tabs.active_index(), 0);
    tabs.close(1, "fresh");
    assert_eq!(tabs.len(), 1);
    assert_eq!(*tabs.active(), "b");
    tabs.close(5, "fresh");
    assert_eq!(tabs.len(), 1);
    tabs.close(0, "fresh");
    assert_eq!(tabs.len(), 1);
    assert_eq!(*tabs.active(), "fresh");
    assert_eq!(tabs.get(0), Some(&"fresh"));
    assert_eq!(tabs.get(1), None);
}

#[test]
fn closing_the_active_last_tab_activates_the_new_last() {
    let mut tabs = TabList::new(1);
    tabs.open(2);
    tabs.open(3);
    tabs.close(2, 0);
    assert_eq!(*tabs.active(), 2);
    *tabs.active_mut() = 20;
    assert_eq!(tabs.get(1), Some(&20));
}

fn ch(s: &str) -> KeyInput {
    KeyInput::Character(s.to_string())
}

#[test]
fn shortcuts_need_focus_and_ctrl() {
    assert_eq!(handle_key_binding(&ch("n"), false, true, false), KeyBinding::Ignored);
    assert_eq!(handle_key_binding(&ch("n"), true, false, false), KeyBinding::Default);
    assert_eq!(handle_key_binding(&ch("n"), true, true, false), KeyBinding::Custom(Shortcut::NewTab));
}

#[test]
fn every_shortcut_of_the_readme() {
    let cases = [
        ("n", false, Shortcut::NewTab),
        ("o", false, Shortcut::OpenFile),
        ("s", false, Shortcut::SaveFile),
        ("S", true, Shortcut::SaveFileAs),
        ("w", false, Shortcut::CloseCurrentTab),
        ("z", false, Shortcut::Undo),
        ("Z", true, Shortcut::Redo),
        ("y", false, Shortcut::Redo),
        ("f", false, Shortcut::ToggleFindReplace),
        ("h", false, Shortcut::ToggleFindReplace),
        ("l", false, Shortcut::ToggleLineNumbers),
    ];
    for (key, shift, expected) in cases {
        assert_eq!(handle_key_binding(&ch(key), true, true, shift), KeyBinding::Custom(expected));
    }
    assert_eq!(handle_key_binding(&KeyInput::Tab, true, true, false), KeyBinding::Custom(Shortcut::NextTab));
    assert_eq!(handle_key_binding(&KeyInput::Tab, true, true, true), KeyBinding::Custom(Shortcut::PrevTab));
}

#[test]
fn other_keys_fall_through() {
    assert_eq!(handle_key_binding(&ch("s"), true, true, true), KeyBinding::Default);
    assert_eq!(handle_key_binding(&ch("q"), true, true, false), KeyBinding::Default);
    assert_eq!(handle_key_binding(&ch("nn"), true, true, false), KeyBinding::Default);
    assert_eq!(handle_key_binding(&KeyInput::Other, true, true, false), KeyBinding::Default);
    assert_eq!(handle_key_binding(&KeyInput::Tab, true, false, false), KeyBinding::Default);
}

#[test]
fn undo_shows_the_last_snapshot_and_redo_returns() {
    let mut t = Tab::from_file(PathBuf::from("f.txt"), "start", FileEncoding::Utf8, LineEnding::Lf);
    // the text now showing was never snapshotted: undo keeps it for redo
    assert_eq!(t.undo_edit("typed", at(0, 5)), Some("start".to_string()));
    assert!(t.is_dirty);
    assert_eq!(t.redo(), Some("typed".to_string()));
    assert_eq!(t.redo(), None);
}

#[test]
fn undo_steps_back_through_every_snapshot() {
    let mut t = Tab::from_file(PathBuf::from("f.txt"), "A", FileEncoding::Utf8, LineEnding::Lf);
    t.force_snapshot("B", at(0, 1));
    t.force_snapshot("C", at(0, 1));
    assert_eq!(t.undo_edit("D", at(0, 1)), Some("C".to_string()));
    assert_eq!(t.undo_edit("C", at(0, 1)), Some("B".to_string()));
    assert_eq!(t.redo(), Some("C".to_string()));
    assert_eq!(t.redo(), Some("D".to_string()));
    assert_eq!(t.redo(), None);
    assert_eq!(t.undo_edit("D", at(0, 1)), Some("C".to_string()));
    assert_eq!(t.undo_edit("C", at(0, 1)), Some("B".to_string()));
    assert_eq!(t.undo_edit("B", at(0, 1)), Some("A".to_string()));
    assert_eq!(t.undo_edit("A", at(0, 1)), None);
}

#[test]
fn undo_with_nothing_kept_does_nothing() {
    let mut t = Tab::new(LineEnding::Lf);
    assert_eq!(t.undo_edit("", at(0, 0)), None);
    assert!(!t.is_dirty);
}

#[test]
fn replacing_text_keeps_the_text_before_for_undo() {
    let mut t = Tab::new(LineEnding::Lf);
    t.replace_text("before", at(0, 0));
    assert!(t.is_dirty);
    assert_eq!(t.undo_edit("after", at(0, 0)), Some("before".to_string()));
    assert_eq!(t.undo(), Some("".to_string()));
}

#[test]
fn the_status_bar_shows_line_and_column() {
    assert_eq!(position_label(1, 1), "Ln 1, Col 1");
    assert_eq!(position_label(120, 7), "Ln 120, Col 7");
    assert_eq!(position_label(usize::MAX, 0), format!("Ln {}, Col 0", usize::MAX));
}

#[test]
fn file_paths_give_titles() {
    assert_eq!(FilePath::new(PathBuf::from("/tmp/notes.txt")).title(), "notes.txt");
    assert_eq!(FilePath::new(PathBuf::from("dir/sub/")).title(), "sub");
    assert_eq!(FilePath::new(PathBuf::from("/")).title(), "Untitled");
    assert_eq!(FilePath::new(PathBuf::from("a/..")).title(), "Untitled");
    let t = Tab::from_file(PathBuf::from("/"), "", FileEncoding::Utf8, LineEnding::Lf);
    assert_eq!(t.title, "Untitled");
}
