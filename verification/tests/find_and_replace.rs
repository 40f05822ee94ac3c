use notepad::file_io::LineEnding;
use notepad::find_replace::{highlight_line_ranges, FindReplaceState};

fn state(term: &str, replace: &str, case_sensitive: bool) -> FindReplaceState {
    let mut s = FindReplaceState::new();
    s.search_term = term.to_string();
    s.replace_term = replace.to_string();
    s.case_sensitive = case_sensitive;
    s
}

#[test]
fn new_state_is_empty() {
    let s = FindReplaceState::new();
    assert_eq!(s.search_term, "");
    assert_eq!(s.replace_term, "");
    assert!(!s.case_sensitive);
    assert_eq!(s.match_count(), 0);
    assert_eq!(s.current_match_position(), None);
}

#[test]
fn find_all_reports_line_and_byte_column() {
    let mut s = state("cat", "", true);
    s.find_all("a cat\ncat cat", None);
    assert_eq!(s.matches, vec![(0, 2), (1, 0), (1, 4)]);
    assert_eq!(s.current_match, Some(0));
    assert_eq!(s.match_count(), 3);
}

#[test]
fn find_all_ignores_case_when_asked() {
    let mut s = state("CaT", "", false);
    s.find_all("Cat cat CAT", None);
    assert_eq!(s.matches, vec![(0, 0), (0, 4), (0, 8)]);
    let mut strict = state("CaT", "", true);
    strict.find_all("Cat cat CAT", None);
    assert_eq!(strict.match_count(), 0);
    assert_eq!(strict.current_match, None);
}

#[test]
fn find_all_with_empty_term_finds_nothing() {
    let mut s = state("", "", false);
    s.find_all("anything", Some((0, 0)));
    assert_eq!(s.match_count(), 0);
    assert_eq!(s.current_match, None);
}

#[test]
fn matches_do_not_overlap() {
    let mut s = state("aa", "", true);
    s.find_all("aaaaa", None);
    assert_eq!(s.matches, vec![(0, 0), (0, 2)]);
}

#[test]
fn columns_count_bytes() {
    let mut s = state("x", "", true);
    s.find_all("éx", None);
    assert_eq!(s.matches, vec![(0, 2)]);
}

#[test]
fn find_all_starts_at_cursor() {
    let mut s = state("ab", "", true);
    s.find_all("ab ab\nab", Some((0, 1)));
    assert_eq!(s.current_match, Some(1));
    s.find_all("ab ab\nab", Some((1, 0)));
    assert_eq!(s.current_match, Some(2));
    s.find_all("ab ab\nab", Some((5, 0)));
    assert_eq!(s.current_match, Some(0));
}

#[test]
fn next_and_prev_wrap_around() {
    let mut s = state("o", "", true);
    s.find_all("o o o", None);
    s.find_next();
    assert_eq!(s.current_match, Some(1));
    s.find_next();
    s.find_next();
    assert_eq!(s.current_match, Some(0));
    s.find_prev();
    assert_eq!(s.current_match, Some(2));
    s.find_next();
    assert_eq!(s.current_match, Some(0));
    assert_eq!(s.current_match_position(), Some((0, 0)));
}

#[test]
fn next_and_prev_without_matches_do_nothing() {
    let mut s = state("zz", "", true);
    s.find_all("abc", None);
    s.find_next();
    s.find_prev();
    assert_eq!(s.current_match, None);
}

#[test]
fn replace_current_replaces_the_current_match() {
    let mut s = state("cat", "dog", true);
    s.find_all("cat cat\ncat", None);
    s.find_next();
    assert_eq!(s.replace_current_in_text("cat cat\ncat"), Some("cat dog\ncat".to_string()));
    s.find_next();
    assert_eq!(s.replace_current_in_text("cat cat\ncat"), Some("cat cat\ndog".to_string()));
}

#[test]
fn replace_current_without_term_or_match_is_none() {
    let s = state("", "x", true);
    assert_eq!(s.replace_current_in_text("abc"), None);
    let mut t = state("q", "x", true);
    t.find_all("abc", None);
    assert_eq!(t.replace_current_in_text("abc"), None);
}

#[test]
fn replace_current_past_the_text_is_none() {
    let mut s = state("b", "x", true);
    s.matches = vec![(3, 0)];
    s.current_match = Some(0);
    assert_eq!(s.replace_current_in_text("abc"), None);
}

#[test]
fn replace_current_uses_the_byte_column_of_the_match() {
    let mut s = state("ab", "X", true);
    s.find_all("\u{e9} ab ab", None);
    assert_eq!(s.matches, vec![(0, 3), (0, 6)]);
    assert_eq!(s.replace_current_in_text("\u{e9} ab ab"), Some("\u{e9} X ab".to_string()));
    s.find_next();
    assert_eq!(s.replace_current_in_text("\u{e9} ab ab"), Some("\u{e9} ab X".to_string()));
}

#[test]
fn replace_current_where_no_match_starts_is_none() {
    let mut s = state("ab", "x", true);
    s.matches = vec![(0, 0)];
    s.current_match = Some(0);
    assert_eq!(s.replace_current_in_text("a\u{e9}"), None);
    assert_eq!(s.replace_current_in_text("abc"), Some("xc".to_string()));
}

#[test]
fn replace_current_ignoring_case_replaces_the_whole_match() {
    let mut s = state("k", "x", false);
    // the Kelvin sign lowercases to 'k' but takes three bytes
    s.find_all("\u{212a}k", None);
    assert_eq!(s.matches, vec![(0, 0), (0, 3)]);
    assert_eq!(s.replace_current_in_text("\u{212a}k"), Some("xk".to_string()));
}

#[test]
fn replace_all_with_case() {
    let s = state("ab", "X", true);
    assert_eq!(s.replace_all_in_text("ab AB ab"), "X AB X");
    assert_eq!(s.replace_all_in_text("aaab"), "aaX");
}

#[test]
fn replace_all_ignoring_case_keeps_other_text() {
    let s = state("ab", "xy", false);
    assert_eq!(s.replace_all_in_text("AB-ab-Ab"), "xy-xy-xy");
    assert_eq!(s.replace_all_in_text("nothing"), "nothing");
}

#[test]
fn replace_all_ignoring_case_cuts_the_text_itself() {
    let s = state("ab", "X", false);
    assert_eq!(s.replace_all_in_text("\u{130}abc"), "\u{130}Xc");
    let t = state("\u{130}", "I", false);
    assert_eq!(t.replace_all_in_text("a\u{130}b\u{130}"), "aIbI");
}

#[test]
fn find_all_ignoring_case_reports_columns_of_the_text() {
    let mut s = state("ab", "", false);
    s.find_all("\u{130}AB ab", None);
    assert_eq!(s.matches, vec![(0, 2), (0, 5)]);
    assert_eq!(highlight_line_ranges("\u{130}AB ab", "ab", false), vec![(2, 4), (5, 7)]);
}

#[test]
fn replace_all_with_empty_term_changes_nothing() {
    let s = state("", "X", true);
    assert_eq!(s.replace_all_in_text("keep"), "keep");
}

#[test]
fn replace_with_itself_changes_nothing() {
    let s = state("na", "na", true);
    assert_eq!(s.replace_all_in_text("banana"), "banana");
}

#[test]
fn highlight_ranges_are_byte_ranges_of_matches() {
    assert_eq!(highlight_line_ranges("an ant and", "an", true), vec![(0, 2), (3, 5), (7, 9)]);
    assert_eq!(highlight_line_ranges("ÄN än", "än", false), vec![(0, 3), (4, 7)]);
    assert_eq!(highlight_line_ranges("text", "", false), Vec::<(usize, usize)>::new());
}

#[test]
fn a_replacement_is_snapshotted_and_searched_again() {
    let mut tab = notepad::tab::Tab::new(LineEnding::Lf);
    let mut s = state("cat", "dog", true);
    s.find_all("cat and cat", Some((0, 5)));
    assert_eq!(s.current_match, Some(1));
    let new_text = s.replace_current_in_text("cat and cat").unwrap();
    assert_eq!(new_text, "cat and dog");
    s.apply_replacement(&mut tab, "cat and cat", notepad::undo::CursorPos { line: 0, col: 5 }, &new_text);
    assert_eq!(s.matches, vec![(0, 0)]);
    assert_eq!(s.current_match, Some(0));
    assert!(tab.is_dirty);
    assert_eq!(tab.undo_edit(&new_text, notepad::undo::CursorPos { line: 0, col: 0 }), Some("cat and cat".to_string()));
}

#[test]
fn the_find_bar_counts_matches() {
    let mut s = state("", "", false);
    assert_eq!(s.match_info(), "");
    s.search_term = "zz".to_string();
    s.find_all("abc", None);
    assert_eq!(s.match_info(), "No matches");
    s.search_term = "a".to_string();
    s.find_all("a a a", Some((0, 1)));
    assert_eq!(s.match_info(), "2/3");
    s.current_match = None;
    assert_eq!(s.match_info(), "0/3");
    s.find_all(&"a".repeat(12), None);
    s.current_match = Some(9);
    assert_eq!(s.match_info(), "10/12");
}

#[test]
fn undo_after_a_replacement_that_changed_nothing_gives_its_input() {
    let mut tab = notepad::tab::Tab::new(LineEnding::Lf);
    let at0 = notepad::undo::CursorPos { line: 0, col: 1 };
    tab.record_edit("a", at0);
    let mut s = state("a", "a", true);
    let new_text = s.replace_all_in_text("a");
    assert_eq!(new_text, "a");
    s.apply_replacement(&mut tab, "a", at0, &new_text);
    assert_eq!(tab.undo_edit(&new_text, at0), Some("a".to_string()));
    assert_eq!(tab.redo(), Some("a".to_string()));
    assert_eq!(tab.undo_edit("a", at0), Some("a".to_string()));
    assert_eq!(tab.undo_edit("a", at0), Some("".to_string()));
    assert_eq!(tab.undo_edit("", at0), None);
}
