use notepad::undo::{CursorPos, UndoStack, MAX_SNAPSHOTS, SNAPSHOT_THRESHOLD};

fn pos(line: usize, col: usize) -> CursorPos {
    CursorPos { line, col }
}

#[test]
fn new_stack_has_nothing_to_undo_or_redo() {
    let mut s = UndoStack::new();
    assert!(s.undo().is_none());
    assert!(s.redo().is_none());
}

#[test]
fn undo_then_redo_returns_to_snapshot() {
    let mut s = UndoStack::from_text("a");
    s.push("ab", pos(0, 2));
    s.push("abc", pos(0, 3));
    let (t, c) = s.undo().unwrap();
    assert_eq!(t, "ab");
    assert_eq!(*c, pos(0, 2));
    let (t, c) = s.undo().unwrap();
    assert_eq!(t, "a");
    assert_eq!(*c, pos(0, 0));
    assert!(s.undo().is_none());
    let (t, _) = s.redo().unwrap();
    assert_eq!(t, "ab");
    let (t, c) = s.redo().unwrap();
    assert_eq!(t, "abc");
    assert_eq!(*c, pos(0, 3));
    assert!(s.redo().is_none());
}

#[test]
fn push_drops_redo_branch() {
    let mut s = UndoStack::from_text("one");
    s.push("two", pos(0, 3));
    s.push("three", pos(0, 5));
    assert_eq!(s.undo().unwrap().0, "two");
    s.push("four", pos(0, 4));
    assert!(s.redo().is_none());
    assert_eq!(s.undo().unwrap().0, "two");
    assert_eq!(s.undo().unwrap().0, "one");
}

#[test]
fn snapshot_every_threshold_edits() {
    let mut s = UndoStack::new();
    for i in 1..SNAPSHOT_THRESHOLD {
        assert!(!s.record_edit("x", pos(0, i)));
    }
    assert!(s.record_edit("ten edits", pos(0, 9)));
    assert!(!s.record_edit("more", pos(0, 4)));
    let (t, c) = s.undo().unwrap();
    assert_eq!(t, "");
    assert_eq!(*c, pos(0, 0));
    let (t, c) = s.redo().unwrap();
    assert_eq!(t, "ten edits");
    assert_eq!(*c, pos(0, 9));
}

#[test]
fn oldest_snapshot_is_evicted_at_capacity() {
    let mut s = UndoStack::from_text("0");
    for i in 1..=MAX_SNAPSHOTS {
        s.push(&i.to_string(), pos(0, 0));
    }
    let mut oldest = String::new();
    let mut steps = 0;
    while let Some((t, _)) = s.undo() {
        oldest = t.to_string();
        steps += 1;
    }
    assert_eq!(steps, MAX_SNAPSHOTS - 1);
    assert_eq!(oldest, "1");
}

#[test]
fn reset_forgets_history() {
    let mut s = UndoStack::from_text("a");
    s.push("b", pos(1, 1));
    s.reset("fresh");
    assert!(s.undo().is_none());
    assert!(s.redo().is_none());
    s.push("next", pos(0, 4));
    let (t, c) = s.undo().unwrap();
    assert_eq!(t, "fresh");
    assert_eq!(*c, pos(0, 0));
}
