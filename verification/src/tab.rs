//! Per-tab bookkeeping: title, file, dirty flag, encoding and undo history.
//! The editor widget that holds the text itself lives beside it, outside.
use vstd::prelude::*;
use std::path::PathBuf;
use uuid::Uuid;
use crate::file_io::{FileEncoding, LineEnding};
use crate::text::{append_str, decimal, push_decimal, same_text};
use crate::undo::{CursorPos, History, Snap, UndoStack};

verus! {

#[verifier::external_type_specification]
#[verifier::external_body]
pub struct ExUuid(Uuid);

/// `uuid::Uuid::new_v4`: a random identifier; nothing is stated of it.
#[verifier::external_body]
fn new_tab_id() -> Uuid {
    Uuid::new_v4()
}

/// The name for the file name of the path whose bytes, as the platform
/// encodes paths (`OsStr::as_encoded_bytes`), are `path`: the last component
/// of the path when it is a normal one (`Path::file_name`), converted with
/// `OsStr::to_string_lossy`; `None` when the path ends in `..` or is a root
/// or empty.
pub uninterp spec fn file_name_text(path: Seq<u8>) -> Option<Seq<char>>;

/// The encoded bytes of `path` (`Path::as_os_str` and
/// `OsStr::as_encoded_bytes`, copied) and its file name (`Path::file_name`
/// with `OsStr::to_string_lossy`), which `file_name_text` names as a
/// function of those bytes. A file name, when there is one, is a normal path
/// component and so not empty.
#[verifier::external_body]
fn path_parts(path: &PathBuf) -> (r: (Vec<u8>, Option<String>))
    ensures
        opt_view(r.1) == file_name_text(r.0@),
        r.1 matches Some(name) ==> name@.len() > 0,
{
    let bytes = path.as_os_str().as_encoded_bytes().to_vec();
    let name = match path.file_name() {
        Some(name) => Some(name.to_string_lossy().to_string()),
        None => None,
    };
    (bytes, name)
}

/// The path of a tab's file, with its bytes as the platform encodes them
/// and its file name, both read from the path when it was given.
#[derive(Debug)]
pub struct FilePath {
    path: PathBuf,
    encoded: Vec<u8>,
    name: Option<String>,
}

impl FilePath {
    /// The path.
    pub closed spec fn path_buf(&self) -> PathBuf {
        self.path
    }

    /// The path's bytes, as the platform encodes paths.
    pub closed spec fn bytes(&self) -> Seq<u8> {
        self.encoded@
    }

    /// The file name kept is the file name of the path's bytes.
    pub closed spec fn wf(&self) -> bool {
        opt_view(self.name) == file_name_text(self.encoded@)
    }

    /// `path`, with its bytes and file name read from it.
    pub fn new(path: PathBuf) -> (r: Self)
        ensures
            r.path_buf() == path,
            r.wf(),
    {
        let (encoded, name) = path_parts(&path);
        FilePath { path, encoded, name }
    }

    /// The path.
    pub fn path(&self) -> (r: &PathBuf)
        ensures
            *r == self.path_buf(),
    {
        &self.path
    }

    /// The title of a tab for this file: its file name, or `Untitled`.
    pub fn title(&self) -> (r: String)
        requires
            self.wf(),
        ensures
            r@ == title_for(file_name_text(self.bytes())),
    {
        let name = match &self.name {
            Some(n) => {
                let mut c = String::new();
                append_str(&mut c, n.as_str());
                Some(c)
            },
            None => None,
        };
        title_from_file_name(name)
    }
}

/// The title given to a tab whose file has this name.
pub open spec fn title_for(file_name: Option<Seq<char>>) -> Seq<char> {
    match file_name {
        Some(name) => name,
        None => "Untitled"@,
    }
}

pub open spec fn opt_view(o: Option<String>) -> Option<Seq<char>> {
    match o {
        Some(s) => Some(s@),
        None => None,
    }
}

/// A tab's title from its file's name: the name, or "Untitled" without one.
pub fn title_from_file_name(file_name: Option<String>) -> (r: String)
    ensures
        r@ == title_for(opt_view(file_name)),
{
    match file_name {
        Some(name) => name,
        None => {
            let mut r = String::new();
            append_str(&mut r, "Untitled");
            r
        },
    }
}

/// Line and column as shown to the user: one-based.
pub fn cursor_position(line: usize, column: usize) -> (r: (usize, usize))
    requires
        line < usize::MAX,
        column < usize::MAX,
    ensures
        r.0 == line + 1,
        r.1 == column + 1,
{
    (line + 1, column + 1)
}

/// How the status bar shows a cursor position: `Ln {line}, Col {column}`.
pub fn position_label(line: usize, column: usize) -> (r: String)
    ensures
        r@ == "Ln "@ + decimal(line as nat) + ", Col "@ + decimal(column as nat),
{
    let mut r = String::new();
    append_str(&mut r, "Ln ");
    push_decimal(&mut r, line);
    append_str(&mut r, ", Col ");
    push_decimal(&mut r, column);
    r
}

/// One open document, apart from its text.
pub struct Tab {
    pub id: Uuid,
    pub title: String,
    pub file_path: Option<FilePath>,
    pub undo_stack: UndoStack,
    pub is_dirty: bool,
    pub encoding: FileEncoding,
    pub line_ending: LineEnding,
}

impl Tab {
    pub open spec fn wf(&self) -> bool {
        self.undo_stack.wf()
    }

    /// A new, empty, clean tab in UTF-8 with the given line ending.
    pub fn new(line_ending: LineEnding) -> (t: Self)
        ensures
            t.wf(),
            t.title@ == "Untitled"@,
            t.file_path is None,
            t.undo_stack@ == History::fresh(Seq::empty()),
            !t.is_dirty,
            t.encoding == FileEncoding::Utf8,
            t.line_ending == line_ending,
    {
        Tab {
            id: new_tab_id(),
            title: title_from_file_name(None),
            file_path: None,
            undo_stack: UndoStack::new(),
            is_dirty: false,
            encoding: FileEncoding::Utf8,
            line_ending,
        }
    }

    /// A clean tab for a file just read: titled by the file's name, its
    /// history starting from `content`.
    pub fn from_file(path: PathBuf, content: &str, encoding: FileEncoding, line_ending: LineEnding) -> (t: Self)
        ensures
            t.wf(),
            t.file_path matches Some(p) && p.path_buf() == path && p.wf() && t.title@ == title_for(
                file_name_text(p.bytes()),
            ),
            t.undo_stack@ == History::fresh(content@),
            !t.is_dirty,
            t.encoding == encoding,
            t.line_ending == line_ending,
    {
        let file = FilePath::new(path);
        let title = file.title();
        Tab {
            id: new_tab_id(),
            title,
            file_path: Some(file),
            undo_stack: UndoStack::from_text(content),
            is_dirty: false,
            encoding,
            line_ending,
        }
    }

    /// The title as the tab bar shows it: marked with `*` while unsaved.
    pub fn display_title(&self) -> (r: String)
        ensures
            r@ == if self.is_dirty {
                seq!['*'] + self.title@
            } else {
                self.title@
            },
    {
        let mut r = String::new();
        if self.is_dirty {
            append_str(&mut r, "*");
            proof {
                reveal_strlit("*");
            }
        }
        append_str(&mut r, self.title.as_str());
        r
    }

    /// Records an edit of the text (now `text`, cursor at `cursor`) in the
    /// undo history and marks the tab unsaved.
    pub fn record_edit(&mut self, text: &str, cursor: CursorPos)
        requires
            old(self).wf(),
        ensures
            final(self).wf(),
            final(self).undo_stack@ == old(self).undo_stack@.recorded(Snap { text: text@, cursor }),
            final(self).is_dirty,
            final(self).id == old(self).id,
            final(self).title == old(self).title,
            final(self).file_path == old(self).file_path,
            final(self).encoding == old(self).encoding,
            final(self).line_ending == old(self).line_ending,
    {
        let _taken = self.undo_stack.record_edit(text, cursor);
        self.is_dirty = true;
    }

    /// Takes a snapshot of the text now.
    pub fn force_snapshot(&mut self, text: &str, cursor: CursorPos)
        requires
            old(self).wf(),
        ensures
            final(self).wf(),
            final(self).undo_stack@ == old(self).undo_stack@.pushed(Snap { text: text@, cursor }),
            final(self).is_dirty == old(self).is_dirty,
            final(self).id == old(self).id,
            final(self).title == old(self).title,
            final(self).file_path == old(self).file_path,
            final(self).encoding == old(self).encoding,
            final(self).line_ending == old(self).line_ending,
    {
        self.undo_stack.push(text, cursor);
    }

    /// Steps the history back; the text to show, if there was a step back,
    /// which also marks the tab unsaved.
    pub fn undo(&mut self) -> (r: Option<String>)
        requires
            old(self).wf(),
        ensures
            final(self).wf(),
            final(self).undo_stack@ == old(self).undo_stack@.undone(),
            r is Some <==> old(self).undo_stack@.can_undo(),
            r matches Some(t) ==> t@ == old(self).undo_stack@.undo_result()->0.text,
            final(self).is_dirty == (old(self).is_dirty || r is Some),
            final(self).id == old(self).id,
            final(self).title == old(self).title,
            final(self).file_path == old(self).file_path,
            final(self).encoding == old(self).encoding,
            final(self).line_ending == old(self).line_ending,
    {
        let r = match self.undo_stack.undo() {
            Some((text, _cursor)) => {
                let mut owned = String::new();
                append_str(&mut owned, text);
                Some(owned)
            },
            None => None,
        };
        if r.is_some() {
            self.is_dirty = true;
        }
        r
    }

    /// Steps the history forward; the text to show, if there was a step,
    /// which also marks the tab unsaved.
    pub fn redo(&mut self) -> (r: Option<String>)
        requires
            old(self).wf(),
        ensures
            final(self).wf(),
            final(self).undo_stack@ == old(self).undo_stack@.redone(),
            r is Some <==> old(self).undo_stack@.can_redo(),
            r matches Some(t) ==> t@ == old(self).undo_stack@.redo_result()->0.text,
            final(self).is_dirty == (old(self).is_dirty || r is Some),
            final(self).id == old(self).id,
            final(self).title == old(self).title,
            final(self).file_path == old(self).file_path,
            final(self).encoding == old(self).encoding,
            final(self).line_ending == old(self).line_ending,
    {
        let r = match self.undo_stack.redo() {
            Some((text, _cursor)) => {
                let mut owned = String::new();
                append_str(&mut owned, text);
                Some(owned)
            },
            None => None,
        };
        if r.is_some() {
            self.is_dirty = true;
        }
        r
    }

    /// Undo as the editor performs it: the text now showing (`text`, cursor
    /// at `cursor`) is first kept as a snapshot unless it is the text of the
    /// current snapshot and no wholesale replacement came since (see
    /// `History::shown`), then the history steps back one snapshot. Returns
    /// the text to show, if there was a step back, which also marks the tab
    /// unsaved.
    pub fn undo_edit(&mut self, text: &str, cursor: CursorPos) -> (r: Option<String>)
        requires
            old(self).wf(),
        ensures
            final(self).wf(),
            final(self).undo_stack@ == old(self).undo_stack@.shown(Snap { text: text@, cursor }).undone(),
            r is Some <==> old(self).undo_stack@.shown(Snap { text: text@, cursor }).can_undo(),
            r matches Some(t) ==> t@ == old(self).undo_stack@.shown(Snap { text: text@, cursor }).undo_result()->0.text,
            final(self).is_dirty == (old(self).is_dirty || r is Some),
            final(self).id == old(self).id,
            final(self).title == old(self).title,
            final(self).file_path == old(self).file_path,
            final(self).encoding == old(self).encoding,
            final(self).line_ending == old(self).line_ending,
    {
        if self.undo_stack.is_changed() || !same_text(text, self.undo_stack.current_text()) {
            self.force_snapshot(text, cursor);
        }
        self.undo()
    }

    /// The text showing (`text`, cursor at `cursor`) is about to be replaced
    /// wholesale (by find and replace): it is taken as a snapshot first and
    /// the change is marked, so that the next undo brings it back whatever
    /// the replacement gave, and the tab is unsaved.
    pub fn replace_text(&mut self, text: &str, cursor: CursorPos)
        requires
            old(self).wf(),
        ensures
            final(self).wf(),
            final(self).undo_stack@ == old(self).undo_stack@.pushed(Snap { text: text@, cursor }).marked(),
            final(self).is_dirty,
            final(self).id == old(self).id,
            final(self).title == old(self).title,
            final(self).file_path == old(self).file_path,
            final(self).encoding == old(self).encoding,
            final(self).line_ending == old(self).line_ending,
    {
        self.force_snapshot(text, cursor);
        self.undo_stack.mark_changed();
        self.set_content();
    }

    /// The text was replaced wholesale (find and replace): unsaved now.
    pub fn set_content(&mut self)
        ensures
            final(self).is_dirty,
            final(self).undo_stack == old(self).undo_stack,
            final(self).id == old(self).id,
            final(self).title == old(self).title,
            final(self).file_path == old(self).file_path,
            final(self).encoding == old(self).encoding,
            final(self).line_ending == old(self).line_ending,
    {
        self.is_dirty = true;
    }

    /// The text was written to its file.
    pub fn mark_saved(&mut self)
        ensures
            !final(self).is_dirty,
            final(self).undo_stack == old(self).undo_stack,
            final(self).id == old(self).id,
            final(self).title == old(self).title,
            final(self).file_path == old(self).file_path,
            final(self).encoding == old(self).encoding,
            final(self).line_ending == old(self).line_ending,
    {
        self.is_dirty = false;
    }

    /// The text was written to `path`: the tab now belongs to that file,
    /// titled after its file name (`Untitled` without one), and is clean.
    pub fn mark_saved_as(&mut self, path: PathBuf)
        ensures
            !final(self).is_dirty,
            final(self).file_path matches Some(p) && p.path_buf() == path && p.wf() && final(self).title@
                == title_for(file_name_text(p.bytes())),
            final(self).undo_stack == old(self).undo_stack,
            final(self).id == old(self).id,
            final(self).encoding == old(self).encoding,
            final(self).line_ending == old(self).line_ending,
    {
        let file = FilePath::new(path);
        self.title = file.title();
        self.file_path = Some(file);
        self.mark_saved();
    }
}

} // verus!
