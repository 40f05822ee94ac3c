//! The editor's keyboard shortcuts.
use vstd::prelude::*;
use crate::text::chars_of;

verus! {

/// The key of a key press, as far as the shortcuts tell keys apart.
#[derive(Debug, Clone, PartialEq, Eq)]
pub enum KeyInput {
    /// A key that types this text.
    Character(String),
    /// The Tab key.
    Tab,
    /// Any other key.
    Other,
}

/// An editor command bound to a shortcut.
#[derive(Debug, Clone, Copy, PartialEq, Eq, Structural)]
pub enum Shortcut {
    NewTab,
    OpenFile,
    SaveFile,
    SaveFileAs,
    Undo,
    Redo,
    ToggleFindReplace,
    CloseCurrentTab,
    NextTab,
    PrevTab,
    ToggleLineNumbers,
}

/// What becomes of a key press in the editor.
#[derive(Debug, Clone, Copy, PartialEq, Eq, Structural)]
pub enum KeyBinding {
    /// The editor is not focused: the press is dropped.
    Ignored,
    /// The press triggers a command.
    Custom(Shortcut),
    /// The editor handles the press as it does by default.
    Default,
}

/// The command of Ctrl (or Cmd) with the character `c`, shift as given.
pub open spec fn char_shortcut(c: Seq<char>, shift: bool) -> Option<Shortcut> {
    if !shift {
        if c == seq!['n'] {
            Some(Shortcut::NewTab)
        } else if c == seq!['o'] {
            Some(Shortcut::OpenFile)
        } else if c == seq!['s'] {
            Some(Shortcut::SaveFile)
        } else if c == seq!['z'] {
            Some(Shortcut::Undo)
        } else if c == seq!['y'] {
            Some(Shortcut::Redo)
        } else if c == seq!['f'] || c == seq!['h'] {
            Some(Shortcut::ToggleFindReplace)
        } else if c == seq!['w'] {
            Some(Shortcut::CloseCurrentTab)
        } else if c == seq!['l'] {
            Some(Shortcut::ToggleLineNumbers)
        } else {
            None
        }
    } else {
        if c == seq!['S'] {
            Some(Shortcut::SaveFileAs)
        } else if c == seq!['Z'] {
            Some(Shortcut::Redo)
        } else {
            None
        }
    }
}

/// The command bound to a key with these modifiers, if any: only presses
/// with Ctrl (or Cmd) are bound.
pub open spec fn shortcut_for(key: KeyInput, ctrl: bool, shift: bool) -> Option<Shortcut> {
    if !ctrl {
        None
    } else {
        match key {
            KeyInput::Character(c) => char_shortcut(c@, shift),
            KeyInput::Tab => if shift {
                Some(Shortcut::PrevTab)
            } else {
                Some(Shortcut::NextTab)
            },
            KeyInput::Other => None,
        }
    }
}

/// The single character of `c`, if it has exactly one.
fn single_char(c: &String) -> (r: Option<char>)
    ensures
        r matches Some(x) ==> c@ == seq![x],
        r is None ==> c@.len() != 1,
{
    let v = chars_of(c.as_str());
    if v.len() == 1 {
        assert(v@ =~= seq![v@[0]]);
        Some(v[0])
    } else {
        None
    }
}

/// Decides what a key press does: nothing unless the editor is focused;
/// a bound command for Ctrl (Cmd) shortcuts; otherwise the default handling.
pub fn handle_key_binding(key: &KeyInput, focused: bool, ctrl: bool, shift: bool) -> (r: KeyBinding)
    ensures
        focused && !ctrl ==> r == KeyBinding::Default,
        !focused ==> r == KeyBinding::Ignored,
        r == if !focused {
            KeyBinding::Ignored
        } else {
            match shortcut_for(*key, ctrl, shift) {
                Some(s) => KeyBinding::Custom(s),
                None => KeyBinding::Default,
            }
        },
{
    if !focused {
        return KeyBinding::Ignored;
    }
    if !ctrl {
        return KeyBinding::Default;
    }
    let custom = match key {
        KeyInput::Character(c) => match single_char(c) {
            Some(x) => {
                proof {
                    assert forall|y: char| #[trigger] seq![y] == c@ <==> y == x by {
                        if seq![y] == c@ {
                            assert(seq![y][0] == c@[0]);
                        }
                    }
                }
                if !shift {
                    if x == 'n' {
                        Some(Shortcut::NewTab)
                    } else if x == 'o' {
                        Some(Shortcut::OpenFile)
                    } else if x == 's' {
                        Some(Shortcut::SaveFile)
                    } else if x == 'z' {
                        Some(Shortcut::Undo)
                    } else if x == 'y' {
                        Some(Shortcut::Redo)
                    } else if x == 'f' || x == 'h' {
                        Some(Shortcut::ToggleFindReplace)
                    } else if x == 'w' {
                        Some(Shortcut::CloseCurrentTab)
                    } else if x == 'l' {
                        Some(Shortcut::ToggleLineNumbers)
                    } else {
                        None
                    }
                } else {
                    if x == 'S' {
                        Some(Shortcut::SaveFileAs)
                    } else if x == 'Z' {
                        Some(Shortcut::Redo)
                    } else {
                        None
                    }
                }
            },
            None => {
                proof {
                    assert forall|y: char| #[trigger] seq![y] != c@ by {
                        assert(seq![y].len() == 1);
                    }
                }
                None
            },
        },
        KeyInput::Tab => if shift {
            Some(Shortcut::PrevTab)
        } else {
            Some(Shortcut::NextTab)
        },
        KeyInput::Other => None,
    };
    match custom {
        Some(s) => KeyBinding::Custom(s),
        None => KeyBinding::Default,
    }
}

/// Only presses with Ctrl (or Cmd) are bound: without it no key, shifted or
/// not, is a shortcut, and a focused editor handles the press as it does by
/// default.
pub proof fn law_shortcuts_need_ctrl(key: KeyInput, shift: bool)
    ensures
        shortcut_for(key, false, shift) is None,
{
}

} // verus!
