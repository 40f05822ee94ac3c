//! Theme colour codes and the edit history of the theme dialog.
use vstd::prelude::*;
use crate::text::{
    byte_len, char_index_at_byte, char_index_of_byte, chars_of, lemma_byte_len_concat,
    lemma_byte_len_range, lemma_byte_len_take, prefix_byte_offsets, push_char,
};

verus! {

/// The colour codes shown in the theme dialog, as typed.
#[derive(Debug, Clone)]
pub struct HexFields {
    pub background: String,
    pub foreground: String,
    pub selection: String,
    pub accent: String,
    pub tab_active: String,
    pub tab_inactive: String,
    pub tab_close: String,
    pub status_bar_bg: String,
    pub status_bar_fg: String,
    pub gutter_bg: String,
    pub gutter_fg: String,
    pub find_highlight: String,
}

/// The colour settings of a theme that the dialog edits by code.
#[derive(Debug, Clone, Copy, PartialEq, Eq, Structural)]
pub enum ColorField {
    Background,
    Foreground,
    Selection,
    Accent,
    TabActive,
    TabInactive,
    TabClose,
    StatusBarBg,
    StatusBarFg,
    GutterBg,
    GutterFg,
    FindHighlight,
}

impl HexFields {
    /// The code typed for `field`.
    pub open spec fn code_of(&self, field: ColorField) -> Seq<char> {
        match field {
            ColorField::Background => self.background@,
            ColorField::Foreground => self.foreground@,
            ColorField::Selection => self.selection@,
            ColorField::Accent => self.accent@,
            ColorField::TabActive => self.tab_active@,
            ColorField::TabInactive => self.tab_inactive@,
            ColorField::TabClose => self.tab_close@,
            ColorField::StatusBarBg => self.status_bar_bg@,
            ColorField::StatusBarFg => self.status_bar_fg@,
            ColorField::GutterBg => self.gutter_bg@,
            ColorField::GutterFg => self.gutter_fg@,
            ColorField::FindHighlight => self.find_highlight@,
        }
    }

    /// Records the code typed for `field`; the other codes stay.
    pub fn set(&mut self, field: ColorField, code: String)
        ensures
            final(self).code_of(field) == code@,
            forall|other: ColorField| other != field ==> final(self).code_of(other) == old(self).code_of(other),
    {
        match field {
            ColorField::Background => self.background = code,
            ColorField::Foreground => self.foreground = code,
            ColorField::Selection => self.selection = code,
            ColorField::Accent => self.accent = code,
            ColorField::TabActive => self.tab_active = code,
            ColorField::TabInactive => self.tab_inactive = code,
            ColorField::TabClose => self.tab_close = code,
            ColorField::StatusBarBg => self.status_bar_bg = code,
            ColorField::StatusBarFg => self.status_bar_fg = code,
            ColorField::GutterBg => self.gutter_bg = code,
            ColorField::GutterFg => self.gutter_fg = code,
            ColorField::FindHighlight => self.find_highlight = code,
        }
    }
}

/// `s` without its leading `#` characters.
pub open spec fn trim_hashes(s: Seq<char>) -> Seq<char>
    decreases s.len(),
{
    if s.len() > 0 && s[0] == '#' {
        trim_hashes(s.drop_first())
    } else {
        s
    }
}

/// The value of a hexadecimal digit (either case).
pub open spec fn hex_digit_value(c: char) -> Option<int> {
    let u = c as u32;
    if 48 <= u <= 57 {
        Some(u - 48)
    } else if 97 <= u <= 102 {
        Some(u - 87)
    } else if 65 <= u <= 70 {
        Some(u - 55)
    } else {
        None
    }
}

/// The number that the hexadecimal digits `d` spell, if they all are digits.
pub open spec fn hex_number(d: Seq<char>) -> Option<int>
    decreases d.len(),
{
    if d.len() == 0 {
        Some(0)
    } else {
        match (hex_number(d.drop_last()), hex_digit_value(d.last())) {
            (Some(v), Some(x)) => Some(v * 16 + x),
            _ => None,
        }
    }
}

/// What `u8::from_str_radix(s, 16)` accepts: an optional `+`, then at least
/// one hexadecimal digit, with a value that fits a byte.
pub open spec fn radix16_u8(s: Seq<char>) -> Option<u8> {
    let digits = if s.len() > 0 && s[0] == '+' {
        s.drop_first()
    } else {
        s
    };
    if digits.len() == 0 {
        None
    } else {
        match hex_number(digits) {
            Some(v) => if v <= 255 {
                Some(v as u8)
            } else {
                None
            },
            None => None,
        }
    }
}

/// Whether reading `hex` as a colour code cuts it at a byte offset that is no
/// char boundary: the code, without leading `#`, is six bytes long and byte 2
/// is no boundary, or the first component reads and byte 4 is no boundary.
pub open spec fn hex_parse_breaks(hex: Seq<char>) -> bool {
    let t = trim_hashes(hex);
    &&& byte_len(t) == 6
    &&& match char_index_of_byte(t, 2) {
        None => true,
        Some(i) => radix16_u8(t.take(i)) is Some && char_index_of_byte(t, 4) is None,
    }
}

/// The red, green and blue bytes of a colour code `#RRGGBB`: leading `#`s are
/// dropped, the rest must be six bytes long, and each two-byte part must
/// read as a hexadecimal byte.
pub open spec fn parsed_rgb(hex: Seq<char>) -> Option<(u8, u8, u8)> {
    let t = trim_hashes(hex);
    if byte_len(t) != 6 {
        None
    } else {
        match char_index_of_byte(t, 2) {
            Some(i) => match radix16_u8(t.take(i)) {
                Some(r) => match char_index_of_byte(t, 4) {
                    Some(j) => match radix16_u8(t.subrange(i, j)) {
                        Some(g) => match radix16_u8(t.skip(j)) {
                            Some(b) => Some((r, g, b)),
                            None => None,
                        },
                        None => None,
                    },
                    None => None,
                },
                None => None,
            },
            None => None,
        }
    }
}

pub proof fn lemma_chars_le_bytes(s: Seq<char>)
    ensures
        s.len() <= byte_len(s),
    decreases s.len(),
{
    if s.len() > 0 {
        lemma_chars_le_bytes(s.drop_last());
        assert(s.take(s.len() - 1) =~= s.drop_last());
        assert(s.take(s.len() as int) =~= s);
        lemma_byte_len_take(s, s.len() - 1);
        vstd::utf8::char_is_scalar(s.last());
    }
}

proof fn lemma_hex_number_prefix_none(d: Seq<char>, m: int)
    requires
        0 <= m <= d.len(),
        hex_number(d.take(m)) is None,
    ensures
        hex_number(d) is None,
    decreases d.len() - m,
{
    if m < d.len() {
        assert(d.take(m + 1).drop_last() =~= d.take(m));
        lemma_hex_number_prefix_none(d, m + 1);
    } else {
        assert(d.take(m) =~= d);
    }
}

/// The value of a hexadecimal digit.
fn hex_digit(c: char) -> (r: Option<u32>)
    ensures
        match r {
            Some(v) => hex_digit_value(c) == Some(v as int) && v < 16,
            None => hex_digit_value(c) is None,
        },
{
    let u = c as u32;
    if 48 <= u && u <= 57 {
        Some(u - 48)
    } else if 97 <= u && u <= 102 {
        Some(u - 87)
    } else if 65 <= u && u <= 70 {
        Some(u - 55)
    } else {
        None
    }
}

/// `u8::from_str_radix(t[a..b], 16).ok()` for a part of at most two chars.
fn parse_radix16(t: &Vec<char>, a: usize, b: usize) -> (r: Option<u8>)
    requires
        a <= b <= t.len(),
        b - a <= 2,
    ensures
        r == radix16_u8(t@.subrange(a as int, b as int)),
{
    let ghost s = t@.subrange(a as int, b as int);
    let mut k = a;
    if k < b && t[k] == '+' {
        k = k + 1;
    }
    let ghost digits = t@.subrange(k as int, b as int);
    assert(digits == if s.len() > 0 && s[0] == '+' {
        s.drop_first()
    } else {
        s
    });
    if k == b {
        return None;
    }
    let d0 = k;
    let mut v: u32 = 0;
    assert(digits.take(0) =~= Seq::<char>::empty());
    while k < b
        invariant
            d0 <= k <= b <= t.len(),
            b - d0 <= 2,
            digits == t@.subrange(d0 as int, b as int),
            s == t@.subrange(a as int, b as int),
            digits == if s.len() > 0 && s[0] == '+' {
                s.drop_first()
            } else {
                s
            },
            digits.len() > 0,
            hex_number(digits.take(k - d0)) == Some(v as int),
            k - d0 == 0 ==> v == 0,
            k - d0 == 1 ==> v < 16,
            k - d0 == 2 ==> v < 256,
        decreases b - k,
    {
        assert(digits.take(k - d0 + 1).drop_last() =~= digits.take(k - d0));
        assert(digits.take(k - d0 + 1).last() == t@[k as int]);
        match hex_digit(t[k]) {
            Some(x) => {
                v = v * 16 + x;
            },
            None => {
                proof {
                    lemma_hex_number_prefix_none(digits, k - d0 + 1);
                }
                return None;
            },
        }
        k = k + 1;
    }
    assert(digits.take(b - d0) =~= digits);
    Some(v as u8)
}

/// The characters of `hex` after its leading `#`s; their UTF-8 length fits a
/// `usize`.
fn trimmed_chars(hex: &str) -> (t: Vec<char>)
    ensures
        t@ == trim_hashes(hex@),
        byte_len(t@) <= usize::MAX,
{
    let all = chars_of(hex);
    let _total = crate::text::str_byte_len(hex);
    let mut start: usize = 0;
    assert(all@.skip(0) =~= all@);
    while start < all.len() && all[start] == '#'
        invariant
            start <= all.len(),
            trim_hashes(all@) == trim_hashes(all@.skip(start as int)),
        decreases all.len() - start,
    {
        assert(all@.skip(start as int).drop_first() =~= all@.skip(start + 1));
        start = start + 1;
    }
    let mut t: Vec<char> = Vec::new();
    let mut k = start;
    while k < all.len()
        invariant
            start <= k <= all.len(),
            t@ == all@.subrange(start as int, k as int),
        decreases all.len() - k,
    {
        t.push(all[k]);
        assert(t@ =~= all@.subrange(start as int, k + 1));
        k = k + 1;
    }
    assert(t@ =~= all@.skip(start as int));
    assert(trim_hashes(t@) == t@);
    proof {
        lemma_byte_len_range(all@, start as int, all.len() as int);
        assert(all@.take(all.len() as int) =~= all@);
    }
    t
}

/// Reads a colour code (see `parsed_rgb`), or `None` for the codes on which
/// that reading would cut the text off a char boundary.
pub fn checked_parse_hex_rgb(hex: &str) -> (r: Option<Option<(u8, u8, u8)>>)
    ensures
        r is None <==> hex_parse_breaks(hex@),
        r matches Some(o) ==> o == parsed_rgb(hex@),
{
    let t = trimmed_chars(hex);
    let offs = prefix_byte_offsets(&t);
    assert(t@.take(t.len() as int) =~= t@);
    if offs[t.len()] != 6 {
        return Some(None);
    }
    let i = match char_index_at_byte(&offs, Ghost(t@), 2, 0) {
        Some(i) => i,
        None => {
            return None;
        },
    };
    proof {
        lemma_chars_le_bytes(t@.take(i as int));
    }
    let red = match parse_radix16(&t, 0, i) {
        Some(x) => x,
        None => {
            assert(t@.subrange(0, i as int) =~= t@.take(i as int));
            return Some(None);
        },
    };
    assert(t@.subrange(0, i as int) =~= t@.take(i as int));
    let j = match char_index_at_byte(&offs, Ghost(t@), 4, i) {
        Some(j) => j,
        None => {
            return None;
        },
    };
    proof {
        lemma_byte_len_range(t@, i as int, j as int);
        lemma_chars_le_bytes(t@.subrange(i as int, j as int));
        lemma_byte_len_range(t@, j as int, t.len() as int);
        lemma_chars_le_bytes(t@.subrange(j as int, t.len() as int));
    }
    let green = match parse_radix16(&t, i, j) {
        Some(x) => x,
        None => {
            return Some(None);
        },
    };
    let blue = match parse_radix16(&t, j, t.len()) {
        Some(x) => x,
        None => {
            assert(t@.subrange(j as int, t.len() as int) =~= t@.skip(j as int));
            return Some(None);
        },
    };
    assert(t@.subrange(j as int, t.len() as int) =~= t@.skip(j as int));
    Some(Some((red, green, blue)))
}

/// Reads a colour code `#RRGGBB` (see `parsed_rgb`).
pub fn parse_hex_rgb(hex: &str) -> (r: Option<(u8, u8, u8)>)
    requires
        !hex_parse_breaks(hex@),
    ensures
        r == parsed_rgb(hex@),
{
    match checked_parse_hex_rgb(hex) {
        Some(o) => o,
        None => None,
    }
}

/// The uppercase hexadecimal digit for `d` below 16.
pub open spec fn hex_char(d: int) -> char {
    if d == 0 {
        '0'
    } else if d == 1 {
        '1'
    } else if d == 2 {
        '2'
    } else if d == 3 {
        '3'
    } else if d == 4 {
        '4'
    } else if d == 5 {
        '5'
    } else if d == 6 {
        '6'
    } else if d == 7 {
        '7'
    } else if d == 8 {
        '8'
    } else if d == 9 {
        '9'
    } else if d == 10 {
        'A'
    } else if d == 11 {
        'B'
    } else if d == 12 {
        'C'
    } else if d == 13 {
        'D'
    } else if d == 14 {
        'E'
    } else {
        'F'
    }
}

/// Two uppercase hexadecimal digits for a byte.
pub open spec fn hex2(v: u8) -> Seq<char> {
    seq![hex_char(v as int / 16), hex_char(v as int % 16)]
}

/// The colour code `#RRGGBB` of three bytes, in uppercase.
pub open spec fn hex_code(r: u8, g: u8, b: u8) -> Seq<char> {
    seq!['#'] + hex2(r) + hex2(g) + hex2(b)
}

pub(crate) fn hex_char_exec(d: u8) -> (c: char)
    requires
        d < 16,
    ensures
        c == hex_char(d as int),
{
    match d {
        0 => '0',
        1 => '1',
        2 => '2',
        3 => '3',
        4 => '4',
        5 => '5',
        6 => '6',
        7 => '7',
        8 => '8',
        9 => '9',
        10 => 'A',
        11 => 'B',
        12 => 'C',
        13 => 'D',
        14 => 'E',
        _ => 'F',
    }
}

/// The colour code `#RRGGBB` of three bytes, uppercase (as `{:02X}` writes).
pub fn format_hex_rgb(r: u8, g: u8, b: u8) -> (s: String)
    ensures
        s@ == hex_code(r, g, b),
{
    let mut s = String::new();
    push_char(&mut s, '#');
    push_char(&mut s, hex_char_exec(r / 16));
    push_char(&mut s, hex_char_exec(r % 16));
    push_char(&mut s, hex_char_exec(g / 16));
    push_char(&mut s, hex_char_exec(g % 16));
    push_char(&mut s, hex_char_exec(b / 16));
    push_char(&mut s, hex_char_exec(b % 16));
    assert(s@ =~= hex_code(r, g, b));
    s
}

/// Most entries the theme dialog's history keeps.
pub const DIALOG_HISTORY_LIMIT: usize = 50;

/// The abstract state of a [`DialogHistory`]: the saved states and the
/// position of the one last restored or saved.
pub ghost struct DialogStates<T> {
    pub entries: Seq<T>,
    pub pos: int,
}

impl<T> DialogStates<T> {
    pub open spec fn wf(self) -> bool {
        1 <= self.entries.len() <= DIALOG_HISTORY_LIMIT && 0 <= self.pos < self.entries.len()
    }

    /// `state` is saved after the current position, dropping what came after
    /// it and the oldest entry beyond the limit; it becomes the position.
    pub open spec fn saved(self, state: T) -> DialogStates<T> {
        let kept = self.entries.take(self.pos + 1).push(state);
        let entries = if kept.len() > DIALOG_HISTORY_LIMIT {
            kept.drop_first()
        } else {
            kept
        };
        DialogStates { entries, pos: entries.len() - 1 }
    }

    /// Undo: nothing at the first entry; at the last one, `current` is saved
    /// first (so that redo brings it back); then the position moves back one.
    pub open spec fn undone(self, current: T) -> DialogStates<T> {
        if self.pos > 0 {
            if self.pos == self.entries.len() - 1 {
                let s = self.saved(current);
                DialogStates { pos: s.pos - 1, ..s }
            } else {
                DialogStates { pos: self.pos - 1, ..self }
            }
        } else {
            self
        }
    }

    /// Redo: the position moves forward one, if it can.
    pub open spec fn redone(self) -> DialogStates<T> {
        if self.pos + 1 < self.entries.len() {
            DialogStates { pos: self.pos + 1, ..self }
        } else {
            self
        }
    }
}

/// The undo history of the theme dialog's edits.
pub struct DialogHistory<T> {
    entries: Vec<T>,
    pos: usize,
}

impl<T> View for DialogHistory<T> {
    type V = DialogStates<T>;

    closed spec fn view(&self) -> DialogStates<T> {
        DialogStates { entries: self.entries@, pos: self.pos as int }
    }
}

impl<T> DialogHistory<T> {
    /// A history holding the starting state.
    pub fn new(initial: T) -> (h: Self)
        ensures
            h@ == (DialogStates { entries: seq![initial], pos: 0 }),
            h@.wf(),
    {
        let mut entries = Vec::new();
        entries.push(initial);
        let h = DialogHistory { entries, pos: 0 };
        assert(h@.entries =~= seq![initial]);
        h
    }

    /// Saves the state before an edit (see `DialogStates::saved`).
    pub fn save(&mut self, state: T)
        requires
            old(self)@.wf(),
        ensures
            final(self)@ == old(self)@.saved(state),
            final(self)@.wf(),
    {
        self.entries.truncate(self.pos + 1);
        self.entries.push(state);
        if self.entries.len() > DIALOG_HISTORY_LIMIT {
            self.entries.remove(0);
        }
        self.pos = self.entries.len() - 1;
        assert(self@.entries =~= old(self)@.saved(state).entries);
    }

    /// Steps back (see `DialogStates::undone`); the state to restore, if
    /// there was a step back.
    pub fn undo(&mut self, current: T) -> (r: Option<&T>)
        requires
            old(self)@.wf(),
        ensures
            final(self)@ == old(self)@.undone(current),
            final(self)@.wf(),
            r is Some <==> old(self)@.pos > 0,
            r matches Some(t) ==> *t == final(self)@.entries[final(self)@.pos],
    {
        if self.pos > 0 {
            if self.pos == self.entries.len() - 1 {
                self.save(current);
            }
            self.pos = self.pos - 1;
            Some(&self.entries[self.pos])
        } else {
            None
        }
    }

    /// Steps forward (see `DialogStates::redone`); the state to restore, if
    /// there was a step forward.
    pub fn redo(&mut self) -> (r: Option<&T>)
        requires
            old(self)@.wf(),
        ensures
            final(self)@ == old(self)@.redone(),
            final(self)@.wf(),
            r is Some <==> old(self)@.pos + 1 < old(self)@.entries.len(),
            r matches Some(t) ==> *t == final(self)@.entries[final(self)@.pos],
    {
        if self.pos + 1 < self.entries.len() {
            self.pos = self.pos + 1;
            Some(&self.entries[self.pos])
        } else {
            None
        }
    }
}

proof fn lemma_hex_char_digit(d: int)
    requires
        0 <= d < 16,
    ensures
        hex_digit_value(hex_char(d)) == Some(d),
        hex_char(d) != '#',
        hex_char(d) != '+',
        (hex_char(d) as u32) < 0x80,
{
}

proof fn lemma_ascii_byte_len(u: Seq<char>, k: int)
    requires
        0 <= k <= u.len(),
        forall|i: int| 0 <= i < u.len() ==> (#[trigger] u[i] as u32) < 0x80,
    ensures
        byte_len(u.take(k)) == k,
    decreases k,
{
    if k == 0 {
        assert(u.take(0) =~= Seq::<char>::empty());
        assert(vstd::utf8::encode_utf8(Seq::<char>::empty()) =~= Seq::<u8>::empty());
    } else {
        lemma_ascii_byte_len(u, k - 1);
        lemma_byte_len_take(u, k - 1);
    }
}

proof fn lemma_hex2_reads(v: u8)
    ensures
        radix16_u8(hex2(v)) == Some(v),
{
    lemma_hex_char_digit(v as int / 16);
    lemma_hex_char_digit(v as int % 16);
    let d = hex2(v);
    assert(d.drop_last() =~= seq![hex_char(v as int / 16)]);
    assert(d.drop_last().drop_last() =~= Seq::<char>::empty());
    assert(hex_number(d.drop_last().drop_last()) == Some(0int));
    assert(d.drop_last().last() == hex_char(v as int / 16));
    assert(hex_number(d.drop_last()) == Some(0 * 16 + v as int / 16));
    assert(hex_number(d.drop_last()) == Some(v as int / 16));
    assert(hex_number(d) == Some((v as int / 16) * 16 + v as int % 16));
}

/// A colour code written by `format_hex_rgb` reads back as the same bytes.
pub proof fn law_hex_round_trip(r: u8, g: u8, b: u8)
    ensures
        !hex_parse_breaks(hex_code(r, g, b)),
        parsed_rgb(hex_code(r, g, b)) == Some((r, g, b)),
{
    let code = hex_code(r, g, b);
    let u = hex2(r) + hex2(g) + hex2(b);
    lemma_hex_char_digit(r as int / 16);
    lemma_hex_char_digit(r as int % 16);
    lemma_hex_char_digit(g as int / 16);
    lemma_hex_char_digit(g as int % 16);
    lemma_hex_char_digit(b as int / 16);
    lemma_hex_char_digit(b as int % 16);
    assert(code.drop_first() =~= u);
    assert(trim_hashes(u) == u);
    assert(trim_hashes(code) == u);
    assert forall|i: int| 0 <= i < u.len() implies (#[trigger] u[i] as u32) < 0x80 by {}
    lemma_ascii_byte_len(u, 2);
    lemma_ascii_byte_len(u, 4);
    lemma_ascii_byte_len(u, 6);
    assert(u.take(6) =~= u);
    crate::text::lemma_boundary_from_complete(u, 2, 0, 2);
    crate::text::lemma_boundary_from_complete(u, 4, 0, 4);
    assert(u.take(2) =~= hex2(r));
    assert(u.subrange(2, 4) =~= hex2(g));
    assert(u.skip(4) =~= hex2(b));
    lemma_hex2_reads(r);
    lemma_hex2_reads(g);
    lemma_hex2_reads(b);
}

/// The uppercase form of a hexadecimal digit.
pub open spec fn upper_digit(c: char) -> char {
    hex_char(hex_digit_value(c)->0)
}

/// Two hexadecimal digits (either case) read as one byte.
proof fn lemma_two_digits(d: Seq<char>)
    requires
        d.len() == 2,
        hex_digit_value(d[0]) is Some,
        hex_digit_value(d[1]) is Some,
    ensures
        radix16_u8(d) is Some,
        hex2(radix16_u8(d)->0) == seq![upper_digit(d[0]), upper_digit(d[1])],
{
    let x = hex_digit_value(d[0])->0;
    let y = hex_digit_value(d[1])->0;
    assert(d.drop_last() =~= seq![d[0]]);
    assert(d.drop_last().drop_last() =~= Seq::<char>::empty());
    assert(hex_number(d.drop_last().drop_last()) == Some(0int));
    assert(d.drop_last().last() == d[0]);
    assert(hex_number(d.drop_last()) == Some(0 * 16 + x));
    assert(d.last() == d[1]);
    assert(hex_number(d) == Some(x * 16 + y));
    let v = (x * 16 + y) as u8;
    assert(v as int / 16 == x && v as int % 16 == y) by (nonlinear_arith)
        requires
            0 <= x < 16,
            0 <= y < 16,
            v as int == x * 16 + y,
    ;
}

/// Reading a colour code of six hexadecimal digits (either case), with or
/// without a leading `#`, and writing the bytes back gives `#` and the same
/// digits in uppercase.
pub proof fn law_hex_read_then_write(digits: Seq<char>, with_hash: bool)
    requires
        digits.len() == 6,
        forall|i: int| 0 <= i < 6 ==> (#[trigger] hex_digit_value(digits[i])) is Some,
    ensures
        ({
            let code = if with_hash { seq!['#'] + digits } else { digits };
            &&& !hex_parse_breaks(code)
            &&& parsed_rgb(code) matches Some((r, g, b))
            &&& hex_code(r, g, b) == seq!['#'] + digits.map_values(|c: char| upper_digit(c))
        }),
{
    let code = if with_hash { seq!['#'] + digits } else { digits };
    assert(hex_digit_value(digits[0]) is Some);
    assert(digits[0] != '#');
    assert(trim_hashes(digits) == digits);
    if with_hash {
        assert(code.drop_first() =~= digits);
    }
    assert(trim_hashes(code) == digits);
    assert forall|i: int| 0 <= i < digits.len() implies (#[trigger] digits[i] as u32) < 0x80 by {
        assert(hex_digit_value(digits[i]) is Some);
    }
    lemma_ascii_byte_len(digits, 2);
    lemma_ascii_byte_len(digits, 4);
    lemma_ascii_byte_len(digits, 6);
    assert(digits.take(6) =~= digits);
    crate::text::lemma_boundary_from_complete(digits, 2, 0, 2);
    crate::text::lemma_boundary_from_complete(digits, 4, 0, 4);
    let p0 = digits.take(2);
    let p1 = digits.subrange(2, 4);
    let p2 = digits.skip(4);
    assert(hex_digit_value(digits[1]) is Some);
    assert(hex_digit_value(digits[2]) is Some);
    assert(hex_digit_value(digits[3]) is Some);
    assert(hex_digit_value(digits[4]) is Some);
    assert(hex_digit_value(digits[5]) is Some);
    lemma_two_digits(p0);
    lemma_two_digits(p1);
    lemma_two_digits(p2);
    let (r, g, b) = (radix16_u8(p0)->0, radix16_u8(p1)->0, radix16_u8(p2)->0);
    assert(parsed_rgb(code) == Some((r, g, b)));
    assert(hex_code(r, g, b) =~= seq!['#'] + digits.map_values(|c: char| upper_digit(c)));
}

/// Undo right after an edit restores the state from before the edit (the
/// state saved with it), and redo then brings back the edited state.
pub proof fn law_dialog_undo_after_edit<T>(s: DialogStates<T>, before: T, after: T)
    requires
        s.wf(),
    ensures
        s.saved(before).wf(),
        s.saved(before).undone(after).wf(),
        s.saved(before).undone(after).entries[s.saved(before).undone(after).pos] == before,
        s.saved(before).undone(after).redone().entries[s.saved(before).undone(after).redone().pos] == after,
{
    let s1 = s.saved(before);
    assert(s1.entries[s1.pos] == before);
    let k2 = s1.entries.push(after);
    assert(s1.entries.take(s1.pos + 1) =~= s1.entries);
    let s2 = s1.saved(after);
    assert(s2.entries[s2.pos] == after);
    assert(s2.entries[s2.pos - 1] == before) by {
        if k2.len() > DIALOG_HISTORY_LIMIT {
            assert(s2.entries[s2.pos - 1] == k2[s2.pos]);
        }
    }
}

/// Redo undoes an undo: away from the newest entry it restores the history
/// itself; at the newest entry it brings back the state that was showing.
pub proof fn law_dialog_redo_after_undo<T>(s: DialogStates<T>, current: T)
    requires
        s.wf(),
        0 < s.pos,
    ensures
        s.pos < s.entries.len() - 1 ==> s.undone(current).redone() == s,
        s.pos == s.entries.len() - 1 ==> s.undone(current).redone().entries[s.undone(current).redone().pos] == current,
        s.undone(current).redone().wf(),
{
    if s.pos == s.entries.len() - 1 {
        assert(s.entries.take(s.pos + 1) =~= s.entries);
        let k = s.entries.push(current);
        let s2 = s.saved(current);
        assert(s2.entries[s2.pos] == current);
        assert(s2.pos >= 1);
    }
}

} // verus!
