//! Find and replace over the text of a tab.
use vstd::prelude::*;
use crate::matching::{
    char_folds, find_term, fold_seq, fold_term, folded, found_spans, lemma_found_spans_props,
    lemma_folded_with_case, match_end, pieces, span_ints, end_of_match,
};
use crate::search::{byte_position, lemma_byte_position_bounds};
use crate::tab::Tab;
use crate::undo::{CursorPos, Snap};
use crate::text::{
    append_range, append_str, byte_len, chars_of, decimal, lemma_byte_len_prefix_mono,
    prefix_byte_offsets, push_char, push_decimal, str_byte_len, string_from_range, utf8_width,
};

verus! {

/// What the find and replace bar asks for.
#[derive(Debug, Clone)]
pub enum FindReplaceMessage {
    SearchTermChanged(String),
    ReplaceTermChanged(String),
    FindNext,
    FindPrev,
    ReplaceCurrent,
    ReplaceAll,
    ToggleCaseSensitive(bool),
    Close,
}

/// Line and byte column, in `text` itself, of the start of every match of
/// `term` (see `found_spans`), first to last. Columns count UTF-8 bytes of
/// the text, not of a lowercased copy, so that they locate the match in the
/// text that is shown and replaced.
pub open spec fn found_matches(text: Seq<char>, term: Seq<char>, case_sensitive: bool) -> Seq<(int, int)> {
    found_spans(text, term, case_sensitive).map_values(|s: (int, int)| byte_position(text, s.0))
}

/// Byte ranges, in `line`, of the matches of `term` to highlight.
pub open spec fn highlight_spans(line: Seq<char>, term: Seq<char>, case_sensitive: bool) -> Seq<(int, int)> {
    found_spans(line, term, case_sensitive).map_values(
        |s: (int, int)| (byte_len(line.take(s.0)) as int, byte_len(line.take(s.1)) as int),
    )
}

pub open spec fn pairs(v: Seq<(usize, usize)>) -> Seq<(int, int)> {
    v.map_values(|m: (usize, usize)| (m.0 as int, m.1 as int))
}

pub open spec fn opt_int(o: Option<usize>) -> Option<int> {
    match o {
        Some(i) => Some(i as int),
        None => None,
    }
}

/// A match at or after the cursor, in reading order.
pub open spec fn at_or_after(m: (int, int), cursor: (int, int)) -> bool {
    m.0 > cursor.0 || (m.0 == cursor.0 && m.1 >= cursor.1)
}

/// Index of the first match from `i` on that lies at or after `cursor`.
pub open spec fn first_at_or_after(ms: Seq<(int, int)>, cursor: (int, int), i: int) -> Option<int>
    decreases ms.len() - i,
{
    if i < 0 || i >= ms.len() {
        None
    } else if at_or_after(ms[i], cursor) {
        Some(i)
    } else {
        first_at_or_after(ms, cursor, i + 1)
    }
}

/// The match made current after a search: none without matches; else the
/// first one at or after the cursor, or the first one overall.
pub open spec fn initial_match(ms: Seq<(int, int)>, cursor: Option<(usize, usize)>) -> Option<int> {
    if ms.len() == 0 {
        None
    } else {
        match cursor {
            Some(c) => match first_at_or_after(ms, (c.0 as int, c.1 as int), 0) {
                Some(i) => Some(i),
                None => Some(0),
            },
            None => Some(0),
        }
    }
}

/// The match after `current`, wrapping around.
pub open spec fn next_index(current: Option<int>, count: int) -> int {
    match current {
        Some(i) => (i + 1) % count,
        None => 0,
    }
}

/// The match before `current`, wrapping around.
pub open spec fn prev_index(current: Option<int>, count: int) -> int {
    match current {
        Some(i) => if i == 0 {
            count - 1
        } else {
            i - 1
        },
        None => count - 1,
    }
}

/// Index of the first character of `t`, from `k` on, that stands at line
/// and byte column `pos`.
pub open spec fn pos_target(t: Seq<char>, pos: (int, int), k: int) -> Option<int>
    decreases t.len() - k,
{
    if k < 0 || k >= t.len() {
        None
    } else if byte_position(t, k) == pos {
        Some(k)
    } else {
        pos_target(t, pos, k + 1)
    }
}

/// `t` with each character range in `spans` replaced by `r`, copying from
/// character `last` on.
pub open spec fn splice(t: Seq<char>, spans: Seq<(int, int)>, r: Seq<char>, last: int) -> Seq<char>
    decreases spans.len(),
{
    if spans.len() == 0 {
        t.subrange(last, t.len() as int)
    } else {
        t.subrange(last, spans[0].0) + r + splice(t, spans.drop_first(), r, spans[0].1)
    }
}

/// The text after replacing every match of `term` in `text` by `r`:
/// unchanged for an empty term; else each match found (see `found_spans`)
/// replaced, the text between matches kept as it is.
pub open spec fn replaced_all(text: Seq<char>, term: Seq<char>, r: Seq<char>, case_sensitive: bool) -> Seq<char> {
    if term.len() == 0 {
        text
    } else {
        splice(text, found_spans(text, term, case_sensitive), r, 0)
    }
}

pub open spec fn opt_chars(o: Option<String>) -> Option<Seq<char>> {
    match o {
        Some(s) => Some(s@),
        None => None,
    }
}

/// The characters of `s`, whose UTF-8 length fits a `usize`.
fn text_chars(s: &str) -> (r: Vec<char>)
    ensures
        r@ == s@,
        byte_len(r@) <= usize::MAX,
{
    let _n = str_byte_len(s);
    chars_of(s)
}

/// Byte ranges of the matches of `term` in one `line`, for highlighting.
pub fn highlight_line_ranges(line: &str, term: &str, case_sensitive: bool) -> (r: Vec<(usize, usize)>)
    ensures
        pairs(r@) == highlight_spans(line@, term@, case_sensitive),
{
    let t = text_chars(line);
    let n = chars_of(term);
    let spans = find_term(&t, &n, case_sensitive);
    let offs = prefix_byte_offsets(&t);
    proof {
        lemma_found_spans_props(t@, n@, case_sensitive);
    }
    let ghost want = highlight_spans(line@, term@, case_sensitive);
    let mut r: Vec<(usize, usize)> = Vec::new();
    let mut j: usize = 0;
    while j < spans.len()
        invariant
            j <= spans.len(),
            t@ == line@,
            n@ == term@,
            span_ints(spans@) == found_spans(t@, n@, case_sensitive),
            offs.len() == t.len() + 1,
            forall|k: int| 0 <= k <= t.len() ==> #[trigger] offs[k] == byte_len(t@.take(k)),
            forall|i: int|
                0 <= i < found_spans(t@, n@, case_sensitive).len() ==> {
                    let s = #[trigger] found_spans(t@, n@, case_sensitive)[i];
                    0 <= s.0 < s.1 <= t.len()
                },
            want == highlight_spans(line@, term@, case_sensitive),
            want.len() == spans.len(),
            pairs(r@) == want.take(j as int),
            r.len() == j,
        decreases spans.len() - j,
    {
        let (a, b) = spans[j];
        assert(span_ints(spans@)[j as int] == (a as int, b as int));
        let ghost before = r@;
        assert(found_spans(t@, n@, case_sensitive)[j as int] == (a as int, b as int));
        assert(want[j as int] == (byte_len(t@.take(a as int)) as int, byte_len(t@.take(b as int)) as int));
        r.push((offs[a], offs[b]));
        assert(pairs(r@)[j as int] == want[j as int]);
        assert(pairs(r@) =~= want.take(j + 1)) by {
            assert forall|i: int| 0 <= i < j implies pairs(r@)[i] == want.take(j + 1)[i] by {
                assert(pairs(before)[i] == want.take(j as int)[i]);
            }
        }
        j = j + 1;
    }
    assert(want.take(spans.len() as int) =~= want);
    r
}

/// What the find bar shows of a search: nothing without a search term,
/// "No matches" without matches, else the number of the current match (0
/// for none), a slash and the number of matches.
pub open spec fn match_label(term: Seq<char>, count: nat, current: Option<int>) -> Seq<char> {
    if term.len() == 0 {
        seq![]
    } else if count == 0 {
        "No matches"@
    } else {
        let shown: nat = match current {
            Some(i) => (i + 1) as nat,
            None => 0,
        };
        decimal(shown) + seq!['/'] + decimal(count)
    }
}

/// State of the find and replace bar.
pub struct FindReplaceState {
    pub search_term: String,
    pub replace_term: String,
    pub case_sensitive: bool,
    /// Line and column of each match.
    pub matches: Vec<(usize, usize)>,
    pub current_match: Option<usize>,
}

impl FindReplaceState {
    /// The current match, if any, is one of the matches.
    pub open spec fn wf(&self) -> bool {
        self.current_match matches Some(i) ==> i < self.matches.len()
    }

    /// Empty terms, case ignored, no matches.
    pub fn new() -> (s: Self)
        ensures
            s.search_term@ == Seq::<char>::empty(),
            s.replace_term@ == Seq::<char>::empty(),
            !s.case_sensitive,
            s.matches@ == Seq::<(usize, usize)>::empty(),
            s.current_match is None,
            s.wf(),
    {
        FindReplaceState {
            search_term: String::new(),
            replace_term: String::new(),
            case_sensitive: false,
            matches: Vec::new(),
            current_match: None,
        }
    }

    /// Finds every match of the search term in `text` and makes current the
    /// first match at or after `cursor` (the first match when there is none
    /// after it, or no cursor).
    pub fn find_all(&mut self, text: &str, cursor: Option<(usize, usize)>)
        ensures
            final(self).search_term == old(self).search_term,
            final(self).replace_term == old(self).replace_term,
            final(self).case_sensitive == old(self).case_sensitive,
            pairs(final(self).matches@) == found_matches(text@, old(self).search_term@, old(self).case_sensitive),
            opt_int(final(self).current_match) == initial_match(pairs(final(self).matches@), cursor),
            final(self).wf(),
    {
        self.matches.clear();
        self.current_match = None;
        let t = text_chars(text);
        let n = chars_of(self.search_term.as_str());
        let spans = find_term(&t, &n, self.case_sensitive);
        proof {
            lemma_found_spans_props(t@, n@, self.case_sensitive);
        }
        let ghost want = found_matches(text@, self.search_term@, self.case_sensitive);
        let mut line: usize = 0;
        let mut col: usize = 0;
        let mut idx: usize = 0;
        let mut j: usize = 0;
        assert(pairs(self.matches@) =~= want.take(0));
        while j < spans.len()
            invariant
                j <= spans.len(),
                t@ == text@,
                n@ == self.search_term@,
                span_ints(spans@) == found_spans(t@, n@, self.case_sensitive),
                forall|i: int|
                    0 <= i < found_spans(t@, n@, self.case_sensitive).len() ==> {
                        let s = #[trigger] found_spans(t@, n@, self.case_sensitive)[i];
                        0 <= s.0 < s.1 <= t.len()
                    },
                forall|a: int, b: int|
                    0 <= a < b < found_spans(t@, n@, self.case_sensitive).len() ==> (#[trigger] found_spans(
                        t@,
                        n@,
                        self.case_sensitive,
                    )[a]).1 <= (#[trigger] found_spans(t@, n@, self.case_sensitive)[b]).0,
                byte_len(t@) <= usize::MAX,
                idx <= t.len(),
                j == 0 ==> idx == 0,
                j > 0 ==> idx == spans[j - 1].0,
                (line as int, col as int) == byte_position(t@, idx as int),
                want == found_matches(text@, self.search_term@, self.case_sensitive),
                pairs(self.matches@) == want.take(j as int),
                self.matches.len() == j,
                want.len() == spans.len(),
                self.search_term == old(self).search_term,
                self.replace_term == old(self).replace_term,
                self.case_sensitive == old(self).case_sensitive,
                self.current_match is None,
            decreases spans.len() - j,
        {
            let target = spans[j].0;
            assert(span_ints(spans@)[j as int].0 == target);
            if j > 0 {
                assert(span_ints(spans@)[j - 1].0 == spans[j - 1].0);
                assert(found_spans(t@, n@, self.case_sensitive)[j - 1].1 <= found_spans(t@, n@, self.case_sensitive)[j as int].0);
            }
            while idx < target
                invariant
                    idx <= target <= t.len(),
                    byte_len(t@) <= usize::MAX,
                    (line as int, col as int) == byte_position(t@, idx as int),
                decreases target - idx,
            {
                proof {
                    lemma_byte_position_bounds(t@, idx + 1);
                    lemma_byte_len_prefix_mono(t@, idx + 1, t.len() as int);
                    assert(t@.take(t.len() as int) =~= t@);
                }
                if t[idx] == '\n' {
                    line = line + 1;
                    col = 0;
                } else {
                    col = col + utf8_width(t[idx]);
                }
                idx = idx + 1;
            }
            assert(want[j as int] == byte_position(t@, target as int));
            let ghost before = self.matches@;
            self.matches.push((line, col));
            assert(self.matches@ == before.push((line, col)));
            assert forall|i: int| 0 <= i < j implies pairs(self.matches@)[i] == want.take(j + 1)[i] by {
                assert(pairs(before)[i] == want.take(j as int)[i]);
            }
            assert(pairs(self.matches@) =~= want.take(j + 1));
            j = j + 1;
        }
        assert(want.take(spans.len() as int) =~= want);
        if self.matches.len() > 0 {
            match cursor {
                Some((cursor_line, cursor_col)) => {
                    let ghost ms = pairs(self.matches@);
                    let mut i: usize = 0;
                    let mut found: Option<usize> = None;
                    while i < self.matches.len() && found.is_none()
                        invariant
                            i <= self.matches.len(),
                            ms == pairs(self.matches@),
                            self.matches.len() > 0,
                            found matches Some(f) ==> f < self.matches.len(),
                            found is None ==> i <= self.matches.len(),
                            match found {
                                Some(f) => first_at_or_after(ms, (cursor_line as int, cursor_col as int), 0) == Some(f as int),
                                None => first_at_or_after(ms, (cursor_line as int, cursor_col as int), 0)
                                    == first_at_or_after(ms, (cursor_line as int, cursor_col as int), i as int),
                            },
                        decreases self.matches.len() - i, if found is None { 1int } else { 0int },
                    {
                        let (l, c) = self.matches[i];
                        assert(ms[i as int] == (l as int, c as int));
                        if l > cursor_line || (l == cursor_line && c >= cursor_col) {
                            found = Some(i);
                        } else {
                            i = i + 1;
                        }
                    }
                    if found.is_none() {
                        assert(first_at_or_after(ms, (cursor_line as int, cursor_col as int), i as int) is None);
                    }
                    self.current_match = match found {
                        Some(i) => Some(i),
                        None => Some(0),
                    };
                },
                None => {
                    self.current_match = Some(0);
                },
            }
        }
    }

    /// Moves to the next match, wrapping around; nothing without matches.
    pub fn find_next(&mut self)
        requires
            old(self).current_match matches Some(i) ==> i < usize::MAX,
        ensures
            final(self).search_term == old(self).search_term,
            final(self).replace_term == old(self).replace_term,
            final(self).case_sensitive == old(self).case_sensitive,
            final(self).matches == old(self).matches,
            opt_int(final(self).current_match) == if old(self).matches.len() == 0 {
                opt_int(old(self).current_match)
            } else {
                Some(next_index(opt_int(old(self).current_match), old(self).matches.len() as int))
            },
            old(self).matches.len() > 0 ==> final(self).wf(),
    {
        if self.matches.len() == 0 {
            return;
        }
        self.current_match = Some(
            match self.current_match {
                Some(i) => (i + 1) % self.matches.len(),
                None => 0,
            },
        );
    }

    /// Moves to the previous match, wrapping around; nothing without matches.
    pub fn find_prev(&mut self)
        ensures
            final(self).search_term == old(self).search_term,
            final(self).replace_term == old(self).replace_term,
            final(self).case_sensitive == old(self).case_sensitive,
            final(self).matches == old(self).matches,
            opt_int(final(self).current_match) == if old(self).matches.len() == 0 {
                opt_int(old(self).current_match)
            } else {
                Some(prev_index(opt_int(old(self).current_match), old(self).matches.len() as int))
            },
            old(self).wf() ==> final(self).wf(),
    {
        if self.matches.len() == 0 {
            return;
        }
        self.current_match = Some(
            match self.current_match {
                Some(0) => self.matches.len() - 1,
                Some(i) => i - 1,
                None => self.matches.len() - 1,
            },
        );
    }

    /// Line and column of the current match.
    pub fn current_match_position(&self) -> (r: Option<(usize, usize)>)
        requires
            self.wf(),
        ensures
            r == match self.current_match {
                Some(i) => Some(self.matches@[i as int]),
                None => None,
            },
    {
        match self.current_match {
            Some(i) => Some(self.matches[i]),
            None => None,
        }
    }

    /// The character of `text` at which the current match starts, found by
    /// its line and byte column.
    pub open spec fn current_target(&self, text: Seq<char>) -> Option<int> {
        match self.current_match {
            Some(i) => pos_target(
                text,
                (self.matches@[i as int].0 as int, self.matches@[i as int].1 as int),
                0,
            ),
            None => None,
        }
    }

    /// `text` with the match that starts at the current match's position
    /// replaced by the replacement; `None` for an empty search term, without
    /// a current match, or when no match of the term starts there (the text
    /// changed since the search). Only a real match is replaced: cutting the
    /// term's byte length out at a stale position could split a character or
    /// remove text that does not match.
    pub open spec fn replaced_current(&self, text: Seq<char>) -> Option<Seq<char>> {
        if self.search_term@.len() == 0 {
            None
        } else {
            match self.current_target(text) {
                Some(k) => match match_end(
                    fold_seq(text, self.case_sensitive),
                    folded(self.search_term@, self.case_sensitive),
                    k,
                    k + 1,
                ) {
                    Some(e) => Some(text.take(k) + self.replace_term@ + text.skip(e)),
                    None => None,
                },
                None => None,
            }
        }
    }

    /// Replaces the current match in `text` (see `replaced_current`).
    pub fn replace_current_in_text(&self, text: &str) -> (r: Option<String>)
        requires
            self.wf(),
        ensures
            opt_chars(r) == self.replaced_current(text@),
    {
        if self.search_term.as_str().is_empty() {
            return None;
        }
        let i = match self.current_match {
            Some(i) => i,
            None => {
                return None;
            },
        };
        let (line, col) = self.matches[i];
        let ghost pos = (line as int, col as int);
        let t = text_chars(text);
        let mut cl: usize = 0;
        let mut cc: usize = 0;
        let mut k: usize = 0;
        let mut found = false;
        while k < t.len() && !found
            invariant
                k <= t.len(),
                byte_len(t@) <= usize::MAX,
                pos == (line as int, col as int),
                (cl as int, cc as int) == byte_position(t@, k as int),
                found ==> k < t.len() && byte_position(t@, k as int) == pos,
                pos_target(t@, pos, 0) == if found {
                    Some(k as int)
                } else {
                    pos_target(t@, pos, k as int)
                },
            decreases t.len() - k, if found { 0int } else { 1int },
        {
            if cl == line && cc == col {
                assert(pos_target(t@, pos, k as int) == Some(k as int));
                found = true;
            } else {
                proof {
                    lemma_byte_position_bounds(t@, k + 1);
                    lemma_byte_len_prefix_mono(t@, k + 1, t.len() as int);
                    assert(t@.take(t.len() as int) =~= t@);
                }
                assert(pos_target(t@, pos, k as int) == pos_target(t@, pos, k + 1));
                if t[k] == '\n' {
                    cl = cl + 1;
                    cc = 0;
                } else {
                    cc = cc + utf8_width(t[k]);
                }
                k = k + 1;
            }
        }
        if !found {
            return None;
        }
        let n = chars_of(self.search_term.as_str());
        let folds = char_folds(&t, self.case_sensitive);
        let target = fold_term(&n, self.case_sensitive);
        match end_of_match(&folds, &target, k) {
            Some(e) => {
                let mut out = string_from_range(&t, 0, k);
                append_str(&mut out, self.replace_term.as_str());
                append_range(&mut out, &t, e, t.len());
                assert(t@.subrange(0, k as int) =~= t@.take(k as int));
                assert(t@.subrange(e as int, t.len() as int) =~= t@.skip(e as int));
                Some(out)
            },
            None => None,
        }
    }

    /// Replaces every match of the search term in `text` (see `replaced_all`).
    pub fn replace_all_in_text(&self, text: &str) -> (r: String)
        ensures
            r@ == replaced_all(text@, self.search_term@, self.replace_term@, self.case_sensitive),
    {
        let t = chars_of(text);
        let n = chars_of(self.search_term.as_str());
        if n.len() == 0 {
            return string_from_range(&t, 0, t.len());
        }
        let spans = find_term(&t, &n, self.case_sensitive);
        proof {
            lemma_found_spans_props(t@, n@, self.case_sensitive);
        }
        let ghost all = found_spans(t@, n@, self.case_sensitive);
        let r = self.replace_term.as_str();
        let mut out = String::new();
        let mut last: usize = 0;
        let mut j: usize = 0;
        assert(all.skip(0) =~= all);
        assert(out@ + splice(t@, all, r@, 0) =~= splice(t@, all, r@, 0));
        while j < spans.len()
            invariant
                j <= spans.len(),
                span_ints(spans@) == all,
                forall|i: int| 0 <= i < all.len() ==> {
                    let s = #[trigger] all[i];
                    0 <= s.0 < s.1 <= t.len()
                },
                forall|a: int, b: int| 0 <= a < b < all.len() ==> (#[trigger] all[a]).1 <= (#[trigger] all[b]).0,
                j == 0 ==> last == 0,
                j > 0 ==> last == all[j - 1].1,
                last <= t.len(),
                out@ + splice(t@, all.skip(j as int), r@, last as int) == splice(t@, all, r@, 0),
            decreases spans.len() - j,
        {
            let (a, b) = spans[j];
            assert(span_ints(spans@)[j as int] == (a as int, b as int));
            if j > 0 {
                assert(all[j - 1].1 <= all[j as int].0);
            }
            let ghost before = out@;
            let ghost rest = all.skip(j as int);
            assert(rest[0] == (a as int, b as int));
            assert(rest.drop_first() =~= all.skip(j + 1));
            append_range(&mut out, &t, last, a);
            append_str(&mut out, r);
            assert(before + splice(t@, rest, r@, last as int)
                =~= out@ + splice(t@, all.skip(j + 1), r@, b as int));
            last = b;
            j = j + 1;
        }
        let ghost before = out@;
        append_range(&mut out, &t, last, t.len());
        assert(all.skip(spans.len() as int) =~= Seq::<(int, int)>::empty());
        assert(before + splice(t@, all.skip(j as int), r@, last as int) =~= out@);
        out
    }

    /// Completes a replacement in `tab`, whose text `text` (cursor at
    /// `cursor`) was replaced by `new_text`: the text before is taken as a
    /// snapshot (which the next undo brings back) and the tab is unsaved, and the matches are found anew in
    /// `new_text` (whose cursor stands at its start, so the first match is
    /// current).
    pub fn apply_replacement(&mut self, tab: &mut Tab, text: &str, cursor: CursorPos, new_text: &str)
        requires
            old(tab).wf(),
        ensures
            final(tab).wf(),
            final(tab).undo_stack@ == old(tab).undo_stack@.pushed(Snap { text: text@, cursor }).marked(),
            final(tab).is_dirty,
            final(tab).title == old(tab).title,
            final(tab).file_path == old(tab).file_path,
            final(tab).encoding == old(tab).encoding,
            final(tab).line_ending == old(tab).line_ending,
            final(self).search_term == old(self).search_term,
            final(self).replace_term == old(self).replace_term,
            final(self).case_sensitive == old(self).case_sensitive,
            pairs(final(self).matches@) == found_matches(new_text@, old(self).search_term@, old(self).case_sensitive),
            opt_int(final(self).current_match) == initial_match(pairs(final(self).matches@), None),
            final(self).wf(),
    {
        tab.replace_text(text, cursor);
        self.find_all(new_text, None);
    }

    /// The text the find bar shows of the search (see `match_label`).
    pub fn match_info(&self) -> (r: String)
        requires
            self.current_match != Some(usize::MAX),
        ensures
            r@ == match_label(self.search_term@, self.matches.len() as nat, opt_int(self.current_match)),
    {
        let mut r = String::new();
        if self.search_term.as_str().is_empty() {
            return r;
        }
        if self.matches.len() == 0 {
            append_str(&mut r, "No matches");
            return r;
        }
        let shown: usize = match self.current_match {
            Some(i) => i + 1,
            None => 0,
        };
        push_decimal(&mut r, shown);
        push_char(&mut r, '/');
        push_decimal(&mut r, self.matches.len());
        r
    }

    /// Number of matches found.
    pub fn match_count(&self) -> (n: usize)
        ensures
            n == self.matches.len(),
    {
        self.matches.len()
    }
}



/// With a cursor, the current match after a search is the first match in
/// reading order that does not come before the cursor: a match on a later
/// line counts whatever its column, one on the cursor's line counts from
/// the cursor's column on. Every match before it comes before the cursor;
/// when none comes at or after the cursor, the first match is current.
pub proof fn law_cursor_picks_first_match_after(ms: Seq<(int, int)>, line: usize, col: usize)
    ensures
        forall|j: int|
            0 <= j < ms.len() && (ms[j].0 > line || (ms[j].0 == line && ms[j].1 >= col)) ==> (
            #[trigger] ms[j]) == ms[j] && (initial_match(ms, Some((line, col))) matches Some(i) && 0 <= i <= j
                && (ms[i].0 > line || (ms[i].0 == line && ms[i].1 >= col)) && forall|k: int|
                0 <= k < i ==> (ms[k].0 < line || (ms[k].0 == line && ms[k].1 < col))),
        ms.len() > 0 && (forall|j: int|
            0 <= j < ms.len() ==> (#[trigger] ms[j]).0 < line || (ms[j].0 == line && ms[j].1 < col))
            ==> initial_match(ms, Some((line, col))) == Some(0int),
        ms.len() == 0 ==> initial_match(ms, Some((line, col))) is None,
{
    let c = (line as int, col as int);
    assert forall|j: int|
        0 <= j < ms.len() && (ms[j].0 > line || (ms[j].0 == line && ms[j].1 >= col)) implies (
        #[trigger] ms[j]) == ms[j] && (initial_match(ms, Some((line, col))) matches Some(i) && 0 <= i <= j
            && (ms[i].0 > line || (ms[i].0 == line && ms[i].1 >= col)) && forall|k: int|
            0 <= k < i ==> (ms[k].0 < line || (ms[k].0 == line && ms[k].1 < col))) by {
        lemma_first_at_or_after(ms, c, 0, j);
    }
    if ms.len() > 0 && (forall|j: int|
        0 <= j < ms.len() ==> (#[trigger] ms[j]).0 < line || (ms[j].0 == line && ms[j].1 < col)) {
        lemma_none_after(ms, c, 0);
    }
}

/// Looking from `i` on, a match `j` at or after the cursor is reached: the
/// match found is at or after the cursor, not past `j`, and the ones skipped
/// come before the cursor.
proof fn lemma_first_at_or_after(ms: Seq<(int, int)>, c: (int, int), i: int, j: int)
    requires
        0 <= i <= j < ms.len(),
        ms[j].0 > c.0 || (ms[j].0 == c.0 && ms[j].1 >= c.1),
    ensures
        first_at_or_after(ms, c, i) matches Some(k) && i <= k <= j && (ms[k].0 > c.0 || (ms[k].0 == c.0
            && ms[k].1 >= c.1)) && forall|m: int| i <= m < k ==> (ms[m].0 < c.0 || (ms[m].0 == c.0 && ms[m].1 < c.1)),
    decreases j - i,
{
    if !(ms[i].0 > c.0 || (ms[i].0 == c.0 && ms[i].1 >= c.1)) {
        lemma_first_at_or_after(ms, c, i + 1, j);
    }
}

/// Looking from `i` on finds nothing when every match comes before the
/// cursor.
proof fn lemma_none_after(ms: Seq<(int, int)>, c: (int, int), i: int)
    requires
        0 <= i <= ms.len(),
        forall|j: int| 0 <= j < ms.len() ==> (#[trigger] ms[j]).0 < c.0 || (ms[j].0 == c.0 && ms[j].1 < c.1),
    ensures
        first_at_or_after(ms, c, i) is None,
    decreases ms.len() - i,
{
    if i < ms.len() {
        lemma_none_after(ms, c, i + 1);
    }
}

/// The sum of the lengths of the character ranges `spans`.
pub open spec fn span_total(spans: Seq<(int, int)>) -> int
    decreases spans.len(),
{
    if spans.len() == 0 {
        0
    } else {
        (spans[0].1 - spans[0].0) + span_total(spans.drop_first())
    }
}

proof fn lemma_splice_len(t: Seq<char>, spans: Seq<(int, int)>, r: Seq<char>, last: int)
    requires
        0 <= last <= t.len(),
        forall|i: int| 0 <= i < spans.len() ==> {
            let s = #[trigger] spans[i];
            last <= s.0 < s.1 <= t.len()
        },
        forall|i: int, j: int| 0 <= i < j < spans.len() ==> (#[trigger] spans[i]).1 <= (#[trigger] spans[j]).0,
    ensures
        splice(t, spans, r, last).len() == t.len() - last - span_total(spans) + spans.len() * r.len(),
        span_total(spans) >= spans.len(),
    decreases spans.len(),
{
    if spans.len() > 0 {
        let s = spans[0];
        let rest = spans.drop_first();
        assert forall|i: int| 0 <= i < rest.len() implies {
            let x = #[trigger] rest[i];
            s.1 <= x.0 < x.1 <= t.len()
        } by {
            assert(rest[i] == spans[i + 1]);
        }
        assert forall|i: int, j: int| 0 <= i < j < rest.len() implies (#[trigger] rest[i]).1 <= (#[trigger] rest[j]).0 by {
            assert(rest[i] == spans[i + 1]);
            assert(rest[j] == spans[j + 1]);
        }
        lemma_splice_len(t, rest, r, s.1);
        assert(spans.len() * r.len() == r.len() + rest.len() * r.len()) by (nonlinear_arith)
            requires
                spans.len() == rest.len() + 1,
        ;
    }
}

/// Replacing every match changes the text's length by the replacement's
/// length less the match's length, once for each match found; so replacing
/// by nothing deletes every match, and shortens the text when there is one.
pub proof fn law_replace_all_length(text: Seq<char>, term: Seq<char>, r: Seq<char>, case_sensitive: bool)
    ensures
        replaced_all(text, term, r, case_sensitive).len() == text.len() - span_total(
            found_spans(text, term, case_sensitive),
        ) + found_spans(text, term, case_sensitive).len() * r.len(),
        r.len() == 0 && found_spans(text, term, case_sensitive).len() > 0 ==> replaced_all(
            text,
            term,
            r,
            case_sensitive,
        ).len() < text.len(),
{
    let spans = found_spans(text, term, case_sensitive);
    lemma_found_spans_props(text, term, case_sensitive);
    lemma_splice_len(text, spans, r, 0);
}

/// Moving to the next match and back to the previous one returns to the same
/// match, and so does the reverse.
pub proof fn law_next_prev_inverse(i: int, count: int)
    requires
        0 <= i < count,
    ensures
        prev_index(Some(next_index(Some(i), count)), count) == i,
        next_index(Some(prev_index(Some(i), count)), count) == i,
        0 <= next_index(Some(i), count) < count,
        0 <= prev_index(Some(i), count) < count,
{
    crate::tabs::lemma_wrap_next(i, count);
    if i == 0 {
        crate::tabs::lemma_wrap_next(count - 1, count);
    } else {
        crate::tabs::lemma_wrap_next(i - 1, count);
    }
}

/// Every match found is a run of the text's own characters that compares
/// as the term does (itself with case, by lowercase mapping without), and
/// each match ends at or before the next one starts.
pub proof fn law_matches_are_occurrences(text: Seq<char>, term: Seq<char>, case_sensitive: bool)
    ensures
        forall|i: int|
            0 <= i < found_spans(text, term, case_sensitive).len() ==> {
                let s = #[trigger] found_spans(text, term, case_sensitive)[i];
                &&& 0 <= s.0 < s.1 <= text.len()
                &&& folded(text.subrange(s.0, s.1), case_sensitive) == folded(term, case_sensitive)
            },
        forall|i: int, j: int|
            0 <= i < j < found_spans(text, term, case_sensitive).len() ==> (#[trigger] found_spans(
                text,
                term,
                case_sensitive,
            )[i]).1 <= (#[trigger] found_spans(text, term, case_sensitive)[j]).0,
{
    lemma_found_spans_props(text, term, case_sensitive);
}

/// The highlighter marks exactly as many matches on a line as a search of
/// that line finds.
pub proof fn law_highlights_match_search(line: Seq<char>, term: Seq<char>, case_sensitive: bool)
    ensures
        highlight_spans(line, term, case_sensitive).len() == found_matches(line, term, case_sensitive).len(),
{
}

/// Replacing ordered ranges that each hold `r` by `r` leaves the text from
/// `last` on unchanged.
proof fn lemma_splice_identity(t: Seq<char>, spans: Seq<(int, int)>, r: Seq<char>, last: int)
    requires
        0 <= last <= t.len(),
        forall|i: int| 0 <= i < spans.len() ==> {
            let s = #[trigger] spans[i];
            &&& last <= s.0 < s.1 <= t.len()
            &&& t.subrange(s.0, s.1) == r
        },
        forall|i: int, j: int| 0 <= i < j < spans.len() ==> (#[trigger] spans[i]).1 <= (#[trigger] spans[j]).0,
    ensures
        splice(t, spans, r, last) == t.subrange(last, t.len() as int),
    decreases spans.len(),
{
    if spans.len() > 0 {
        let s = spans[0];
        let rest = spans.drop_first();
        assert forall|i: int| 0 <= i < rest.len() implies {
            let x = #[trigger] rest[i];
            &&& s.1 <= x.0 < x.1 <= t.len()
            &&& t.subrange(x.0, x.1) == r
        } by {
            assert(rest[i] == spans[i + 1]);
        }
        assert forall|i: int, j: int| 0 <= i < j < rest.len() implies (#[trigger] rest[i]).1 <= (#[trigger] rest[j]).0 by {
            assert(rest[i] == spans[i + 1]);
            assert(rest[j] == spans[j + 1]);
        }
        lemma_splice_identity(t, rest, r, s.1);
        assert(t.subrange(last, s.0) + t.subrange(s.0, s.1) + t.subrange(s.1, t.len() as int)
            =~= t.subrange(last, t.len() as int));
    }
}

/// Replacing every match of a term by the term itself, with case, leaves the
/// text unchanged.
pub proof fn law_replace_with_itself(text: Seq<char>, term: Seq<char>)
    ensures
        replaced_all(text, term, term, true) == text,
{
    if term.len() > 0 {
        let spans = found_spans(text, term, true);
        lemma_found_spans_props(text, term, true);
        lemma_folded_with_case(term);
        assert forall|i: int| 0 <= i < spans.len() implies {
            let s = #[trigger] spans[i];
            &&& 0 <= s.0 < s.1 <= text.len()
            &&& text.subrange(s.0, s.1) == term
        } by {
            lemma_folded_with_case(text.subrange(spans[i].0, spans[i].1));
        }
        lemma_splice_identity(text, spans, term, 0);
        assert(text.subrange(0, text.len() as int) =~= text);
    }
}

/// Replacing a term that is not found leaves the text unchanged.
pub proof fn law_replace_without_matches(text: Seq<char>, term: Seq<char>, r: Seq<char>, case_sensitive: bool)
    requires
        found_spans(text, term, case_sensitive).len() == 0,
    ensures
        replaced_all(text, term, r, case_sensitive) == text,
{
    assert(text.subrange(0, text.len() as int) =~= text);
}

/// Positions move strictly forward: a later character stands on a later
/// line, or further right on the same line.
proof fn lemma_byte_position_forward(t: Seq<char>, k1: int, k2: int)
    requires
        0 <= k1 < k2 <= t.len(),
    ensures
        byte_position(t, k1).0 < byte_position(t, k2).0 || (byte_position(t, k1).0 == byte_position(t, k2).0
            && byte_position(t, k1).1 < byte_position(t, k2).1),
    decreases k2 - k1,
{
    vstd::utf8::char_is_scalar(t[k2 - 1]);
    if k2 - 1 > k1 {
        lemma_byte_position_forward(t, k1, k2 - 1);
    }
}

/// Looking from `k` on for the position of character `a` finds `a`.
proof fn lemma_pos_target_finds(t: Seq<char>, a: int, k: int)
    requires
        0 <= k <= a < t.len(),
    ensures
        pos_target(t, byte_position(t, a), k) == Some(a),
    decreases a - k,
{
    if k < a {
        lemma_byte_position_forward(t, k, a);
        lemma_pos_target_finds(t, a, k + 1);
    }
}

/// Replacing the current match right after a search replaces exactly the
/// match found there: the text before and after it stays as it is.
pub proof fn law_replace_current_replaces_found_match(s: FindReplaceState, text: Seq<char>, i: int)
    requires
        pairs(s.matches@) == found_matches(text, s.search_term@, s.case_sensitive),
        s.current_match == Some(i as usize),
        0 <= i < s.matches.len(),
    ensures
        s.replaced_current(text) == Some(
            text.take(found_spans(text, s.search_term@, s.case_sensitive)[i].0) + s.replace_term@ + text.skip(
                found_spans(text, s.search_term@, s.case_sensitive)[i].1,
            ),
        ),
{
    let spans = found_spans(text, s.search_term@, s.case_sensitive);
    lemma_found_spans_props(text, s.search_term@, s.case_sensitive);
    assert(pairs(s.matches@).len() == s.matches.len());
    assert(found_matches(text, s.search_term@, s.case_sensitive).len() == spans.len());
    let sp = spans[i];
    assert(found_matches(text, s.search_term@, s.case_sensitive)[i] == byte_position(text, sp.0));
    assert(pairs(s.matches@)[i] == byte_position(text, sp.0));
    let m = s.matches@[i];
    assert((m.0 as int, m.1 as int) == byte_position(text, sp.0));
    assert(s.current_match->0 as int == i);
    lemma_pos_target_finds(text, sp.0, 0);
    assert(s.current_target(text) == Some(sp.0));
}

} // verus!
