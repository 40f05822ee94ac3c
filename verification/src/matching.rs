//! Finding a search term in a text, with or without regard to case.
//!
//! Without regard to case each character is compared by its lowercase
//! mapping (`char::to_lowercase`), so a match is always a whole run of
//! characters of the text itself: the run whose mapped characters spell the
//! mapped term. Matches are found from left to right and do not overlap.
//!
//! Lowercasing the whole text at once (`str::to_lowercase`) is not used:
//! where a character's lowercase form has another length, positions found in
//! the lowercased copy do not point into the text, and a replacement made at
//! them cuts the wrong characters. The one lowercasing that depends on
//! context, a capital sigma at the end of a word, is therefore compared as
//! `σ`, not `ς`.
use vstd::prelude::*;
use crate::text::chars_of;

verus! {

/// The name for what `char::to_lowercase` yields for `c`: its lowercase
/// mapping, one or more characters.
pub uninterp spec fn lower_char(c: char) -> Seq<char>;

/// `m` is the lowercase mapping of the ASCII character `c`: one character,
/// with `A`..=`Z` becoming `a`..=`z` and every other ASCII character
/// staying as it is.
pub open spec fn ascii_lowered(c: char, m: Seq<char>) -> bool {
    &&& m.len() == 1
    &&& (m[0] as u32) as int == if 65 <= (c as u32) <= 90 {
        (c as u32) + 32
    } else {
        c as u32 as int
    }
}

/// `char::to_lowercase`, collected: the lowercase mapping of `c` (named by
/// `lower_char`), which std documents as one or more characters, following
/// the Unicode Character Database, in which ASCII letters lowercase as
/// `ascii_lowered` says.
#[verifier::external_body]
fn char_lowercase(c: char) -> (r: String)
    ensures
        r@ == lower_char(c),
        r@.len() >= 1,
        (c as u32) < 128 ==> ascii_lowered(c, r@),
{
    c.to_lowercase().collect()
}

/// What `c` is compared as: itself with case, else its lowercase mapping.
pub open spec fn fold_char(c: char, case_sensitive: bool) -> Seq<char> {
    if case_sensitive {
        seq![c]
    } else {
        lower_char(c)
    }
}

/// What each character of `s` is compared as.
pub open spec fn fold_seq(s: Seq<char>, case_sensitive: bool) -> Seq<Seq<char>> {
    Seq::new(s.len(), |i: int| fold_char(s[i], case_sensitive))
}

/// The pieces `fs[a..b]` joined together.
pub open spec fn joined(fs: Seq<Seq<char>>, a: int, b: int) -> Seq<char>
    decreases b - a,
{
    if b <= a {
        seq![]
    } else {
        joined(fs, a, b - 1) + fs[b - 1]
    }
}

/// What `s` is compared as, as a whole.
pub open spec fn folded(s: Seq<char>, case_sensitive: bool) -> Seq<char> {
    joined(fold_seq(s, case_sensitive), 0, s.len() as int)
}

/// The end of the match of `target` that starts at piece `a`, looking at
/// ends from `b` on: the first end whose joined pieces spell `target`,
/// giving up once they are as long as `target`.
pub open spec fn match_end(fs: Seq<Seq<char>>, target: Seq<char>, a: int, b: int) -> Option<int>
    decreases fs.len() - b,
{
    if b < a || b > fs.len() {
        None
    } else if joined(fs, a, b) == target {
        Some(b)
    } else if joined(fs, a, b).len() >= target.len() || b == fs.len() {
        None
    } else {
        match_end(fs, target, a, b + 1)
    }
}

/// The matches of `target`, as (start, end) piece ranges, from piece `p`
/// on: leftmost first, each search going on after the end of the previous
/// match.
pub open spec fn spans_from(fs: Seq<Seq<char>>, target: Seq<char>, p: int) -> Seq<(int, int)>
    decreases fs.len() - p,
{
    if p < 0 || p >= fs.len() {
        seq![]
    } else {
        match match_end(fs, target, p, p + 1) {
            Some(b) => if p < b <= fs.len() {
                seq![(p, b)] + spans_from(fs, target, b)
            } else {
                seq![]
            },
            None => spans_from(fs, target, p + 1),
        }
    }
}

/// The character ranges of the matches of `term` in `text`: none for an
/// empty term.
pub open spec fn found_spans(text: Seq<char>, term: Seq<char>, case_sensitive: bool) -> Seq<(int, int)> {
    if term.len() == 0 {
        seq![]
    } else {
        spans_from(fold_seq(text, case_sensitive), folded(term, case_sensitive), 0)
    }
}

pub open spec fn span_ints(v: Seq<(usize, usize)>) -> Seq<(int, int)> {
    v.map_values(|s: (usize, usize)| (s.0 as int, s.1 as int))
}

pub open spec fn pieces(v: Seq<Vec<char>>) -> Seq<Seq<char>> {
    v.map_values(|p: Vec<char>| p@)
}

proof fn lemma_joined_push(fs: Seq<Seq<char>>, a: int, b: int)
    requires
        a <= b,
    ensures
        joined(fs, a, b + 1) == joined(fs, a, b) + fs[b],
{
}

/// A match end lies past the start, and the pieces up to it spell the
/// target.
pub proof fn lemma_match_end_sound(fs: Seq<Seq<char>>, target: Seq<char>, a: int, b: int)
    requires
        a <= b,
    ensures
        match_end(fs, target, a, b) matches Some(e) ==> b <= e <= fs.len() && joined(fs, a, e) == target,
    decreases fs.len() - b,
{
    if b < fs.len() && joined(fs, a, b) != target && joined(fs, a, b).len() < target.len() {
        lemma_match_end_sound(fs, target, a, b + 1);
    }
}

/// Every match found from `p` on lies at or after `p`, within the pieces,
/// spells the target, and ends at or before the start of the next one.
pub proof fn lemma_spans_props(fs: Seq<Seq<char>>, target: Seq<char>, p: int)
    requires
        p >= 0,
    ensures
        forall|i: int|
            0 <= i < spans_from(fs, target, p).len() ==> {
                let s = #[trigger] spans_from(fs, target, p)[i];
                &&& p <= s.0 < s.1 <= fs.len()
                &&& joined(fs, s.0, s.1) == target
                &&& match_end(fs, target, s.0, s.0 + 1) == Some(s.1)
            },
        forall|i: int, j: int|
            0 <= i < j < spans_from(fs, target, p).len() ==> (#[trigger] spans_from(fs, target, p)[i]).1
                <= (#[trigger] spans_from(fs, target, p)[j]).0,
    decreases fs.len() - p,
{
    if p < fs.len() {
        lemma_match_end_sound(fs, target, p, p + 1);
        match match_end(fs, target, p, p + 1) {
            Some(b) => {
                if p < b <= fs.len() {
                    lemma_spans_props(fs, target, b);
                    let rest = spans_from(fs, target, b);
                    let all = spans_from(fs, target, p);
                    assert(all == seq![(p, b)] + rest);
                    assert forall|i: int| 0 <= i < all.len() implies {
                        let s = #[trigger] all[i];
                        &&& p <= s.0 < s.1 <= fs.len()
                        &&& joined(fs, s.0, s.1) == target
                        &&& match_end(fs, target, s.0, s.0 + 1) == Some(s.1)
                    } by {
                        if i > 0 {
                            assert(all[i] == rest[i - 1]);
                        }
                    }
                    assert forall|i: int, j: int| 0 <= i < j < all.len() implies (#[trigger] all[i]).1
                        <= (#[trigger] all[j]).0 by {
                        assert(all[j] == rest[j - 1]);
                        if i > 0 {
                            assert(all[i] == rest[i - 1]);
                        }
                    }
                }
            },
            None => {
                lemma_spans_props(fs, target, p + 1);
                assert(spans_from(fs, target, p) == spans_from(fs, target, p + 1));
            },
        }
    } else {
        assert(spans_from(fs, target, p) == Seq::<(int, int)>::empty());
    }
}

/// Appends the characters of `src` to `dst`.
fn append_chars(dst: &mut Vec<char>, src: &Vec<char>)
    ensures
        final(dst)@ == old(dst)@ + src@,
{
    let mut i: usize = 0;
    while i < src.len()
        invariant
            i <= src.len(),
            dst@ == old(dst)@ + src@.take(i as int),
        decreases src.len() - i,
    {
        dst.push(src[i]);
        i = i + 1;
        assert(dst@ =~= old(dst)@ + src@.take(i as int));
    }
    assert(src@.take(src.len() as int) =~= src@);
}

/// Whether `a` and `b` hold the same characters.
fn same_chars(a: &Vec<char>, b: &Vec<char>) -> (r: bool)
    ensures
        r == (a@ == b@),
{
    if a.len() != b.len() {
        return false;
    }
    let mut i: usize = 0;
    while i < a.len()
        invariant
            a.len() == b.len(),
            i <= a.len(),
            forall|j: int| 0 <= j < i ==> a@[j] == b@[j],
        decreases a.len() - i,
    {
        if a[i] != b[i] {
            return false;
        }
        i = i + 1;
    }
    assert(a@ =~= b@);
    true
}

/// What each character of `s` is compared as (see `fold_char`).
pub fn char_folds(s: &Vec<char>, case_sensitive: bool) -> (r: Vec<Vec<char>>)
    ensures
        r.len() == s.len(),
        pieces(r@) == fold_seq(s@, case_sensitive),
        forall|i: int| 0 <= i < r.len() ==> (#[trigger] r@[i])@.len() >= 1,
        forall|i: int|
            0 <= i < r.len() && (s@[i] as u32) < 128 && !case_sensitive ==> ascii_lowered(
                s@[i],
                (#[trigger] r@[i])@,
            ),
{
    let mut r: Vec<Vec<char>> = Vec::new();
    let mut i: usize = 0;
    while i < s.len()
        invariant
            i <= s.len(),
            r.len() == i,
            forall|k: int| 0 <= k < i ==> (#[trigger] r@[k])@ == fold_char(s@[k], case_sensitive),
            forall|k: int| 0 <= k < i ==> (#[trigger] r@[k])@.len() >= 1,
            forall|k: int|
                0 <= k < i && (s@[k] as u32) < 128 && !case_sensitive ==> ascii_lowered(
                    s@[k],
                    (#[trigger] r@[k])@,
                ),
        decreases s.len() - i,
    {
        let c = s[i];
        let piece = if case_sensitive {
            let mut v: Vec<char> = Vec::new();
            v.push(c);
            assert(v@ =~= seq![c]);
            v
        } else {
            chars_of(char_lowercase(c).as_str())
        };
        r.push(piece);
        i = i + 1;
    }
    assert(pieces(r@) =~= fold_seq(s@, case_sensitive));
    r
}

/// The pieces of `folds` joined together.
pub fn join_all(folds: &Vec<Vec<char>>) -> (r: Vec<char>)
    ensures
        r@ == joined(pieces(folds@), 0, folds.len() as int),
{
    let mut r: Vec<char> = Vec::new();
    let mut i: usize = 0;
    while i < folds.len()
        invariant
            i <= folds.len(),
            r@ == joined(pieces(folds@), 0, i as int),
        decreases folds.len() - i,
    {
        append_chars(&mut r, &folds[i]);
        proof {
            lemma_joined_push(pieces(folds@), 0, i as int);
        }
        i = i + 1;
    }
    r
}

/// The end of the match of `target` that starts at piece `a`, if any (see
/// `match_end`).
pub fn end_of_match(folds: &Vec<Vec<char>>, target: &Vec<char>, a: usize) -> (r: Option<usize>)
    requires
        a < folds.len(),
    ensures
        match r {
            Some(b) => match_end(pieces(folds@), target@, a as int, a + 1) == Some(b as int),
            None => match_end(pieces(folds@), target@, a as int, a + 1) is None,
        },
        r matches Some(b) ==> a < b <= folds.len(),
{
    let ghost fs = pieces(folds@);
    let mut acc: Vec<char> = Vec::new();
    append_chars(&mut acc, &folds[a]);
    proof {
        lemma_joined_push(fs, a as int, a as int);
        assert(acc@ =~= joined(fs, a as int, a + 1));
    }
    let mut b: usize = a + 1;
    loop
        invariant
            a < b <= folds.len(),
            fs == pieces(folds@),
            acc@ == joined(fs, a as int, b as int),
            match_end(fs, target@, a as int, a + 1) == match_end(fs, target@, a as int, b as int),
        decreases folds.len() - b,
    {
        if same_chars(&acc, target) {
            return Some(b);
        }
        if acc.len() >= target.len() {
            return None;
        }
        if b == folds.len() {
            return None;
        }
        append_chars(&mut acc, &folds[b]);
        proof {
            lemma_joined_push(fs, a as int, b as int);
        }
        b = b + 1;
    }
}

/// The matches of `target` among `folds`, as (start, end) piece ranges
/// (see `spans_from`).
pub fn find_spans(folds: &Vec<Vec<char>>, target: &Vec<char>) -> (r: Vec<(usize, usize)>)
    ensures
        span_ints(r@) == spans_from(pieces(folds@), target@, 0),
{
    let ghost fs = pieces(folds@);
    let mut r: Vec<(usize, usize)> = Vec::new();
    let mut p: usize = 0;
    assert(span_ints(r@) + spans_from(fs, target@, 0) =~= spans_from(fs, target@, 0));
    while p < folds.len()
        invariant
            p <= folds.len(),
            fs == pieces(folds@),
            span_ints(r@) + spans_from(fs, target@, p as int) == spans_from(fs, target@, 0),
        decreases folds.len() - p,
    {
        let ghost before = span_ints(r@);
        match end_of_match(folds, target, p) {
            Some(b) => {
                r.push((p, b));
                assert(span_ints(r@) =~= before.push((p as int, b as int)));
                assert(spans_from(fs, target@, p as int) == seq![(p as int, b as int)] + spans_from(fs, target@, b as int));
                assert(before + spans_from(fs, target@, p as int) =~= span_ints(r@) + spans_from(fs, target@, b as int));
                p = b;
            },
            None => {
                assert(spans_from(fs, target@, p as int) == spans_from(fs, target@, p + 1));
                p = p + 1;
            },
        }
    }
    assert(spans_from(fs, target@, p as int) == Seq::<(int, int)>::empty());
    assert(span_ints(r@) =~= span_ints(r@) + Seq::<(int, int)>::empty());
    r
}

/// The character ranges of the matches of `term` in `text` (see
/// `found_spans`).
pub fn find_term(text: &Vec<char>, term: &Vec<char>, case_sensitive: bool) -> (r: Vec<(usize, usize)>)
    ensures
        span_ints(r@) == found_spans(text@, term@, case_sensitive),
{
    if term.len() == 0 {
        let r: Vec<(usize, usize)> = Vec::new();
        assert(span_ints(r@) =~= Seq::<(int, int)>::empty());
        return r;
    }
    let folds = char_folds(text, case_sensitive);
    let term_folds = char_folds(term, case_sensitive);
    let target = join_all(&term_folds);
    find_spans(&folds, &target)
}

/// The folded form of `term`.
pub fn fold_term(term: &Vec<char>, case_sensitive: bool) -> (r: Vec<char>)
    ensures
        r@ == folded(term@, case_sensitive),
{
    let term_folds = char_folds(term, case_sensitive);
    join_all(&term_folds)
}

/// The pieces of `s[a..b]` joined are what `s[a..b]` is compared as.
pub proof fn lemma_joined_sub(s: Seq<char>, case_sensitive: bool, a: int, b: int)
    requires
        0 <= a <= b <= s.len(),
    ensures
        joined(fold_seq(s, case_sensitive), a, b) == folded(s.subrange(a, b), case_sensitive),
    decreases b - a,
{
    let sub = s.subrange(a, b);
    if a < b {
        lemma_joined_sub(s, case_sensitive, a, b - 1);
        let sub1 = s.subrange(a, b - 1);
        assert forall|k: int| 0 <= k < b - 1 - a implies #[trigger] fold_seq(sub, case_sensitive)[k] == fold_seq(sub1, case_sensitive)[k] by {}
        lemma_joined_prefix(fold_seq(sub, case_sensitive), fold_seq(sub1, case_sensitive), b - 1 - a);
    }
}

/// Joining the first `n` pieces depends on those pieces alone.
proof fn lemma_joined_prefix(fs: Seq<Seq<char>>, gs: Seq<Seq<char>>, n: int)
    requires
        0 <= n,
        forall|k: int| 0 <= k < n ==> #[trigger] fs[k] == gs[k],
    ensures
        joined(fs, 0, n) == joined(gs, 0, n),
    decreases n,
{
    if n > 0 {
        lemma_joined_prefix(fs, gs, n - 1);
    }
}

/// With case, a text is compared as itself.
pub proof fn lemma_folded_with_case(s: Seq<char>)
    ensures
        folded(s, true) == s,
    decreases s.len(),
{
    if s.len() > 0 {
        let init = s.drop_last();
        lemma_folded_with_case(init);
        assert forall|k: int| 0 <= k < s.len() - 1 implies #[trigger] fold_seq(s, true)[k] == fold_seq(init, true)[k] by {}
        lemma_joined_prefix(fold_seq(s, true), fold_seq(init, true), s.len() - 1);
        assert(s =~= init + seq![s.last()]);
    }
}

/// Every match found lies within the text, its characters are compared as
/// the term is, it is what a match search at its start finds, and it ends
/// at or before the next one starts.
pub proof fn lemma_found_spans_props(text: Seq<char>, term: Seq<char>, case_sensitive: bool)
    ensures
        forall|i: int|
            0 <= i < found_spans(text, term, case_sensitive).len() ==> {
                let s = #[trigger] found_spans(text, term, case_sensitive)[i];
                &&& 0 <= s.0 < s.1 <= text.len()
                &&& folded(text.subrange(s.0, s.1), case_sensitive) == folded(term, case_sensitive)
                &&& match_end(fold_seq(text, case_sensitive), folded(term, case_sensitive), s.0, s.0 + 1)
                    == Some(s.1)
            },
        forall|i: int, j: int|
            0 <= i < j < found_spans(text, term, case_sensitive).len() ==> (#[trigger] found_spans(
                text,
                term,
                case_sensitive,
            )[i]).1 <= (#[trigger] found_spans(text, term, case_sensitive)[j]).0,
{
    if term.len() > 0 {
        let fs = fold_seq(text, case_sensitive);
        let target = folded(term, case_sensitive);
        lemma_spans_props(fs, target, 0);
        assert forall|i: int| 0 <= i < found_spans(text, term, case_sensitive).len() implies {
            let s = #[trigger] found_spans(text, term, case_sensitive)[i];
            &&& 0 <= s.0 < s.1 <= text.len()
            &&& folded(text.subrange(s.0, s.1), case_sensitive) == folded(term, case_sensitive)
            &&& match_end(fold_seq(text, case_sensitive), folded(term, case_sensitive), s.0, s.0 + 1) == Some(s.1)
        } by {
            let s = spans_from(fs, target, 0)[i];
            lemma_joined_sub(text, case_sensitive, s.0, s.1);
        }
    }
}

} // verus!
