//! Character sequences and their UTF-8 byte positions.
use vstd::prelude::*;
use vstd::utf8::*;
use crate::theme::{hex_char, hex_char_exec};

verus! {

/// Number of bytes in the UTF-8 encoding of `s`.
pub open spec fn byte_len(s: Seq<char>) -> nat {
    encode_utf8(s).len()
}

/// Number of bytes in the UTF-8 encoding of `c`.
pub open spec fn char_width(c: char) -> nat {
    encode_scalar(c as u32).len()
}

pub proof fn lemma_byte_len_push(s: Seq<char>, c: char)
    ensures
        byte_len(s.push(c)) == byte_len(s) + char_width(c),
    decreases s.len(),
{
    if s.len() == 0 {
        assert(s.push(c).drop_first() =~= Seq::<char>::empty());
        assert(encode_utf8(Seq::<char>::empty()) =~= Seq::<u8>::empty());
    } else {
        assert(s.push(c).drop_first() =~= s.drop_first().push(c));
        lemma_byte_len_push(s.drop_first(), c);
    }
}

pub proof fn lemma_byte_len_take(s: Seq<char>, k: int)
    requires
        0 <= k < s.len(),
    ensures
        byte_len(s.take(k + 1)) == byte_len(s.take(k)) + char_width(s[k]),
{
    assert(s.take(k + 1) =~= s.take(k).push(s[k]));
    lemma_byte_len_push(s.take(k), s[k]);
}

/// The width of a character in UTF-8 bytes.
pub fn utf8_width(c: char) -> (w: usize)
    ensures
        w == char_width(c),
        1 <= w <= 4,
{
    proof {
        char_is_scalar(c);
    }
    let u = c as u32;
    if u <= 0x7F {
        1
    } else if u <= 0x7FF {
        2
    } else if u <= 0xFFFF {
        3
    } else {
        4
    }
}

/// The characters of `s`, in order.
pub fn chars_of(s: &str) -> (v: Vec<char>)
    ensures
        v@ == s@,
{
    let mut v: Vec<char> = Vec::new();
    for c in it: s.chars()
        invariant
            v@ == it.seq().take(it.index() as int),
            it.seq() == s@,
    {
        v.push(c);
    }
    v
}

pub proof fn lemma_byte_len_concat(a: Seq<char>, b: Seq<char>)
    ensures
        byte_len(a + b) == byte_len(a) + byte_len(b),
    decreases b.len(),
{
    if b.len() == 0 {
        assert(a + b =~= a);
        assert(encode_utf8(b) =~= Seq::<u8>::empty());
    } else {
        let c = b.last();
        let b0 = b.drop_last();
        assert(a + b =~= (a + b0).push(c));
        assert(b =~= b0.push(c));
        lemma_byte_len_concat(a, b0);
        lemma_byte_len_push(a + b0, c);
        lemma_byte_len_push(b0, c);
    }
}

/// Byte offsets grow with the character index.
pub proof fn lemma_byte_len_prefix_mono(s: Seq<char>, i: int, j: int)
    requires
        0 <= i <= j <= s.len(),
    ensures
        byte_len(s.take(i)) <= byte_len(s.take(j)),
        i < j ==> byte_len(s.take(i)) < byte_len(s.take(j)),
    decreases j - i,
{
    if i < j {
        lemma_byte_len_prefix_mono(s, i, j - 1);
        lemma_byte_len_take(s, j - 1);
        assert(char_width(s[j - 1]) >= 1) by {
            char_is_scalar(s[j - 1]);
        }
    }
}

pub proof fn lemma_byte_len_range(s: Seq<char>, i: int, j: int)
    requires
        0 <= i <= j <= s.len(),
    ensures
        byte_len(s.take(j)) == byte_len(s.take(i)) + byte_len(s.subrange(i, j)),
{
    assert(s.take(j) =~= s.take(i) + s.subrange(i, j));
    lemma_byte_len_concat(s.take(i), s.subrange(i, j));
}

/// The character index whose prefix is exactly `b` bytes long: the char
/// boundary at byte offset `b`, searched from index `k` on.
pub open spec fn boundary_from(s: Seq<char>, b: int, k: int) -> Option<int>
    decreases s.len() + 1 - k,
{
    if k < 0 || k > s.len() {
        None
    } else if byte_len(s.take(k)) == b {
        Some(k)
    } else if byte_len(s.take(k)) > b {
        None
    } else {
        boundary_from(s, b, k + 1)
    }
}

/// The character index at byte offset `b` of `s`, if `b` is a char boundary.
pub open spec fn char_index_of_byte(s: Seq<char>, b: int) -> Option<int> {
    boundary_from(s, b, 0)
}

pub proof fn lemma_boundary_from_sound(s: Seq<char>, b: int, k: int)
    requires
        boundary_from(s, b, k) is Some,
    ensures
        0 <= boundary_from(s, b, k)->0 <= s.len(),
        byte_len(s.take(boundary_from(s, b, k)->0)) == b,
    decreases s.len() + 1 - k,
{
    if !(k < 0 || k > s.len()) && byte_len(s.take(k)) != b && byte_len(s.take(k)) <= b {
        lemma_boundary_from_sound(s, b, k + 1);
    }
}

/// Any index whose prefix is `b` bytes long is the one found.
pub proof fn lemma_boundary_from_complete(s: Seq<char>, b: int, k: int, m: int)
    requires
        0 <= k <= m <= s.len(),
        byte_len(s.take(m)) == b,
    ensures
        boundary_from(s, b, k) == Some(m),
    decreases m - k,
{
    if k < m {
        lemma_byte_len_prefix_mono(s, k, m);
        lemma_boundary_from_complete(s, b, k + 1, m);
    }
}

/// The byte length of `s`, which fits a `usize`.
pub fn str_byte_len(s: &str) -> (n: usize)
    ensures
        n == byte_len(s@),
{
    s.as_bytes().len()
}

/// Byte offset of every character index of `chars`, and of its end.
pub fn prefix_byte_offsets(chars: &Vec<char>) -> (offs: Vec<usize>)
    requires
        byte_len(chars@) <= usize::MAX,
    ensures
        offs.len() == chars.len() + 1,
        forall|k: int| 0 <= k <= chars.len() ==> #[trigger] offs[k] == byte_len(chars@.take(k)),
{
    let mut offs: Vec<usize> = Vec::new();
    let mut acc: usize = 0;
    offs.push(0);
    assert(encode_utf8(chars@.take(0)) =~= Seq::<u8>::empty()) by {
        assert(chars@.take(0) =~= Seq::<char>::empty());
    }
    let mut i: usize = 0;
    while i < chars.len()
        invariant
            i <= chars.len(),
            offs.len() == i + 1,
            acc == byte_len(chars@.take(i as int)),
            byte_len(chars@) <= usize::MAX,
            forall|k: int| 0 <= k <= i ==> #[trigger] offs[k] == byte_len(chars@.take(k)),
        decreases chars.len() - i,
    {
        let w = utf8_width(chars[i]);
        proof {
            lemma_byte_len_take(chars@, i as int);
            lemma_byte_len_prefix_mono(chars@, i + 1, chars.len() as int);
            assert(chars@.take(chars.len() as int) =~= chars@);
        }
        acc = acc + w;
        offs.push(acc);
        i = i + 1;
    }
    offs
}

/// `String::push`: appends `c` at the end of `s`.
#[verifier::external_body]
pub(crate) fn push_char(s: &mut String, c: char)
    ensures
        final(s)@ == old(s)@.push(c),
{
    s.push(c)
}

/// A `String` holding the characters `chars[from..to]`.
pub fn string_from_range(chars: &Vec<char>, from: usize, to: usize) -> (r: String)
    requires
        from <= to <= chars.len(),
    ensures
        r@ == chars@.subrange(from as int, to as int),
{
    let mut r = String::new();
    append_range(&mut r, chars, from, to);
    r
}

/// Appends the characters `chars[from..to]` to `out`.
pub fn append_range(out: &mut String, chars: &Vec<char>, from: usize, to: usize)
    requires
        from <= to <= chars.len(),
    ensures
        final(out)@ == old(out)@ + chars@.subrange(from as int, to as int),
{
    let mut i = from;
    while i < to
        invariant
            from <= i <= to <= chars.len(),
            out@ == old(out)@ + chars@.subrange(from as int, i as int),
        decreases to - i,
    {
        push_char(out, chars[i]);
        assert(chars@.subrange(from as int, i + 1) =~= chars@.subrange(from as int, i as int).push(chars[i as int]));
        i = i + 1;
    }
}

/// Appends all of `s` to `out`.
pub fn append_str(out: &mut String, s: &str)
    ensures
        final(out)@ == old(out)@ + s@,
{
    let chars = chars_of(s);
    append_range(out, &chars, 0, chars.len());
    assert(chars@.subrange(0, chars.len() as int) =~= chars@);
}

/// Below a prefix of at most `b` bytes no other index is `b` bytes long.
pub proof fn lemma_boundary_skip(s: Seq<char>, b: int, from: int, k: int)
    requires
        0 <= k <= from <= s.len(),
        byte_len(s.take(from)) <= b,
    ensures
        boundary_from(s, b, k) == boundary_from(s, b, from),
    decreases from - k,
{
    if k < from {
        lemma_byte_len_prefix_mono(s, k, from);
        lemma_boundary_skip(s, b, from, k + 1);
    }
}

/// The character index at byte offset `b` of the text whose prefix byte
/// offsets are `offs`, searching from index `from` on.
pub fn char_index_at_byte(offs: &Vec<usize>, s: Ghost<Seq<char>>, b: usize, from: usize) -> (r: Option<usize>)
    requires
        offs.len() == s@.len() + 1,
        forall|k: int| 0 <= k <= s@.len() ==> #[trigger] offs[k] == byte_len(s@.take(k)),
        from <= s@.len(),
        offs[from as int] <= b,
    ensures
        match r {
            Some(k) => char_index_of_byte(s@, b as int) == Some(k as int),
            None => char_index_of_byte(s@, b as int) is None,
        },
        r matches Some(k) ==> from <= k <= s@.len() && offs[k as int] == b && byte_len(s@.take(k as int)) == b,
{
    proof {
        lemma_boundary_skip(s@, b as int, from as int, 0);
    }
    let mut k = from;
    while k < offs.len()
        invariant
            from <= k <= offs.len(),
            offs.len() == s@.len() + 1,
            forall|i: int| 0 <= i <= s@.len() ==> #[trigger] offs[i] == byte_len(s@.take(i)),
            boundary_from(s@, b as int, 0) == boundary_from(s@, b as int, k as int),
        decreases offs.len() - k,
    {
        if offs[k] == b {
            return Some(k);
        }
        if offs[k] > b {
            return None;
        }
        k = k + 1;
    }
    None
}

/// The decimal digits of `n`.
pub open spec fn decimal(n: nat) -> Seq<char>
    decreases n,
{
    if n < 10 {
        seq![hex_char(n as int)]
    } else {
        decimal(n / 10).push(hex_char((n % 10) as int))
    }
}

/// Appends the decimal digits of `n` to `out`.
pub(crate) fn push_decimal(out: &mut String, n: usize)
    ensures
        final(out)@ == old(out)@ + decimal(n as nat),
    decreases n,
{
    if n >= 10 {
        push_decimal(out, n / 10);
    }
    push_char(out, hex_char_exec((n % 10) as u8));
    proof {
        if n < 10 {
            assert(old(out)@.push(hex_char(n as int)) =~= old(out)@ + decimal(n as nat));
        } else {
            assert(decimal(n as nat) == decimal((n / 10) as nat).push(hex_char((n % 10) as int)));
            assert(old(out)@ + decimal((n / 10) as nat) + seq![hex_char((n % 10) as int)]
                =~= old(out)@ + decimal(n as nat));
        }
    }
}

/// Whether `a` and `b` hold the same characters.
pub fn same_text(a: &str, b: &str) -> (r: bool)
    ensures
        r == (a@ == b@),
{
    let x = chars_of(a);
    let y = chars_of(b);
    if x.len() != y.len() {
        return false;
    }
    let mut i: usize = 0;
    while i < x.len()
        invariant
            x@ == a@,
            y@ == b@,
            x.len() == y.len(),
            i <= x.len(),
            forall|j: int| 0 <= j < i ==> x@[j] == y@[j],
        decreases x.len() - i,
    {
        if x[i] != y[i] {
            return false;
        }
        i = i + 1;
    }
    assert(x@ =~= y@);
    true
}

} // verus!
