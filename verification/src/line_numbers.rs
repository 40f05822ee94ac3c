//! The line number gutter.
use vstd::prelude::*;
use crate::text::{decimal, push_char, push_decimal};

verus! {

/// Number of decimal digits of `n` (one for zero).
pub open spec fn decimal_digits(n: nat) -> nat
    decreases n,
{
    if n < 10 {
        1
    } else {
        1 + decimal_digits(n / 10)
    }
}

/// Width, in digits, of the widest line number of a text with
/// `line_count` lines: the number of decimal digits of `line_count`, and
/// one for no lines.
pub fn digit_width(line_count: usize) -> (w: usize)
    ensures
        w == decimal_digits(line_count as nat),
{
    let mut n = line_count;
    let mut w: usize = 1;
    while n >= 10
        invariant
            w + decimal_digits(n as nat) == 1 + decimal_digits(line_count as nat),
        decreases n,
    {
        proof {
            lemma_digits_bound(n as nat);
            lemma_digits_bound(n as nat / 10);
            lemma_digits_bound(line_count as nat);
        }
        n = n / 10;
        w = w + 1;
    }
    w
}

proof fn lemma_digits_bound(n: nat)
    ensures
        decimal_digits(n) >= 1,
        n >= 1 ==> decimal_digits(n) <= n,
    decreases n,
{
    if n >= 10 {
        lemma_digits_bound(n / 10);
    }
}

/// The decimal digits of `n` are as many as `decimal_digits` counts.
pub proof fn lemma_decimal_len(n: nat)
    ensures
        decimal(n).len() == decimal_digits(n),
    decreases n,
{
    if n >= 10 {
        lemma_decimal_len(n / 10);
    }
}

/// Number `n` as the gutter shows it: right-aligned in `width` columns
/// (spaces in front, none when it is wider), then one space.
pub open spec fn gutter_text(n: nat, width: nat) -> Seq<char> {
    let digits = decimal(n);
    let pad: nat = if width > digits.len() {
        (width - digits.len()) as nat
    } else {
        0
    };
    Seq::new(pad, |i: int| ' ') + digits + seq![' ']
}

/// The gutter's text for line number `n` in a gutter `width` digits wide.
pub fn gutter_label(n: usize, width: usize) -> (r: String)
    ensures
        r@ == gutter_text(n as nat, width as nat),
{
    let w = digit_width(n);
    proof {
        lemma_decimal_len(n as nat);
    }
    let mut r = String::new();
    let mut k: usize = w;
    while k < width
        invariant
            w <= k,
            k <= width || width < w,
            width < w ==> k == w,
            w == decimal(n as nat).len(),
            r@ == Seq::new((k - w) as nat, |i: int| ' '),
        decreases width - k,
    {
        push_char(&mut r, ' ');
        k = k + 1;
        assert(r@ =~= Seq::new((k - w) as nat, |i: int| ' '));
    }
    if width > w {
        assert(k == width);
    } else {
        assert(k == w);
    }
    assert(r@ =~= Seq::new(
        if width > decimal(n as nat).len() { (width - decimal(n as nat).len()) as nat } else { 0 },
        |i: int| ' ',
    ));
    push_decimal(&mut r, n);
    push_char(&mut r, ' ');
    r
}

} // verus!
