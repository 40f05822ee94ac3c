//! Line and column positions in a character sequence.
use vstd::prelude::*;
use crate::text::{byte_len, char_width, lemma_byte_len_take};

verus! {

/// Line and byte column reached after the first `k` characters of `h`:
/// a newline starts a new line, any other character moves the column by
/// its UTF-8 width.
pub open spec fn byte_position(h: Seq<char>, k: int) -> (int, int)
    decreases k,
{
    if k <= 0 {
        (0, 0)
    } else {
        let prev = byte_position(h, k - 1);
        if h[k - 1] == '\n' {
            (prev.0 + 1, 0)
        } else {
            (prev.0, prev.1 + char_width(h[k - 1]))
        }
    }
}

pub proof fn lemma_byte_position_bounds(h: Seq<char>, k: int)
    requires
        0 <= k <= h.len(),
    ensures
        0 <= byte_position(h, k).0 <= k,
        0 <= byte_position(h, k).1 <= byte_len(h.take(k)),
    decreases k,
{
    if k > 0 {
        lemma_byte_position_bounds(h, k - 1);
        lemma_byte_len_take(h, k - 1);
    }
}

} // verus!
