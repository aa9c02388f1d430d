//! Counting the lines of a blob.
//!
//! A line is a maximal run of bytes ending with a newline byte or with the
//! end of the blob; the terminator belongs to its line.  This matches how the
//! diff tokenizes blobs, so line numbers agree on both sides.

use vstd::prelude::*;

verus! {

/// The number of newline bytes in `s`.
pub open spec fn newline_count(s: Seq<u8>) -> int
    decreases s.len(),
{
    if s.len() == 0 {
        0
    } else {
        newline_count(s.drop_last()) + if s.last() == 10 {
            1int
        } else {
            0int
        }
    }
}

/// The number of lines of the blob `s`: one per newline byte, plus a final
/// unterminated line when the blob does not end with a newline.
pub open spec fn line_count(s: Seq<u8>) -> int {
    newline_count(s) + if s.len() > 0 && s.last() != 10 {
        1int
    } else {
        0int
    }
}

/// There are never more newlines than bytes.
pub proof fn lemma_newline_count_bound(s: Seq<u8>)
    ensures
        0 <= newline_count(s) <= s.len(),
    decreases s.len(),
{
    if s.len() > 0 {
        lemma_newline_count_bound(s.drop_last());
    }
}

/// There are never more lines than bytes.
pub proof fn lemma_line_count_bound(s: Seq<u8>)
    ensures
        0 <= line_count(s) <= s.len(),
{
    lemma_newline_count_bound(s);
    if s.len() > 0 && s.last() != 10 {
        lemma_newline_count_bound(s.drop_last());
    }
}

/// Count the lines of `blob`.
pub(crate) fn count_lines(blob: &Vec<u8>) -> (r: u32)
    requires
        blob@.len() < 0x7fff_ffff,
    ensures
        r == line_count(blob@),
{
    let n = blob.len();
    let mut newlines: u32 = 0;
    let mut i: usize = 0;
    proof {
        assert(blob@.take(0) =~= Seq::<u8>::empty());
    }
    while i < n
        invariant
            0 <= i <= n,
            n == blob@.len(),
            n < 0x7fff_ffff,
            newlines == newline_count(blob@.take(i as int)),
            newlines <= i,
        decreases n - i,
    {
        proof {
            assert(blob@.take(i + 1).drop_last() =~= blob@.take(i as int));
            assert(blob@.take(i + 1).last() == blob@[i as int]);
        }
        if blob[i] == 10 {
            newlines = newlines + 1;
        }
        i = i + 1;
    }
    proof {
        assert(blob@.take(n as int) =~= blob@);
    }
    if n > 0 && blob[n - 1] != 10 {
        newlines + 1
    } else {
        newlines
    }
}

} // verus!
