//! The boundary to the outside diff algorithm.
//!
//! The engine never inspects blob bytes itself: it hands two blobs to
//! `imara-diff` and receives the changed hunks.  What a hunk list looks like
//! structurally — ordered, within bounds, with matching unchanged gaps on
//! both sides — is stated here and everything downstream is proved against
//! that statement.

use vstd::prelude::*;

use crate::lines::line_count;
use crate::types::Algorithm;

verus! {

/// What the histogram diff of two blobs, tokenized into lines, returns: a
/// list of `(before_start, before_end, after_start, after_end)` line ranges.
/// The result depends on the two blobs alone.
pub uninterp spec fn histogram_hunks_of(before: Seq<u8>, after: Seq<u8>) -> Seq<
    (u32, u32, u32, u32),
>;

/// What the Myers diff of two blobs, tokenized into lines, returns.  The
/// result depends on the two blobs alone.
pub uninterp spec fn myers_hunks_of(before: Seq<u8>, after: Seq<u8>) -> Seq<(u32, u32, u32, u32)>;

/// The structure of a hunk list over a `before` file of `bl` lines and an
/// `after` file of `al` lines: hunks are within bounds, non-empty on at least
/// one side, strictly ordered with at least one unchanged line between them,
/// and the unchanged gaps before, between and after the hunks have the same
/// length on both sides.
pub open spec fn hunks_wf(hs: Seq<(u32, u32, u32, u32)>, bl: int, al: int) -> bool {
    &&& forall|i: int|
        0 <= i < hs.len() ==> {
            let h = #[trigger] hs[i];
            h.0 <= h.1 <= bl && h.2 <= h.3 <= al && (h.0 < h.1 || h.2 < h.3)
        }
    &&& forall|i: int|
        0 <= i && i + 1 < hs.len() ==> {
            let h = #[trigger] hs[i];
            let g = hs[i + 1];
            h.1 < g.0 && h.3 < g.2 && g.0 - h.1 == g.2 - h.3
        }
    &&& hs.len() == 0 ==> bl == al
    &&& hs.len() > 0 ==> hs[0].0 == hs[0].2 && bl - hs.last().1 == al - hs.last().3
}

/// Relies on `imara_diff::Diff::compute` over `imara_diff::sources::byte_lines`
/// tokens: the hunk iterator yields the changed line ranges in monotonically
/// increasing order, separated and surrounded by equally long unchanged
/// regions on both sides, and the diff of two blobs is a function of their
/// bytes alone.  `byte_lines` splits at newline bytes, terminators included,
/// which is what `line_count` counts.  `compute` asserts that each side has
/// fewer than `i32::MAX` tokens; a blob of fewer bytes than that can never
/// reach the assertion, so such blobs are required here.
#[verifier::external_body]
pub(crate) fn diff_hunks(algorithm: Algorithm, before: &Vec<u8>, after: &Vec<u8>) -> (r: Vec<
    (u32, u32, u32, u32),
>)
    requires
        before@.len() < 0x7fff_ffff,
        after@.len() < 0x7fff_ffff,
    ensures
        algorithm == Algorithm::Histogram ==> r@ == histogram_hunks_of(before@, after@),
        algorithm == Algorithm::Myers ==> r@ == myers_hunks_of(before@, after@),
        hunks_wf(r@, line_count(before@), line_count(after@)),
{
    let input = imara_diff::InternedInput::new(
        imara_diff::sources::byte_lines(before),
        imara_diff::sources::byte_lines(after),
    );
    let algo = match algorithm {
        Algorithm::Histogram => imara_diff::Algorithm::Histogram,
        Algorithm::Myers => imara_diff::Algorithm::Myers,
    };
    let diff = imara_diff::Diff::compute(algo, &input);
    diff.hunks().map(|h| (h.before.start, h.before.end, h.after.start, h.after.end)).collect()
}

} // verus!
