//! The set of final-file line ranges the caller wants attributed.

use vstd::prelude::*;

use crate::error::Error;
use crate::span::{lemma_spans_gap, lemma_spans_line_set_add, lemma_spans_line_set_contains, spans_line_set, Span};

verus! {

/// Whether `s` is a canonical interval list: every span non-empty, sorted,
/// with a gap of at least one line between consecutive spans (no overlap,
/// no touching).
pub open spec fn spans_canonical(s: Seq<Span>) -> bool {
    &&& forall|i: int| 0 <= i < s.len() ==> (#[trigger] s[i]).nonempty()
    &&& forall|i: int| 0 <= i && i + 1 < s.len() ==> (#[trigger] s[i]).end < s[i + 1].start
}

/// Whether `(start, end)` is a valid one-based inclusive line range.
pub open spec fn one_based_valid(start: u32, end: u32) -> bool {
    1 <= start <= end
}

/// The zero-based half-open span denoted by the one-based inclusive range
/// `(start, end)`.
pub open spec fn one_based_span(start: u32, end: u32) -> Span {
    Span { start: (start - 1) as u32, end }
}

/// One or more line ranges to blame in a file.
///
/// Callers hand ranges in as git's one-based inclusive pairs; internally the
/// ranges are kept as zero-based half-open spans, merged into a canonical
/// sorted list whenever two of them overlap or touch.
#[derive(Clone, Debug, PartialEq, Eq)]
pub enum BlameRanges {
    /// Blame the entire file.
    WholeFile,
    /// Blame the given zero-based half-open ranges.
    PartialFile(Vec<Span>),
}

impl BlameRanges {
    /// Whether the stored ranges are canonical.
    pub open spec fn wf(self) -> bool {
        match self {
            BlameRanges::WholeFile => true,
            BlameRanges::PartialFile(v) => spans_canonical(v@),
        }
    }

    /// The set of lines a partial instance asks for.
    pub open spec fn spec_line_set(self) -> Set<int> {
        match self {
            BlameRanges::WholeFile => Set::empty(),
            BlameRanges::PartialFile(v) => spans_line_set(v@),
        }
    }

    /// Blame the entire file.
    pub fn whole_file() -> (r: BlameRanges)
        ensures
            r == BlameRanges::WholeFile,
    {
        BlameRanges::WholeFile
    }

    /// Create from a single one-based inclusive range, as used by git.
    ///
    /// Fails exactly when the range does not denote at least one line, that
    /// is when `start` is zero or `end` lies before `start`.
    pub fn from_one_based_inclusive_range(start: u32, end: u32) -> (r: Result<
        BlameRanges,
        Error,
    >)
        ensures
            r is Ok <==> one_based_valid(start, end),
            r matches Ok(v) ==> {
                &&& v.wf()
                &&& v is PartialFile
                &&& v.spec_line_set() == one_based_span(start, end).line_set()
            },
            r matches Err(e) ==> e == Error::InvalidOneBasedLineRange,
    {
        if start < 1 || end < start {
            return Err(Error::InvalidOneBasedLineRange);
        }
        let span = Span { start: start - 1, end };
        let mut v: Vec<Span> = Vec::new();
        v.push(span);
        proof {
            assert(v@ =~= seq![span]);
            crate::span::lemma_spans_line_set_singleton(span);
        }
        Ok(BlameRanges::PartialFile(v))
    }

    /// Create from multiple one-based inclusive ranges, merging overlapping
    /// or touching ones.
    ///
    /// An empty list yields `WholeFile`.  Fails exactly when one of the
    /// ranges does not denote at least one line.
    pub fn from_one_based_inclusive_ranges(ranges: &Vec<(u32, u32)>) -> (r: Result<
        BlameRanges,
        Error,
    >)
        ensures
            r is Ok <==> forall|k: int|
                0 <= k < ranges@.len() ==> one_based_valid(
                    (#[trigger] ranges@[k]).0,
                    ranges@[k].1,
                ),
            r matches Ok(v) ==> {
                &&& v.wf()
                &&& ranges@.len() == 0 ==> v == BlameRanges::WholeFile
                &&& ranges@.len() > 0 ==> v is PartialFile
                &&& v.spec_line_set() == Set::<int>::new(
                    |i: int|
                        exists|k: int|
                            0 <= k < ranges@.len() && one_based_span(
                                (#[trigger] ranges@[k]).0,
                                ranges@[k].1,
                            ).line_set().contains(i),
                )
            },
            r matches Err(e) ==> e == Error::InvalidOneBasedLineRange,
    {
        if ranges.len() == 0 {
            proof {
                assert(BlameRanges::WholeFile.spec_line_set() =~= Set::<int>::new(
                    |i: int|
                        exists|k: int|
                            0 <= k < ranges@.len() && one_based_span(
                                (#[trigger] ranges@[k]).0,
                                ranges@[k].1,
                            ).line_set().contains(i),
                ));
            }
            return Ok(BlameRanges::WholeFile);
        }
        let mut v: Vec<Span> = Vec::new();
        let mut k: usize = 0;
        while k < ranges.len()
            invariant
                0 <= k <= ranges@.len(),
                spans_canonical(v@),
                forall|j: int|
                    0 <= j < k ==> one_based_valid((#[trigger] ranges@[j]).0, ranges@[j].1),
                spans_line_set(v@) =~= Set::<int>::new(
                    |i: int|
                        exists|j: int|
                            0 <= j < k && one_based_span(
                                (#[trigger] ranges@[j]).0,
                                ranges@[j].1,
                            ).line_set().contains(i),
                ),
            decreases ranges@.len() - k,
        {
            let (s, e) = ranges[k];
            if s < 1 || e < s {
                return Err(Error::InvalidOneBasedLineRange);
            }
            let span = Span { start: s - 1, end: e };
            merge_span(&mut v, span);
            k = k + 1;
            proof {
                assert(spans_line_set(v@) =~= Set::<int>::new(
                    |i: int|
                        exists|j: int|
                            0 <= j < k && one_based_span(
                                (#[trigger] ranges@[j]).0,
                                ranges@[j].1,
                            ).line_set().contains(i),
                ));
            }
        }
        Ok(BlameRanges::PartialFile(v))
    }

    /// Add one more one-based inclusive range, merging it with any stored
    /// range it overlaps or touches.
    ///
    /// Fails exactly when this instance blames the whole file, or when the
    /// range does not denote at least one line; the instance is unchanged
    /// then.
    pub fn add_range(&mut self, start: u32, end: u32) -> (r: Result<(), Error>)
        requires
            old(self).wf(),
        ensures
            final(self).wf(),
            r is Ok <==> (*old(self) is PartialFile && one_based_valid(start, end)),
            r is Ok ==> {
                &&& *final(self) is PartialFile
                &&& final(self).spec_line_set() == old(self).spec_line_set().union(
                    one_based_span(start, end).line_set(),
                )
            },
            r is Err ==> *final(self) == *old(self),
            r matches Err(e) ==> e == Error::InvalidOneBasedLineRange,
    {
        if start < 1 || end < start {
            return Err(Error::InvalidOneBasedLineRange);
        }
        match &mut *self {
            BlameRanges::PartialFile(v) => {
                merge_span(v, Span { start: start - 1, end });
                Ok(())
            },
            BlameRanges::WholeFile => Err(Error::InvalidOneBasedLineRange),
        }
    }

    /// The concrete zero-based ranges to blame in a file of `max_lines`
    /// lines: the stored ranges, or a single range covering the whole file.
    pub fn to_ranges(&self, max_lines: u32) -> (r: Vec<Span>)
        ensures
            self is WholeFile ==> r@ =~= seq![Span { start: 0, end: max_lines }],
            self matches BlameRanges::PartialFile(v) ==> r@ == v@,
    {
        match self {
            BlameRanges::WholeFile => {
                let mut v: Vec<Span> = Vec::new();
                v.push(Span { start: 0, end: max_lines });
                v
            },
            BlameRanges::PartialFile(v) => {
                let mut out: Vec<Span> = Vec::new();
                let mut i: usize = 0;
                while i < v.len()
                    invariant
                        0 <= i <= v@.len(),
                        out@ =~= v@.take(i as int),
                    decreases v@.len() - i,
                {
                    out.push(v[i]);
                    i = i + 1;
                }
                proof {
                    assert(out@ =~= v@);
                }
                out
            },
        }
    }
}

/// Merge `new` into the canonical interval list `v`: spans of `v` that
/// overlap or touch `new` are fused with it, the rest is kept; the result is
/// canonical again and covers exactly the old lines plus those of `new`.
#[verifier::rlimit(50)]
fn merge_span(v: &mut Vec<Span>, new: Span)
    requires
        spans_canonical(old(v)@),
        new.nonempty(),
    ensures
        spans_canonical(final(v)@),
        spans_line_set(final(v)@) == spans_line_set(old(v)@).union(new.line_set()),
{
    let n = v.len();
    let mut out: Vec<Span> = Vec::new();
    let mut cur = new;
    let mut i: usize = 0;
    proof {
        lemma_take_is_prefix(v@, 0);
    }
    while i < n && v[i].end < cur.start
        invariant
            spans_canonical(v@),
            n == v@.len(),
            0 <= i <= n,
            cur == new,
            out@ =~= v@.take(i as int),
            forall|j: int| 0 <= j < out@.len() ==> (#[trigger] out@[j]).end < cur.start,
        decreases n - i,
    {
        let s = v[i];
        out.push(s);
        i = i + 1;
    }
    let ghost pivot = i as int;
    while i < n && v[i].start <= cur.end
        invariant
            spans_canonical(v@),
            n == v@.len(),
            0 <= pivot <= i <= n,
            out@ =~= v@.take(pivot),
            new.nonempty(),
            cur.nonempty(),
            cur.start <= new.start,
            new.end <= cur.end,
            i == pivot ==> cur == new,
            pivot < n ==> v@[pivot].end >= new.start,
            i > pivot ==> cur.start <= v@[i - 1].start,
            forall|j: int| 0 <= j < out@.len() ==> (#[trigger] out@[j]).end < cur.start,
            cur.line_set() =~= new.line_set().union(
                spans_line_set(v@.subrange(pivot, i as int)),
            ),
        decreases n - i,
    {
        let s = v[i];
        let lo = if s.start < cur.start {
            s.start
        } else {
            cur.start
        };
        let hi = if s.end > cur.end {
            s.end
        } else {
            cur.end
        };
        let ghost prev = cur;
        proof {
            assert(s.start <= prev.end);
            if i == pivot {
                assert(prev.start <= s.end);
            } else {
                assert(v@[i - 1].end < v@[i as int].start);
                assert(prev.start <= v@[i - 1].start);
                assert(v@[i - 1].start < v@[i - 1].end);
                assert(prev.start <= s.end);
            }
        }
        cur = Span { start: lo, end: hi };
        proof {
            assert forall|j: int| 0 <= j < out@.len() implies (#[trigger] out@[j]).end
                < cur.start by {
                assert(out@[j] == v@[j]);
                lemma_spans_gap(v@, j, i as int);
            }
            assert(v@.subrange(pivot, i + 1).drop_last() =~= v@.subrange(pivot, i as int));
            assert(cur.line_set() =~= prev.line_set().union(s.line_set()));
            assert(cur.line_set() =~= new.line_set().union(
                spans_line_set(v@.subrange(pivot, i + 1)),
            ));
        }
        i = i + 1;
    }
    let ghost merged_end = i as int;
    proof {
        assert forall|j: int| 0 <= j < pivot implies (#[trigger] v@[j]).end < cur.start by {
            assert(out@[j] == v@[j]);
        }
    }
    out.push(cur);
    let ghost out_mid = out@;
    while i < n
        invariant
            spans_canonical(v@),
            n == v@.len(),
            0 <= pivot <= merged_end <= i <= n,
            out@ =~= out_mid + v@.subrange(merged_end, i as int),
            out_mid =~= v@.take(pivot).push(cur),
            cur.nonempty(),
            forall|j: int| 0 <= j < pivot ==> (#[trigger] v@[j]).end < cur.start,
            merged_end < n ==> cur.end < v@[merged_end].start,
        decreases n - i,
    {
        let s = v[i];
        out.push(s);
        proof {
            assert(out@ =~= out_mid + v@.subrange(merged_end, i + 1));
        }
        i = i + 1;
    }
    proof {
        lemma_merge_canonical(v@, cur, pivot, merged_end);
        lemma_merge_lines(v@, new, cur, pivot, merged_end);
        assert(out@ =~= v@.take(pivot).push(cur) + v@.subrange(merged_end, n as int));
    }
    *v = out;
}

/// `take` of a canonical list is canonical.
proof fn lemma_take_is_prefix(s: Seq<Span>, k: int)
    requires
        spans_canonical(s),
        0 <= k <= s.len(),
    ensures
        spans_canonical(s.take(k)),
{
}

/// `merge_span`'s result is canonical.
proof fn lemma_merge_canonical(v: Seq<Span>, cur: Span, pivot: int, merged_end: int)
    requires
        spans_canonical(v),
        cur.nonempty(),
        0 <= pivot <= merged_end <= v.len(),
        forall|j: int| 0 <= j < pivot ==> (#[trigger] v[j]).end < cur.start,
        merged_end < v.len() ==> cur.end < v[merged_end].start,
    ensures
        spans_canonical(v.take(pivot).push(cur) + v.subrange(merged_end, v.len() as int)),
{
    let prefix = v.take(pivot);
    let suffix = v.subrange(merged_end, v.len() as int);
    let combined = prefix.push(cur) + suffix;
    assert forall|i: int| 0 <= i < combined.len() implies (#[trigger] combined[i]).nonempty() by {
        if i < pivot {
            assert(combined[i] == v[i]);
        } else if i == pivot {
            assert(combined[i] == cur);
        } else {
            assert(combined[i] == v[merged_end + (i - pivot - 1)]);
        }
    }
    assert forall|i: int| 0 <= i && i + 1 < combined.len() implies (#[trigger] combined[i]).end
        < combined[i + 1].start by {
        if i + 1 < pivot {
            assert(combined[i] == v[i] && combined[i + 1] == v[i + 1]);
        } else if i + 1 == pivot {
            assert(combined[i] == v[i] && combined[i + 1] == cur);
        } else if i == pivot {
            assert(combined[i] == cur);
            assert(combined[i + 1] == v[merged_end]);
        } else {
            assert(combined[i] == v[merged_end + (i - pivot - 1)]);
            assert(combined[i + 1] == v[merged_end + (i - pivot)]);
        }
    }
}

/// `merge_span`'s result covers the old lines plus the new span's lines.
proof fn lemma_merge_lines(v: Seq<Span>, new: Span, cur: Span, pivot: int, merged_end: int)
    requires
        0 <= pivot <= merged_end <= v.len(),
        cur.line_set() == new.line_set().union(spans_line_set(v.subrange(pivot, merged_end))),
    ensures
        spans_line_set(v.take(pivot).push(cur) + v.subrange(merged_end, v.len() as int))
            == spans_line_set(v).union(new.line_set()),
{
    let prefix = v.take(pivot);
    let mid = v.subrange(pivot, merged_end);
    let suffix = v.subrange(merged_end, v.len() as int);
    let combined = prefix.push(cur) + suffix;
    lemma_spans_line_set_add(prefix.push(cur), suffix);
    crate::span::lemma_spans_line_set_push(prefix, cur);
    assert(spans_line_set(combined) == spans_line_set(prefix).union(cur.line_set()).union(
        spans_line_set(suffix),
    ));
    assert(v =~= prefix + mid + suffix);
    lemma_spans_line_set_add(prefix + mid, suffix);
    lemma_spans_line_set_add(prefix, mid);
    assert(spans_line_set(v) == spans_line_set(prefix).union(spans_line_set(mid)).union(
        spans_line_set(suffix),
    ));
    assert(spans_line_set(combined) =~= spans_line_set(v).union(new.line_set()));
}

/// Range merge law: merging two spans into a canonical range set yields the
/// same stored intervals regardless of the order in which they are added,
/// because a canonical list is determined by the lines it covers and set
/// union does not care about order.
pub proof fn lemma_add_order_independent(
    r1: Seq<Span>,
    r2: Seq<Span>,
    base: Set<int>,
    a: Span,
    b: Span,
)
    requires
        spans_canonical(r1),
        spans_canonical(r2),
        spans_line_set(r1) == base.union(a.line_set()).union(b.line_set()),
        spans_line_set(r2) == base.union(b.line_set()).union(a.line_set()),
    ensures
        r1 == r2,
{
    assert(base.union(a.line_set()).union(b.line_set()) =~= base.union(b.line_set()).union(
        a.line_set(),
    ));
    lemma_canonical_unique(r1, r2);
}

/// A canonical interval list is determined by the lines it covers: two
/// canonical lists covering the same line set are equal.  In particular,
/// merging two ranges into a range set yields the same stored intervals
/// regardless of the order in which they are added.
#[verifier::rlimit(100)]
pub proof fn lemma_canonical_unique(r1: Seq<Span>, r2: Seq<Span>)
    requires
        spans_canonical(r1),
        spans_canonical(r2),
        spans_line_set(r1) == spans_line_set(r2),
    ensures
        r1 == r2,
    decreases r1.len(),
{
    if r1.len() == 0 {
        if r2.len() > 0 {
            assert(r2[0].line_set().contains(r2[0].start as int));
            lemma_spans_line_set_contains(r2, r2[0].start as int);
            lemma_spans_line_set_contains(r1, r2[0].start as int);
            assert(false);
        }
        assert(r1 =~= r2);
    } else {
        if r2.len() == 0 {
            assert(r1[0].line_set().contains(r1[0].start as int));
            lemma_spans_line_set_contains(r1, r1[0].start as int);
            lemma_spans_line_set_contains(r2, r1[0].start as int);
            assert(false);
        }
        lemma_head_determined(r1, r2);
        lemma_head_determined(r2, r1);
        assert(r1[0] == r2[0]);
        let t1 = r1.skip(1);
        let t2 = r2.skip(1);
        lemma_tail_line_set(r1);
        lemma_tail_line_set(r2);
        assert(spans_line_set(t1) =~= spans_line_set(t2));
        lemma_canonical_unique(t1, t2);
        assert(r1.len() == r2.len());
        assert forall|i: int| 0 <= i < r1.len() implies r1[i] == r2[i] by {
            if i > 0 {
                assert(r1[i] == t1[i - 1]);
                assert(r2[i] == t2[i - 1]);
            }
        }
        assert(r1 =~= r2);
    }
}

/// The first span of a canonical list is determined by the covered line set:
/// its start is the least covered line, its end the first uncovered line
/// after it.
proof fn lemma_head_determined(r1: Seq<Span>, r2: Seq<Span>)
    requires
        spans_canonical(r1),
        spans_canonical(r2),
        spans_line_set(r1) == spans_line_set(r2),
        r1.len() > 0,
        r2.len() > 0,
    ensures
        r2[0].start <= r1[0].start,
        r1[0].start == r2[0].start ==> r1[0].end <= r2[0].end,
{
    assert(r1[0].line_set().contains(r1[0].start as int));
    lemma_spans_line_set_contains(r1, r1[0].start as int);
    lemma_spans_line_set_contains(r2, r1[0].start as int);
    let k = choose|k: int|
        0 <= k < r2.len() && #[trigger] r2[k].line_set().contains(r1[0].start as int);
    if k > 0 {
        lemma_spans_gap(r2, 0, k);
    }
    if r1[0].start == r2[0].start {
        if r1[0].end > r2[0].end {
            assert(r1[0].line_set().contains(r2[0].end as int));
            lemma_spans_line_set_contains(r1, r2[0].end as int);
            lemma_spans_line_set_contains(r2, r2[0].end as int);
            let m = choose|m: int|
                0 <= m < r2.len() && #[trigger] r2[m].line_set().contains(r2[0].end as int);
            if m > 0 {
                lemma_spans_gap(r2, 0, m);
            }
            assert(false);
        }
    }
}

/// Dropping the first span of a canonical list removes exactly its lines.
proof fn lemma_tail_line_set(s: Seq<Span>)
    requires
        spans_canonical(s),
        s.len() > 0,
    ensures
        spans_line_set(s.skip(1)) == spans_line_set(s).difference(s[0].line_set()),
{
    let t = s.skip(1);
    assert(s =~= seq![s[0]] + t);
    lemma_spans_line_set_add(seq![s[0]], t);
    crate::span::lemma_spans_line_set_singleton(s[0]);
    assert forall|x: int| spans_line_set(t).contains(x) implies !s[0].line_set().contains(x) by {
        lemma_spans_line_set_contains(t, x);
        let k = choose|k: int| 0 <= k < t.len() && #[trigger] t[k].line_set().contains(x);
        assert(t[k] == s[k + 1]);
        if k + 1 > 1 {
            lemma_spans_gap(s, 0, k + 1);
        }
        assert(x >= s[k + 1].start > s[0].end);
    }
    assert(spans_line_set(t) =~= spans_line_set(s).difference(s[0].line_set()));
}

} // verus!
