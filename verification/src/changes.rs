//! Reducing a diff's hunk list to a change stream over the newer revision.

use vstd::prelude::*;

use crate::diffwrap::hunks_wf;
use crate::span::Span;

verus! {

/// A single change between two versions of the blamed file, or an unchanged
/// region, in the coordinates of the newer (*after*) version.
#[derive(Clone, Copy, Debug, PartialEq, Eq, Structural)]
pub enum Change {
    /// A range of lines that is byte-identical in the older version.
    Unchanged(Span),
    /// A range of lines with no counterpart in the older version, together
    /// with the amount of older lines it replaces.
    AddedOrReplaced(Span, u32),
    /// A position where lines of the older version were deleted, together
    /// with their amount.  It covers no newer lines; it only shifts the
    /// coordinate translation.
    Deleted(u32, u32),
}

/// The position in the newer version after `c`, starting from `a`.
pub open spec fn change_next_a(c: Change, a: int) -> int {
    match c {
        Change::Unchanged(s) => s.end as int,
        Change::AddedOrReplaced(s, _) => s.end as int,
        Change::Deleted(_, _) => a,
    }
}

/// The position in the older version after `c`, starting from `b`.
pub open spec fn change_next_b(c: Change, b: int) -> int {
    match c {
        Change::Unchanged(s) => b + s.spec_len(),
        Change::AddedOrReplaced(_, del) => b + del,
        Change::Deleted(_, d) => b + d,
    }
}

/// Whether `c` is a sound next change at newer position `a` and older
/// position `b`, within a newer version of `al` lines and an older one of
/// `bl` lines.
pub open spec fn change_ok(c: Change, a: int, b: int, al: int, bl: int) -> bool {
    match c {
        Change::Unchanged(s) => s.start == a && s.start < s.end && s.end <= al && b + s.spec_len()
            <= bl,
        Change::AddedOrReplaced(s, del) => s.start == a && s.start < s.end && s.end <= al && b + del
            <= bl,
        Change::Deleted(p, d) => p == a && d >= 1 && b + d <= bl,
    }
}

/// Whether `cs` is a sound sequence of changes starting at positions
/// `(a, b)`.
pub open spec fn changes_ok_from(cs: Seq<Change>, a: int, b: int, al: int, bl: int) -> bool
    decreases cs.len(),
{
    if cs.len() == 0 {
        true
    } else {
        change_ok(cs[0], a, b, al, bl) && changes_ok_from(
            cs.skip(1),
            change_next_a(cs[0], a),
            change_next_b(cs[0], b),
            al,
            bl,
        )
    }
}

/// The newer position after all of `cs`, starting from `a`.
pub open spec fn changes_end_a(cs: Seq<Change>, a: int) -> int
    decreases cs.len(),
{
    if cs.len() == 0 {
        a
    } else {
        changes_end_a(cs.skip(1), change_next_a(cs[0], a))
    }
}

/// The older position after all of `cs`, starting from `b`.
pub open spec fn changes_end_b(cs: Seq<Change>, b: int) -> int
    decreases cs.len(),
{
    if cs.len() == 0 {
        b
    } else {
        changes_end_b(cs.skip(1), change_next_b(cs[0], b))
    }
}

/// Whether `cs` describes a full diff between an older version of `bl` lines
/// and a newer one of `al` lines: the changes are sequential from the start
/// of the file and together they account for all lines of both versions.
pub open spec fn changes_wf(cs: Seq<Change>, bl: int, al: int) -> bool {
    &&& changes_ok_from(cs, 0, 0, al, bl)
    &&& changes_end_a(cs, 0) == al
    &&& changes_end_b(cs, 0) == bl
}

/// Appending a change that is sound at the sequence's end keeps the sequence
/// sound and advances its end positions.
pub proof fn lemma_changes_push(cs: Seq<Change>, a: int, b: int, al: int, bl: int, x: Change)
    requires
        changes_ok_from(cs, a, b, al, bl),
        change_ok(x, changes_end_a(cs, a), changes_end_b(cs, b), al, bl),
    ensures
        changes_ok_from(cs.push(x), a, b, al, bl),
        changes_end_a(cs.push(x), a) == change_next_a(x, changes_end_a(cs, a)),
        changes_end_b(cs.push(x), b) == change_next_b(x, changes_end_b(cs, b)),
    decreases cs.len(),
{
    let e = cs.push(x);
    if cs.len() == 0 {
        assert(e[0] == x);
        assert(e.skip(1) =~= Seq::<Change>::empty());
        assert(changes_ok_from(e.skip(1), change_next_a(x, a), change_next_b(x, b), al, bl));
        assert(changes_end_a(e, a) == changes_end_a(e.skip(1), change_next_a(e[0], a)));
        assert(changes_end_b(e, b) == changes_end_b(e.skip(1), change_next_b(e[0], b)));
    } else {
        assert(e.skip(1) =~= cs.skip(1).push(x));
        lemma_changes_push(
            cs.skip(1),
            change_next_a(cs[0], a),
            change_next_b(cs[0], b),
            al,
            bl,
            x,
        );
        assert(e[0] == cs[0]);
        assert(changes_ok_from(
            e.skip(1),
            change_next_a(cs[0], a),
            change_next_b(cs[0], b),
            al,
            bl,
        ));
        assert(changes_ok_from(e, a, b, al, bl));
        assert(changes_end_a(e, a) == changes_end_a(e.skip(1), change_next_a(e[0], a)));
        assert(changes_end_b(e, b) == changes_end_b(e.skip(1), change_next_b(e[0], b)));
    }
}

/// Consume the hunk list of a diff between an older version of `bl` lines
/// and a newer one of `al` lines, and produce the ordered change stream
/// covering the entire newer line space.
pub fn classify(hunks: &Vec<(u32, u32, u32, u32)>, bl: u32, al: u32) -> (r: Vec<Change>)
    requires
        hunks_wf(hunks@, bl as int, al as int),
    ensures
        changes_wf(r@, bl as int, al as int),
{
    let n = hunks.len();
    let mut out: Vec<Change> = Vec::new();
    let mut pos_a: u32 = 0;
    let mut pos_b: u32 = 0;
    let mut i: usize = 0;
    while i < n
        invariant
            hunks_wf(hunks@, bl as int, al as int),
            n == hunks@.len(),
            0 <= i <= n,
            pos_a <= al,
            pos_b <= bl,
            changes_ok_from(out@, 0, 0, al as int, bl as int),
            changes_end_a(out@, 0) == pos_a,
            changes_end_b(out@, 0) == pos_b,
            i < n ==> pos_a <= hunks@[i as int].2 && pos_b <= hunks@[i as int].0,
            i < n ==> hunks@[i as int].2 - pos_a == hunks@[i as int].0 - pos_b,
            i == n && n > 0 ==> pos_a == hunks@[n - 1].3 && pos_b == hunks@[n - 1].1,
            i == 0 ==> pos_a == 0 && pos_b == 0,
        decreases n - i,
    {
        let h = hunks[i];
        if h.2 > pos_a {
            let c = Change::Unchanged(Span { start: pos_a, end: h.2 });
            proof {
                lemma_changes_push(out@, 0, 0, al as int, bl as int, c);
            }
            out.push(c);
            pos_b = pos_b + (h.2 - pos_a);
            pos_a = h.2;
        }
        if h.3 > h.2 {
            let c = Change::AddedOrReplaced(Span { start: h.2, end: h.3 }, h.1 - h.0);
            proof {
                lemma_changes_push(out@, 0, 0, al as int, bl as int, c);
            }
            out.push(c);
            pos_a = h.3;
            pos_b = h.1;
        } else {
            let c = Change::Deleted(h.2, h.1 - h.0);
            proof {
                lemma_changes_push(out@, 0, 0, al as int, bl as int, c);
            }
            out.push(c);
            pos_b = h.1;
        }
        i = i + 1;
        proof {
            if i < n {
                assert(hunks@[i - 1].1 < hunks@[i as int].0);
                assert(hunks@[i - 1].3 < hunks@[i as int].2);
            }
        }
    }
    if al > pos_a {
        let c = Change::Unchanged(Span { start: pos_a, end: al });
        proof {
            if n > 0 {
                assert(pos_b + (al - pos_a) == bl);
            }
            lemma_changes_push(out@, 0, 0, al as int, bl as int, c);
        }
        out.push(c);
        pos_b = pos_b + (al - pos_a);
        pos_a = al;
    }
    proof {
        if n > 0 {
            assert(bl - hunks@[n - 1].1 == al - hunks@[n - 1].3);
        }
    }
    out
}

} // verus!
