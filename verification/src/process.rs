//! Splitting one unblamed hunk along the change stream of one graph edge.
//!
//! For one edge from a child commit to one of its parents, every hunk that
//! suspects the child is cut into pieces: pieces that fall into an unchanged
//! region gain a suspect pointing at the parent, translated into the parent's
//! coordinates; pieces that fall into changed regions keep their suspects
//! unchanged.  The pieces always partition the hunk's range in the blamed
//! file, so no line is ever lost or duplicated.

use vstd::prelude::*;

use crate::changes::{
    change_next_a, change_next_b, changes_end_a, changes_end_b, changes_ok_from, changes_wf, Change,
};
use crate::span::{covers, Span};
use crate::types::{Suspect, UnblamedHunk};

verus! {

/// Whether the ranges of `ps` chain seamlessly from line `from` to line `to`
/// of the blamed file.
pub open spec fn pieces_glued(ps: Seq<UnblamedHunk>, from: int, to: int) -> bool {
    &&& ps.len() == 0 ==> from == to
    &&& ps.len() > 0 ==> ps[0].range_in_blamed_file.start == from
        && ps.last().range_in_blamed_file.end == to
    &&& forall|i: int|
        0 <= i < ps.len() ==> (#[trigger] ps[i]).range_in_blamed_file.nonempty()
    &&& forall|i: int|
        0 <= i && i + 1 < ps.len() ==> (#[trigger] ps[i]).range_in_blamed_file.end == ps[i
            + 1].range_in_blamed_file.start
}

/// Whether every suspect of `p` points either at `parent` or at a commit
/// that `h` already suspected.
pub open spec fn piece_suspects_ok(p: UnblamedHunk, h: UnblamedHunk, parent: int) -> bool {
    forall|i: int|
        0 <= i < p.suspects@.len() ==> ((#[trigger] p.suspects@[i]).commit == parent
            || h.spec_has_suspect(p.suspects@[i].commit as int))
}

/// Appending a piece that starts where the chain ended extends the chain.
proof fn lemma_pieces_glued_push(ps: Seq<UnblamedHunk>, from: int, to: int, p: UnblamedHunk)
    requires
        pieces_glued(ps, from, to),
        p.range_in_blamed_file.start == to,
        p.range_in_blamed_file.nonempty(),
    ensures
        pieces_glued(ps.push(p), from, p.range_in_blamed_file.end as int),
{
    let e = ps.push(p);
    assert(e.last() == p);
    assert forall|i: int| 0 <= i < e.len() implies (
    #[trigger] e[i]).range_in_blamed_file.nonempty() by {
        if i < ps.len() {
            assert(e[i] == ps[i]);
        }
    }
    assert forall|i: int| 0 <= i && i + 1 < e.len() implies (
    #[trigger] e[i]).range_in_blamed_file.end == e[i + 1].range_in_blamed_file.start by {
        if i + 1 < ps.len() {
            assert(e[i] == ps[i] && e[i + 1] == ps[i + 1]);
        } else {
            assert(i + 1 == ps.len());
            if ps.len() > 0 {
                assert(e[i] == ps[ps.len() - 1]);
            }
        }
    }
}

/// Dropping the last piece of a glued chain leaves a glued chain up to that
/// piece's start.
proof fn lemma_glued_drop_last(ps: Seq<UnblamedHunk>, from: int, to: int)
    requires
        pieces_glued(ps, from, to),
        ps.len() > 0,
    ensures
        pieces_glued(ps.drop_last(), from, ps.last().range_in_blamed_file.start as int),
        ps.last().range_in_blamed_file.end == to,
{
    let shorter = ps.drop_last();
    assert(forall|i: int| 0 <= i < shorter.len() ==> shorter[i] == ps[i]);
    if ps.len() > 1 {
        assert(shorter[0] == ps[0]);
        assert(shorter.last() == ps[ps.len() - 2]);
        assert(ps[ps.len() - 2].range_in_blamed_file.end == ps[ps.len()
            - 1].range_in_blamed_file.start);
    }
}

/// A glued chain never runs backwards.
proof fn lemma_glued_bounds(ps: Seq<UnblamedHunk>, from: int, to: int)
    requires
        pieces_glued(ps, from, to),
    ensures
        from <= to,
    decreases ps.len(),
{
    if ps.len() > 0 {
        lemma_glued_drop_last(ps, from, to);
        lemma_glued_bounds(ps.drop_last(), from, ps.last().range_in_blamed_file.start as int);
        assert(ps.last().range_in_blamed_file.nonempty());
    }
}

/// A glued chain covers each line of its full range exactly once, and no
/// other line.
pub proof fn lemma_pieces_glued_cover(ps: Seq<UnblamedHunk>, from: int, to: int, l: int)
    requires
        pieces_glued(ps, from, to),
    ensures
        crate::span::cover_count(crate::types::hunk_spans(ps), l) == if from <= l < to {
            1int
        } else {
            0int
        },
    decreases ps.len(),
{
    let spans = crate::types::hunk_spans(ps);
    if ps.len() == 0 {
    } else {
        let shorter = ps.drop_last();
        let mid = ps.last().range_in_blamed_file.start as int;
        lemma_glued_drop_last(ps, from, to);
        lemma_glued_bounds(shorter, from, mid);
        lemma_pieces_glued_cover(shorter, from, mid, l);
        assert(spans.drop_last() =~= crate::types::hunk_spans(shorter));
        assert(spans.last() == ps.last().range_in_blamed_file);
        assert(covers(ps.last().range_in_blamed_file, l) <==> mid <= l < to);
        assert(ps.last().range_in_blamed_file.end == to);
    }
}

/// Build one piece of `h` covering `[ov_s, ov_e)` of the suspect range that
/// starts at `rs`: the blamed range and every suspect start shift along, and
/// `extra`, when given, joins the suspects.
fn hunk_piece(
    h: &UnblamedHunk,
    rs: u32,
    ov_s: u32,
    ov_e: u32,
    extra: Option<Suspect>,
    n_commits: usize,
) -> (p: UnblamedHunk)
    requires
        h.wf(n_commits as int),
        rs <= ov_s < ov_e,
        ov_e - rs <= h.range_in_blamed_file.spec_len(),
        extra matches Some(sus) ==> sus.commit < n_commits && sus.start_in_source + (ov_e - ov_s)
            <= u32::MAX && !h.spec_has_suspect(sus.commit as int),
    ensures
        p.wf(n_commits as int),
        p.range_in_blamed_file.start == h.range_in_blamed_file.start + (ov_s - rs),
        p.range_in_blamed_file.end == h.range_in_blamed_file.start + (ov_e - rs),
        extra matches Some(sus) ==> piece_suspects_ok(p, *h, sus.commit as int),
        extra is None ==> forall|q: int| piece_suspects_ok(p, *h, q),
        forall|c: int| h.spec_has_suspect(c) ==> p.spec_has_suspect(c),
        extra matches Some(sus) ==> p.spec_has_suspect(sus.commit as int),
{
    let shift = ov_s - rs;
    let plen = ov_e - ov_s;
    let bs = h.range_in_blamed_file.start;
    let mut suspects: Vec<Suspect> = Vec::new();
    let mut i: usize = 0;
    let n = h.suspects.len();
    while i < n
        invariant
            h.wf(n_commits as int),
            n == h.suspects@.len(),
            0 <= i <= n,
            rs <= ov_s < ov_e,
            ov_e - rs <= h.range_in_blamed_file.spec_len(),
            shift == ov_s - rs,
            plen == ov_e - ov_s,
            suspects@.len() == i,
            forall|k: int|
                0 <= k < i ==> (#[trigger] suspects@[k]) == (Suspect {
                    commit: h.suspects@[k].commit,
                    start_in_source: (h.suspects@[k].start_in_source + shift) as u32,
                }),
        decreases n - i,
    {
        let s = h.suspects[i];
        proof {
            assert(s.start_in_source + h.range_in_blamed_file.spec_len() <= u32::MAX);
        }
        suspects.push(Suspect { commit: s.commit, start_in_source: s.start_in_source + shift });
        i = i + 1;
    }
    let ghost base = suspects@;
    match extra {
        Some(sus) => {
            suspects.push(sus);
        },
        None => {},
    }
    let p = UnblamedHunk {
        range_in_blamed_file: Span { start: bs + shift, end: bs + (ov_e - rs) },
        suspects,
    };
    proof {
        assert forall|c: int| h.spec_has_suspect(c) implies p.spec_has_suspect(c) by {
            let k = choose|k: int|
                0 <= k < h.suspects@.len() && (#[trigger] h.suspects@[k]).commit == c;
            assert(p.suspects@[k].commit == c);
        }
        match extra {
            Some(sus) => {
                assert(p.suspects@.last() == sus);
                assert(p.suspects@[p.suspects@.len() - 1].commit == sus.commit);
            },
            None => {},
        }
        assert forall|i: int, j: int|
            0 <= i < j < p.suspects@.len() implies (#[trigger] p.suspects@[i]).commit != (
        #[trigger] p.suspects@[j]).commit by {
            if j < base.len() {
                assert(h.suspects@[i].commit != h.suspects@[j].commit);
            } else {
                assert(p.suspects@[i].commit == h.suspects@[i].commit);
                assert(!h.spec_has_suspect(p.suspects@[j].commit as int));
            }
        }
    }
    p
}

/// Cut `h` — which suspects `child` with a range starting at line `rs` of
/// the child's version — along `changes`, the change stream of the edge from
/// the child to `parent`, and append the pieces to `out`.  Pieces falling
/// into unchanged regions gain a suspect pointing at `parent`; pieces in
/// changed regions, and any part of the suspect range beyond the child's
/// `al` lines, keep their suspects as they are.
#[verifier::rlimit(100)]
pub(crate) fn process_hunk_edge(
    h: &UnblamedHunk,
    child: usize,
    rs: u32,
    parent: usize,
    changes: &Vec<Change>,
    bl: u32,
    al: u32,
    n_commits: usize,
    out: &mut Vec<UnblamedHunk>,
)
    requires
        h.wf(n_commits as int),
        h.spec_has_suspect(child as int),
        exists|k: int|
            0 <= k < h.suspects@.len() && (#[trigger] h.suspects@[k]) == (Suspect {
                commit: child,
                start_in_source: rs,
            }),
        parent < n_commits,
        changes_wf(changes@, bl as int, al as int),
    ensures
        final(out)@.len() > old(out)@.len(),
        final(out)@.take(old(out)@.len() as int) == old(out)@,
        pieces_glued(
            final(out)@.skip(old(out)@.len() as int),
            h.range_in_blamed_file.start as int,
            h.range_in_blamed_file.end as int,
        ),
        forall|i: int|
            old(out)@.len() <= i < final(out)@.len() ==> (#[trigger] final(out)@[i]).wf(
                n_commits as int,
            ) && piece_suspects_ok(final(out)@[i], *h, parent as int),
{
    let ghost base = out@.len() as int;
    let bs = h.range_in_blamed_file.start;
    let be = h.range_in_blamed_file.end;
    proof {
        let k = choose|k: int|
            0 <= k < h.suspects@.len() && (#[trigger] h.suspects@[k]) == (Suspect {
                commit: child,
                start_in_source: rs,
            });
        assert(h.suspects@[k].start_in_source + h.range_in_blamed_file.spec_len() <= u32::MAX);
    }
    let len = be - bs;
    let re = rs + len;
    let parent_known = h.has_suspect(parent);
    let n = changes.len();
    let mut k: usize = 0;
    let mut pos_a: u32 = 0;
    let mut pos_b: u32 = 0;
    let mut cut: u32 = rs;
    proof {
        assert(changes@.skip(0) =~= changes@);
        assert(out@.take(base) =~= old(out)@);
        assert(out@.skip(base) =~= Seq::<UnblamedHunk>::empty());
    }
    while k < n
        invariant
            h.wf(n_commits as int),
            parent < n_commits,
            n == changes@.len(),
            0 <= k <= n,
            bs == h.range_in_blamed_file.start,
            be == h.range_in_blamed_file.end,
            bs < be,
            len == be - bs,
            re == rs + len,
            parent_known == h.spec_has_suspect(parent as int),
            0 <= pos_a <= al,
            0 <= pos_b <= bl,
            changes_ok_from(changes@.skip(k as int), pos_a as int, pos_b as int, al as int, bl as int),
            changes_end_a(changes@.skip(k as int), pos_a as int) == al,
            changes_end_b(changes@.skip(k as int), pos_b as int) == bl,
            rs <= cut <= re,
            pos_a <= rs ==> cut == rs,
            pos_a >= re ==> cut == re,
            rs <= pos_a <= re ==> cut == pos_a,
            0 <= base <= out@.len(),
            out@.take(base) == old(out)@,
            pieces_glued(out@.skip(base), bs as int, bs + (cut - rs)),
            forall|i: int|
                base <= i < out@.len() ==> (#[trigger] out@[i]).wf(n_commits as int)
                    && piece_suspects_ok(out@[i], *h, parent as int),
        decreases n - k,
    {
        let c = changes[k];
        proof {
            assert(changes@.skip(k as int)[0] == changes@[k as int]);
            assert(changes@.skip(k as int).skip(1) =~= changes@.skip(k + 1));
        }
        match c {
            Change::Unchanged(s) => {
                let ov_s = if s.start > cut {
                    s.start
                } else {
                    cut
                };
                let ov_e = if s.end < re {
                    s.end
                } else {
                    re
                };
                if ov_s < ov_e {
                    proof {
                        assert(ov_s == cut);
                    }
                    let src = pos_b + (ov_s - s.start);
                    let extra = if parent_known {
                        None
                    } else {
                        Some(Suspect { commit: parent, start_in_source: src })
                    };
                    let ghost chain = out@.skip(base);
                    let ghost pre = out@;
                    let p = hunk_piece(h, rs, ov_s, ov_e, extra, n_commits);
                    proof {
                        lemma_pieces_glued_push(chain, bs as int, bs + (cut - rs), p);
                    }
                    out.push(p);
                    proof {
                        assert(out@ == pre.push(p));
                        assert(0 <= base <= pre.len());
                        assert(chain.len() == pre.len() - base);
                        assert forall|i: int| 0 <= i < chain.len() implies chain[i] == pre[base
                            + i] by {}
                        assert(out@.skip(base) =~= chain.push(p));
                        assert(out@.take(base) =~= pre.take(base));
                    }
                    cut = ov_e;
                }
                pos_a = s.end;
                pos_b = pos_b + (s.end - s.start);
            },
            Change::AddedOrReplaced(s, del) => {
                let ov_s = if s.start > cut {
                    s.start
                } else {
                    cut
                };
                let ov_e = if s.end < re {
                    s.end
                } else {
                    re
                };
                if ov_s < ov_e {
                    proof {
                        assert(ov_s == cut);
                    }
                    let ghost chain = out@.skip(base);
                    let ghost pre = out@;
                    let p = hunk_piece(h, rs, ov_s, ov_e, None, n_commits);
                    proof {
                        lemma_pieces_glued_push(chain, bs as int, bs + (cut - rs), p);
                    }
                    out.push(p);
                    proof {
                        assert(out@ == pre.push(p));
                        assert(0 <= base <= pre.len());
                        assert(chain.len() == pre.len() - base);
                        assert forall|i: int| 0 <= i < chain.len() implies chain[i] == pre[base
                            + i] by {}
                        assert(out@.skip(base) =~= chain.push(p));
                        assert(out@.take(base) =~= pre.take(base));
                    }
                    cut = ov_e;
                }
                pos_a = s.end;
                pos_b = pos_b + del;
            },
            Change::Deleted(_, d) => {
                pos_b = pos_b + d;
            },
        }
        k = k + 1;
    }
    if cut < re {
        let ghost chain = out@.skip(base);
        let ghost pre = out@;
        let p = hunk_piece(h, rs, cut, re, None, n_commits);
        proof {
            lemma_pieces_glued_push(chain, bs as int, bs + (cut - rs), p);
        }
        out.push(p);
        proof {
            assert(out@ == pre.push(p));
            assert(0 <= base <= pre.len());
            assert(chain.len() == pre.len() - base);
            assert forall|i: int| 0 <= i < chain.len() implies chain[i] == pre[base + i] by {}
            assert(out@.skip(base) =~= chain.push(p));
            assert(out@.take(base) =~= pre.take(base));
        }
    }
    proof {
        assert(out@.skip(base).len() > 0);
    }
}

} // verus!
