//! The passes the revision walk applies to the working set of hunks.
//!
//! All passes preserve the central coverage invariant: the ranges of the
//! pending hunks and of the finalized entries together cover each requested
//! line exactly as often as the seed did — once.

use vstd::prelude::*;

use crate::changes::{changes_wf, Change};
use crate::hash::ObjectId;
use crate::process::{lemma_pieces_glued_cover, piece_suspects_ok, process_hunk_edge};
use crate::repo::Repository;
use crate::span::{cover_count, covers, lemma_cover_count_add, lemma_cover_count_push, Span};
use crate::types::{entry_spans, hunk_spans, BlameEntry, Suspect, UnblamedHunk};

verus! {

/// A single span's list covers a line once when the span does, else not at
/// all.
pub proof fn lemma_cover_count_singleton(x: Span, l: int)
    ensures
        cover_count(seq![x], l) == if covers(x, l) {
            1int
        } else {
            0int
        },
{
    assert(seq![x].drop_last() =~= Seq::<Span>::empty());
    assert(cover_count(Seq::<Span>::empty(), l) == 0);
    assert(seq![x].last() == x);
}

/// Whether `ids` holds `id`.
pub open spec fn contains_id(ids: Seq<ObjectId>, id: ObjectId) -> bool {
    exists|k: int| 0 <= k < ids.len() && ids[k] == id
}

/// Whether `ids` holds `id`.
pub(crate) fn is_ignored(ids: &Vec<ObjectId>, id: &ObjectId) -> (r: bool)
    ensures
        r == contains_id(ids@, *id),
{
    let mut k: usize = 0;
    while k < ids.len()
        invariant
            0 <= k <= ids@.len(),
            forall|m: int| 0 <= m < k ==> ids@[m] != *id,
        decreases ids@.len() - k,
    {
        if ids[k] == *id {
            return true;
        }
        k = k + 1;
    }
    false
}

/// Every hunk is sound for a graph of `n` commits and suspects only commits
/// at `lo` or later.
pub open spec fn hunks_ok(hs: Seq<UnblamedHunk>, lo: int, n: int) -> bool {
    forall|i: int|
        0 <= i < hs.len() ==> (#[trigger] hs[i]).wf(n) && (forall|k: int|
            0 <= k < hs[i].suspects@.len() ==> (#[trigger] hs[i].suspects@[k]).commit >= lo)
}

/// Every entry is structurally sound.
pub open spec fn entries_wf(es: Seq<BlameEntry>) -> bool {
    forall|i: int| 0 <= i < es.len() ==> (#[trigger] es[i]).wf()
}

/// The combined cover count of pending hunks and finalized entries.
pub open spec fn total_cover(hs: Seq<UnblamedHunk>, es: Seq<BlameEntry>, l: int) -> int {
    cover_count(hunk_spans(hs) + entry_spans(es), l)
}

/// Whether some hunk suspects `commit`.
pub(crate) fn any_suspects(hunks: &Vec<UnblamedHunk>, commit: usize) -> (r: bool)
    ensures
        r == exists|i: int|
            0 <= i < hunks@.len() && (#[trigger] hunks@[i]).spec_has_suspect(commit as int),
{
    let mut i: usize = 0;
    while i < hunks.len()
        invariant
            0 <= i <= hunks@.len(),
            forall|k: int| 0 <= k < i ==> !(#[trigger] hunks@[k]).spec_has_suspect(commit as int),
        decreases hunks@.len() - i,
    {
        if hunks[i].has_suspect(commit) {
            return true;
        }
        i = i + 1;
    }
    false
}

/// A copy of the given hunk.
fn copy_hunk(h: &UnblamedHunk) -> (r: UnblamedHunk)
    ensures
        r.range_in_blamed_file == h.range_in_blamed_file,
        r.suspects@ == h.suspects@,
{
    let mut suspects: Vec<Suspect> = Vec::new();
    let mut i: usize = 0;
    while i < h.suspects.len()
        invariant
            0 <= i <= h.suspects@.len(),
            suspects@ =~= h.suspects@.take(i as int),
        decreases h.suspects@.len() - i,
    {
        suspects.push(h.suspects[i]);
        i = i + 1;
    }
    proof {
        assert(suspects@ =~= h.suspects@);
    }
    UnblamedHunk { range_in_blamed_file: h.range_in_blamed_file, suspects }
}

/// The hunk without its suspect for `child`; the other suspects stay.
fn remove_suspect(h: &UnblamedHunk, child: usize, n_commits: usize) -> (r: UnblamedHunk)
    requires
        h.wf(n_commits as int),
        h.suspects@.len() >= 2,
    ensures
        r.wf(n_commits as int),
        r.range_in_blamed_file == h.range_in_blamed_file,
        !r.spec_has_suspect(child as int),
        forall|k: int|
            0 <= k < r.suspects@.len() ==> h.spec_has_suspect(
                (#[trigger] r.suspects@[k]).commit as int,
            ),
{
    let mut suspects: Vec<Suspect> = Vec::new();
    let mut i: usize = 0;
    let n = h.suspects.len();
    while i < n
        invariant
            h.wf(n_commits as int),
            n == h.suspects@.len(),
            0 <= i <= n,
            forall|k: int| 0 <= k < suspects@.len() ==> (#[trigger] suspects@[k]).commit != child,
            forall|k: int|
                0 <= k < suspects@.len() ==> exists|m: int|
                    0 <= m < i && h.suspects@[m] == (#[trigger] suspects@[k]),
            forall|k1: int, k2: int|
                0 <= k1 < k2 < suspects@.len() ==> (#[trigger] suspects@[k1]).commit != (
                #[trigger] suspects@[k2]).commit,
            i >= 2 ==> suspects@.len() >= 1,
            i == 1 && suspects@.len() == 0 ==> h.suspects@[0].commit == child,
        decreases n - i,
    {
        let s = h.suspects[i];
        if s.commit != child {
            proof {
                assert forall|k1: int|
                    0 <= k1 < suspects@.len() implies (#[trigger] suspects@[k1]).commit
                    != s.commit by {
                    let m = choose|m: int| 0 <= m < i && h.suspects@[m] == suspects@[k1];
                    assert(h.suspects@[m].commit != h.suspects@[i as int].commit);
                }
            }
            suspects.push(s);
        }
        i = i + 1;
    }
    let r = UnblamedHunk { range_in_blamed_file: h.range_in_blamed_file, suspects };
    proof {
        assert(r.suspects@.len() >= 1) by {
            if r.suspects@.len() == 0 {
                assert(h.suspects@[0].commit == child);
                assert(h.suspects@[1].commit != h.suspects@[0].commit);
            }
        }
        assert forall|k: int| 0 <= k < r.suspects@.len() implies h.spec_has_suspect(
            (#[trigger] r.suspects@[k]).commit as int,
        ) by {
            let m = choose|m: int| 0 <= m < n && h.suspects@[m] == r.suspects@[k];
            assert(h.suspects@[m].commit == r.suspects@[k].commit);
        }
        assert(forall|k: int, j: int|
            0 <= k < j < r.suspects@.len() ==> (#[trigger] r.suspects@[k]).commit != (
            #[trigger] r.suspects@[j]).commit);
    }
    r
}

/// A finalized entry for the given blamed range.
fn make_entry(
    range: Span,
    src_start: u32,
    commit_id: ObjectId,
    source_file_name: Option<Vec<u8>>,
) -> (e: BlameEntry)
    requires
        range.nonempty(),
        src_start + range.spec_len() <= u32::MAX,
    ensures
        e.wf(),
        e.spec_span() == range,
        e.start_in_source_file == src_start,
        e.commit_id == commit_id,
        e.source_file_name == source_file_name,
{
    BlameEntry {
        start_in_blamed_file: range.start,
        start_in_source_file: src_start,
        len: range.end - range.start,
        commit_id,
        source_file_name,
    }
}

/// Split every hunk that suspects `child` along the change stream of the
/// edge to `parent`; hunks that do not suspect `child` pass through
/// unchanged.  The covered lines are preserved exactly.
#[verifier::rlimit(100)]
pub(crate) fn process_edge_all(
    hunks: &Vec<UnblamedHunk>,
    child: usize,
    parent: usize,
    changes: &Vec<Change>,
    bl: u32,
    al: u32,
    n_commits: usize,
) -> (r: Vec<UnblamedHunk>)
    requires
        hunks_ok(hunks@, child as int, n_commits as int),
        child < parent < n_commits,
        changes_wf(changes@, bl as int, al as int),
    ensures
        hunks_ok(r@, child as int, n_commits as int),
        forall|l: int|
            #[trigger] cover_count(hunk_spans(r@), l) == cover_count(hunk_spans(hunks@), l),
{
    let n = hunks.len();
    let mut out: Vec<UnblamedHunk> = Vec::new();
    let mut i: usize = 0;
    proof {
        assert(hunks@.take(0) =~= Seq::<UnblamedHunk>::empty());
        assert(hunk_spans(Seq::<UnblamedHunk>::empty()) =~= Seq::<Span>::empty());
        assert(hunk_spans(out@) =~= Seq::<Span>::empty());
    }
    while i < n
        invariant
            hunks_ok(hunks@, child as int, n_commits as int),
            child < parent < n_commits,
            changes_wf(changes@, bl as int, al as int),
            n == hunks@.len(),
            0 <= i <= n,
            hunks_ok(out@, child as int, n_commits as int),
            forall|l: int|
                #[trigger] cover_count(hunk_spans(out@), l) == cover_count(
                    hunk_spans(hunks@.take(i as int)),
                    l,
                ),
        decreases n - i,
    {
        let h = &hunks[i];
        let ghost pre = out@;
        if h.has_suspect(child) {
            let rs = match h.get_start(child) {
                Some(rs) => rs,
                None => {
                    proof {
                        assert(false);
                    }
                    0
                },
            };
            process_hunk_edge(h, child, rs, parent, changes, bl, al, n_commits, &mut out);
            proof {
                let pieces = out@.skip(pre.len() as int);
                assert(out@.take(pre.len() as int) == pre);
                assert(out@ =~= pre + pieces);
                assert(hunk_spans(out@) =~= hunk_spans(pre) + hunk_spans(pieces));
                assert forall|k: int| 0 <= k < out@.len() implies (#[trigger] out@[k]).wf(
                    n_commits as int,
                ) && (forall|m: int|
                    0 <= m < out@[k].suspects@.len() ==> (#[trigger] out@[k].suspects@[m]).commit
                        >= child) by {
                    if k < pre.len() {
                        assert(out@[k] == pre[k]);
                    } else {
                        assert(piece_suspects_ok(out@[k], *h, parent as int));
                        assert(out@[k].wf(n_commits as int));
                        assert forall|m: int| 0 <= m < out@[k].suspects@.len() implies (
                        #[trigger] out@[k].suspects@[m]).commit >= child by {
                            if out@[k].suspects@[m].commit != parent {
                                assert(h.spec_has_suspect(out@[k].suspects@[m].commit as int));
                                let w = choose|w: int|
                                    0 <= w < h.suspects@.len() && (#[trigger] h.suspects@[w]).commit
                                        == out@[k].suspects@[m].commit;
                                assert(hunks@[i as int].suspects@[w].commit >= child);
                            }
                        }
                    }
                }
                assert(hunks@.take(i + 1).drop_last() =~= hunks@.take(i as int));
                assert(hunk_spans(hunks@.take(i + 1)) =~= hunk_spans(hunks@.take(i as int)).push(
                    h.range_in_blamed_file,
                ));
                assert forall|l: int|
                    #[trigger] cover_count(hunk_spans(out@), l) == cover_count(
                        hunk_spans(hunks@.take(i + 1)),
                        l,
                    ) by {
                    lemma_cover_count_add(hunk_spans(pre), hunk_spans(pieces), l);
                    lemma_pieces_glued_cover(
                        pieces,
                        h.range_in_blamed_file.start as int,
                        h.range_in_blamed_file.end as int,
                        l,
                    );
                    lemma_cover_count_push(
                        hunk_spans(hunks@.take(i as int)),
                        h.range_in_blamed_file,
                        l,
                    );
                }
            }
        } else {
            let c = copy_hunk(h);
            out.push(c);
            proof {
                assert(out@ == pre.push(c));
                assert(hunk_spans(out@) =~= hunk_spans(pre).push(c.range_in_blamed_file));
                assert forall|k: int| 0 <= k < out@.len() implies (#[trigger] out@[k]).wf(
                    n_commits as int,
                ) && (forall|m: int|
                    0 <= m < out@[k].suspects@.len() ==> (#[trigger] out@[k].suspects@[m]).commit
                        >= child) by {
                    if k < pre.len() {
                        assert(out@[k] == pre[k]);
                    } else {
                        assert(out@[k] == c);
                        assert(c.wf(n_commits as int) && (forall|m: int|
                            0 <= m < c.suspects@.len() ==> (#[trigger] c.suspects@[m]).commit
                                >= child)) by {
                            assert(hunks@[i as int].wf(n_commits as int));
                            assert(c.suspects@ == hunks@[i as int].suspects@);
                        }
                    }
                }
                assert(hunks@.take(i + 1).drop_last() =~= hunks@.take(i as int));
                assert(hunk_spans(hunks@.take(i + 1)) =~= hunk_spans(hunks@.take(i as int)).push(
                    c.range_in_blamed_file,
                ));
                assert forall|l: int|
                    #[trigger] cover_count(hunk_spans(out@), l) == cover_count(
                        hunk_spans(hunks@.take(i + 1)),
                        l,
                    ) by {
                    lemma_cover_count_push(hunk_spans(pre), c.range_in_blamed_file, l);
                    lemma_cover_count_push(
                        hunk_spans(hunks@.take(i as int)),
                        c.range_in_blamed_file,
                        l,
                    );
                }
            }
        }
        i = i + 1;
    }
    proof {
        assert(hunks@.take(n as int) =~= hunks@);
    }
    out
}

/// Remove the suspect for `child` from every hunk after all its parent edges
/// were processed.  A hunk whose only suspect was `child` is finalized into
/// an entry attributed to `child` — unless `pass_to` names a parent to pass
/// it to transparently, which is how ignored revisions stay out of the
/// result.  The covered lines are preserved exactly.
#[verifier::rlimit(100)]
pub(crate) fn settle_commit(
    hunks: &Vec<UnblamedHunk>,
    child: usize,
    child_id: ObjectId,
    pass_to: Option<usize>,
    source_file_name: &Option<Vec<u8>>,
    entries: &mut Vec<BlameEntry>,
    n_commits: usize,
) -> (r: Vec<UnblamedHunk>)
    requires
        hunks_ok(hunks@, child as int, n_commits as int),
        pass_to matches Some(p) ==> child < p < n_commits,
        entries_wf(old(entries)@),
    ensures
        hunks_ok(r@, child as int + 1, n_commits as int),
        entries_wf(final(entries)@),
        final(entries)@.len() >= old(entries)@.len(),
        final(entries)@.take(old(entries)@.len() as int) == old(entries)@,
        forall|l: int|
            #[trigger] total_cover(r@, final(entries)@, l) == total_cover(hunks@, old(entries)@, l),
        forall|k: int|
            old(entries)@.len() <= k < final(entries)@.len() ==> (#[trigger] final(entries)@[k]).commit_id == child_id,
        pass_to is Some ==> final(entries)@.len() == old(entries)@.len(),
{
    let n = hunks.len();
    let ghost base = entries@.len() as int;
    let mut out: Vec<UnblamedHunk> = Vec::new();
    let mut i: usize = 0;
    proof {
        assert(hunks@.take(0) =~= Seq::<UnblamedHunk>::empty());
        assert(hunk_spans(out@) =~= Seq::<Span>::empty());
        assert(entries@.take(base) =~= entries@);
        assert(entries@.skip(base) =~= Seq::<BlameEntry>::empty());
    }
    while i < n
        invariant
            hunks_ok(hunks@, child as int, n_commits as int),
            pass_to matches Some(p) ==> child < p < n_commits,
            n == hunks@.len(),
            0 <= i <= n,
            0 <= base <= entries@.len(),
            hunks_ok(out@, child as int + 1, n_commits as int),
            entries_wf(entries@),
            entries@.take(base) == old(entries)@,
            forall|k: int|
                base <= k < entries@.len() ==> (#[trigger] entries@[k]).commit_id == child_id,
            pass_to is Some ==> entries@.len() == base,
            forall|l: int|
                #[trigger] cover_count(hunk_spans(out@) + entry_spans(entries@.skip(base)), l)
                    == cover_count(hunk_spans(hunks@.take(i as int)), l),
        decreases n - i,
    {
        let h = &hunks[i];
        let ghost pre_out = out@;
        let ghost pre_entries = entries@;
        let ghost old_pair = hunk_spans(pre_out) + entry_spans(pre_entries.skip(base));
        if h.has_suspect(child) {
            let start = match h.get_start(child) {
                Some(s) => s,
                None => {
                    proof {
                        assert(false);
                    }
                    0
                },
            };
            proof {
                let w = choose|w: int|
                    0 <= w < h.suspects@.len() && (#[trigger] h.suspects@[w]) == (Suspect {
                        commit: child,
                        start_in_source: start,
                    });
                assert(h.suspects@[w].start_in_source + h.range_in_blamed_file.spec_len()
                    <= u32::MAX);
            }
            if h.suspects.len() >= 2 {
                let shrunk = remove_suspect(h, child, n_commits);
                proof {
                    assert forall|m: int| 0 <= m < shrunk.suspects@.len() implies (
                    #[trigger] shrunk.suspects@[m]).commit >= child + 1 by {
                        assert(h.spec_has_suspect(shrunk.suspects@[m].commit as int));
                        let w = choose|w: int|
                            0 <= w < h.suspects@.len() && (#[trigger] h.suspects@[w]).commit
                                == shrunk.suspects@[m].commit;
                        assert(hunks@[i as int].suspects@[w].commit >= child);
                        assert(!shrunk.spec_has_suspect(child as int));
                        assert(shrunk.suspects@[m].commit != child);
                    }
                }
                out.push(shrunk);
                proof {
                    assert(out@ == pre_out.push(shrunk));
                    assert(hunk_spans(out@) =~= hunk_spans(pre_out).push(
                        shrunk.range_in_blamed_file,
                    ));
                }
            } else {
                match pass_to {
                    Some(p) => {
                        let mut suspects: Vec<Suspect> = Vec::new();
                        suspects.push(Suspect { commit: p, start_in_source: start });
                        let passed = UnblamedHunk {
                            range_in_blamed_file: h.range_in_blamed_file,
                            suspects,
                        };
                        out.push(passed);
                        proof {
                            assert(out@ == pre_out.push(passed));
                            assert(hunk_spans(out@) =~= hunk_spans(pre_out).push(
                                passed.range_in_blamed_file,
                            ));
                        }
                    },
                    None => {
                        let name = match source_file_name {
                            Some(p) => Some(crate::bytes::copy_bytes(p)),
                            None => None,
                        };
                        let e = make_entry(h.range_in_blamed_file, start, child_id, name);
                        entries.push(e);
                        proof {
                            assert(entries@ == pre_entries.push(e));
                            assert(entries@.take(base) =~= pre_entries.take(base));
                            assert(entries@.skip(base) =~= pre_entries.skip(base).push(e));
                            assert(entry_spans(entries@.skip(base)) =~= entry_spans(
                                pre_entries.skip(base),
                            ).push(e.spec_span()));
                        }
                    },
                }
            }
        } else {
            let c = copy_hunk(h);
            proof {
                assert forall|m: int| 0 <= m < c.suspects@.len() implies (
                #[trigger] c.suspects@[m]).commit >= child + 1 by {
                    assert(c.suspects@[m] == h.suspects@[m]);
                    assert(hunks@[i as int].suspects@[m].commit >= child);
                    assert(!h.spec_has_suspect(child as int));
                }
                assert(c.wf(n_commits as int)) by {
                    assert(hunks@[i as int].wf(n_commits as int));
                }
            }
            out.push(c);
            proof {
                assert(out@ == pre_out.push(c));
                assert(hunk_spans(out@) =~= hunk_spans(pre_out).push(c.range_in_blamed_file));
            }
        }
        proof {
            let new_pair = hunk_spans(out@) + entry_spans(entries@.skip(base));
            assert(hunks@.take(i + 1).drop_last() =~= hunks@.take(i as int));
            assert(hunk_spans(hunks@.take(i + 1)) =~= hunk_spans(hunks@.take(i as int)).push(
                hunks@[i as int].range_in_blamed_file,
            ));
            assert forall|l: int| #[trigger] cover_count(new_pair, l) == cover_count(
                hunk_spans(hunks@.take(i + 1)),
                l,
            ) by {
                lemma_cover_count_add(hunk_spans(out@), entry_spans(entries@.skip(base)), l);
                lemma_cover_count_add(hunk_spans(pre_out), entry_spans(pre_entries.skip(base)), l);
                if out@.len() > pre_out.len() {
                    lemma_cover_count_push(
                        hunk_spans(pre_out),
                        out@[out@.len() - 1].range_in_blamed_file,
                        l,
                    );
                } else {
                    lemma_cover_count_push(
                        entry_spans(pre_entries.skip(base)),
                        entries@[entries@.len() - 1].spec_span(),
                        l,
                    );
                }
                lemma_cover_count_push(
                    hunk_spans(hunks@.take(i as int)),
                    hunks@[i as int].range_in_blamed_file,
                    l,
                );
            }
        }
        i = i + 1;
    }
    proof {
        assert(hunks@.take(n as int) =~= hunks@);
        assert forall|l: int| #[trigger] total_cover(out@, entries@, l) == total_cover(
            hunks@,
            old(entries)@,
        l) by {
            lemma_cover_count_add(hunk_spans(out@), entry_spans(entries@), l);
            lemma_cover_count_add(hunk_spans(out@), entry_spans(entries@.skip(base)), l);
            lemma_cover_count_add(hunk_spans(hunks@), entry_spans(old(entries)@), l);
            assert(entries@ =~= entries@.take(base) + entries@.skip(base));
            assert(entry_spans(entries@) =~= entry_spans(entries@.take(base)) + entry_spans(
                entries@.skip(base),
            ));
            lemma_cover_count_add(
                entry_spans(entries@.take(base)),
                entry_spans(entries@.skip(base)),
                l,
            );
        }
    }
    out
}

/// Finalize every hunk that still suspects `child` because the walk cannot
/// continue past it: the commit has no parents, lies before the `since`
/// cutoff, or the file cannot be found any earlier.  Each such hunk becomes
/// an entry attributed to its earliest-recorded suspect that is not an
/// ignored revision, or to its earliest suspect when all of them are
/// ignored.  The covered lines are preserved exactly.
#[verifier::rlimit(100)]
pub(crate) fn truncate_commit(
    hunks: &Vec<UnblamedHunk>,
    child: usize,
    repo: &Repository,
    ignored: &Vec<ObjectId>,
    paths: &Vec<Option<Vec<u8>>>,
    blamed_path: &Vec<u8>,
    entries: &mut Vec<BlameEntry>,
) -> (r: Vec<UnblamedHunk>)
    requires
        repo.wf(),
        child < repo.commits@.len(),
        hunks_ok(hunks@, child as int, repo.commits@.len() as int),
        paths@.len() == repo.commits@.len(),
        entries_wf(old(entries)@),
    ensures
        hunks_ok(r@, child as int + 1, repo.commits@.len() as int),
        entries_wf(final(entries)@),
        final(entries)@.len() >= old(entries)@.len(),
        final(entries)@.take(old(entries)@.len() as int) == old(entries)@,
        forall|l: int|
            #[trigger] total_cover(r@, final(entries)@, l) == total_cover(hunks@, old(entries)@, l),
        forall|k: int|
            old(entries)@.len() <= k < final(entries)@.len() && contains_id(
                ignored@,
                (#[trigger] final(entries)@[k]).commit_id,
            ) ==> contains_id(ignored@, repo.commits@[child as int].id),
{
    let n = hunks.len();
    let n_commits = repo.commits.len();
    let ghost base = entries@.len() as int;
    let mut out: Vec<UnblamedHunk> = Vec::new();
    let mut i: usize = 0;
    proof {
        assert(hunks@.take(0) =~= Seq::<UnblamedHunk>::empty());
        assert(hunk_spans(out@) =~= Seq::<Span>::empty());
        assert(entries@.take(base) =~= entries@);
        assert(entries@.skip(base) =~= Seq::<BlameEntry>::empty());
    }
    while i < n
        invariant
            repo.wf(),
            child < n_commits,
            n_commits == repo.commits@.len(),
            hunks_ok(hunks@, child as int, n_commits as int),
            paths@.len() == n_commits,
            n == hunks@.len(),
            0 <= i <= n,
            0 <= base <= entries@.len(),
            hunks_ok(out@, child as int + 1, n_commits as int),
            entries_wf(entries@),
            entries@.take(base) == old(entries)@,
            forall|k: int|
                base <= k < entries@.len() && contains_id(
                    ignored@,
                    (#[trigger] entries@[k]).commit_id,
                ) ==> contains_id(ignored@, repo.commits@[child as int].id),
            forall|l: int|
                #[trigger] cover_count(hunk_spans(out@) + entry_spans(entries@.skip(base)), l)
                    == cover_count(hunk_spans(hunks@.take(i as int)), l),
        decreases n - i,
    {
        let h = &hunks[i];
        let ghost pre_out = out@;
        let ghost pre_entries = entries@;
        if h.has_suspect(child) {
            // pick the earliest suspect that is not ignored, if any
            let ns = h.suspects.len();
            let mut pick: usize = 0;
            let mut found = false;
            let mut k: usize = 0;
            while k < ns
                invariant
                    hunks_ok(hunks@, child as int, n_commits as int),
                    h == &hunks@[i as int],
                    0 <= i < n == hunks@.len(),
                    n_commits == repo.commits@.len(),
                    repo.wf(),
                    ns == h.suspects@.len(),
                    0 <= k <= ns,
                    !found ==> pick == 0,
                    found ==> pick < ns && !contains_id(
                        ignored@,
                        repo.commits@[h.suspects@[pick as int].commit as int].id,
                    ),
                    !found ==> forall|m: int|
                        0 <= m < k ==> contains_id(
                            ignored@,
                            repo.commits@[(#[trigger] h.suspects@[m]).commit as int].id,
                        ),
                decreases ns - k,
            {
                if !found {
                    proof {
                        assert(hunks@[i as int].suspects@[k as int].commit < n_commits);
                    }
                    let cand = h.suspects[k].commit;
                    if !is_ignored(ignored, &repo.commits[cand].id) {
                        pick = k;
                        found = true;
                    }
                }
                k = k + 1;
            }
            proof {
                assert(hunks@[i as int].suspects@.len() >= 1);
            }
            let s = h.suspects[pick];
            proof {
                assert(hunks@[i as int].suspects@[pick as int].commit < n_commits);
                assert(hunks@[i as int].suspects@[pick as int].start_in_source
                    + h.range_in_blamed_file.spec_len() <= u32::MAX);
            }
            let commit_id = repo.commits[s.commit].id;
            let name = match &paths[s.commit] {
                Some(p) => {
                    if !crate::bytes::bytes_eq(p, blamed_path) {
                        Some(crate::bytes::copy_bytes(p))
                    } else {
                        None
                    }
                },
                None => None,
            };
            let e = make_entry(h.range_in_blamed_file, s.start_in_source, commit_id, name);
            entries.push(e);
            proof {
                if contains_id(ignored@, e.commit_id) {
                    // every earlier suspect was ignored, and so is the picked
                    // one; `child` is among the suspects, so its id is ignored
                    let w = choose|w: int|
                        0 <= w < h.suspects@.len() && (#[trigger] h.suspects@[w]).commit
                            == child as int;
                    if found {
                        assert(false);
                    } else {
                        assert(contains_id(
                            ignored@,
                            repo.commits@[(h.suspects@[w]).commit as int].id,
                        ));
                    }
                }
                assert(entries@ == pre_entries.push(e));
                assert(entries@.take(base) =~= pre_entries.take(base));
                assert(entries@.skip(base) =~= pre_entries.skip(base).push(e));
                assert(entry_spans(entries@.skip(base)) =~= entry_spans(
                    pre_entries.skip(base),
                ).push(e.spec_span()));
            }
        } else {
            let c = copy_hunk(h);
            proof {
                assert forall|m: int| 0 <= m < c.suspects@.len() implies (
                #[trigger] c.suspects@[m]).commit >= child + 1 by {
                    assert(c.suspects@[m] == h.suspects@[m]);
                    assert(hunks@[i as int].suspects@[m].commit >= child);
                    assert(!h.spec_has_suspect(child as int));
                }
                assert(c.wf(n_commits as int)) by {
                    assert(hunks@[i as int].wf(n_commits as int));
                }
            }
            out.push(c);
            proof {
                assert(out@ == pre_out.push(c));
                assert(hunk_spans(out@) =~= hunk_spans(pre_out).push(c.range_in_blamed_file));
            }
        }
        proof {
            let new_pair = hunk_spans(out@) + entry_spans(entries@.skip(base));
            assert(hunks@.take(i + 1).drop_last() =~= hunks@.take(i as int));
            assert(hunk_spans(hunks@.take(i + 1)) =~= hunk_spans(hunks@.take(i as int)).push(
                hunks@[i as int].range_in_blamed_file,
            ));
            assert forall|l: int| #[trigger] cover_count(new_pair, l) == cover_count(
                hunk_spans(hunks@.take(i + 1)),
                l,
            ) by {
                lemma_cover_count_add(hunk_spans(out@), entry_spans(entries@.skip(base)), l);
                lemma_cover_count_add(hunk_spans(pre_out), entry_spans(pre_entries.skip(base)), l);
                if out@.len() > pre_out.len() {
                    lemma_cover_count_push(
                        hunk_spans(pre_out),
                        out@[out@.len() - 1].range_in_blamed_file,
                        l,
                    );
                } else {
                    lemma_cover_count_push(
                        entry_spans(pre_entries.skip(base)),
                        entries@[entries@.len() - 1].spec_span(),
                        l,
                    );
                }
                lemma_cover_count_push(
                    hunk_spans(hunks@.take(i as int)),
                    hunks@[i as int].range_in_blamed_file,
                    l,
                );
            }
        }
        i = i + 1;
    }
    proof {
        assert(hunks@.take(n as int) =~= hunks@);
        assert forall|l: int| #[trigger] total_cover(out@, entries@, l) == total_cover(
            hunks@,
            old(entries)@,
        l) by {
            lemma_cover_count_add(hunk_spans(out@), entry_spans(entries@), l);
            lemma_cover_count_add(hunk_spans(out@), entry_spans(entries@.skip(base)), l);
            lemma_cover_count_add(hunk_spans(hunks@), entry_spans(old(entries)@), l);
            assert(entries@ =~= entries@.take(base) + entries@.skip(base));
            assert(entry_spans(entries@) =~= entry_spans(entries@.take(base)) + entry_spans(
                entries@.skip(base),
            ));
            lemma_cover_count_add(
                entry_spans(entries@.take(base)),
                entry_spans(entries@.skip(base)),
                l,
            );
        }
    }
    out
}

/// Whether two entries agree in everything an entry states: the positions,
/// the length, the commit, and the bytes of the source file name.
pub open spec fn entry_matches(a: BlameEntry, b: BlameEntry) -> bool {
    &&& a.start_in_blamed_file == b.start_in_blamed_file
    &&& a.start_in_source_file == b.start_in_source_file
    &&& a.len == b.len
    &&& a.commit_id == b.commit_id
    &&& (a.source_file_name is Some <==> b.source_file_name is Some)
    &&& (a.source_file_name matches Some(p) ==> b.source_file_name matches Some(q) && p@ == q@)
}

/// Whether `x` agrees with one of the entries of `es`.
pub open spec fn from_entries(x: BlameEntry, es: Seq<BlameEntry>) -> bool {
    exists|j: int| 0 <= j < es.len() && entry_matches(x, #[trigger] es[j])
}

/// A copy of the given entry.
fn copy_entry(e: &BlameEntry) -> (r: BlameEntry)
    ensures
        entry_matches(r, *e),
{
    let name = match &e.source_file_name {
        Some(p) => Some(crate::bytes::copy_bytes(p)),
        None => None,
    };
    let r = BlameEntry {
        start_in_blamed_file: e.start_in_blamed_file,
        start_in_source_file: e.start_in_source_file,
        len: e.len,
        commit_id: e.commit_id,
        source_file_name: name,
    };
    r
}

/// The entries ordered by their position in the blamed file.  The result is
/// a rearrangement: every entry of the result is one of the input's, and the
/// covered lines are preserved exactly.
#[verifier::rlimit(100)]
pub(crate) fn sort_entries(entries: &Vec<BlameEntry>) -> (r: Vec<BlameEntry>)
    ensures
        r@.len() == entries@.len(),
        forall|i: int| 0 <= i < r@.len() ==> from_entries(#[trigger] r@[i], entries@),
        forall|i: int|
            0 <= i && i + 1 < r@.len() ==> (#[trigger] r@[i]).start_in_blamed_file <= r@[i
                + 1].start_in_blamed_file,
        forall|l: int|
            #[trigger] cover_count(entry_spans(r@), l) == cover_count(entry_spans(entries@), l),
{
    let n = entries.len();
    let mut out: Vec<BlameEntry> = Vec::new();
    let mut i: usize = 0;
    proof {
        assert(entries@.take(0) =~= Seq::<BlameEntry>::empty());
        assert(entry_spans(out@) =~= Seq::<BlameEntry>::empty().map_values(
            |e: BlameEntry| e.spec_span(),
        ));
    }
    while i < n
        invariant
            n == entries@.len(),
            0 <= i <= n,
            out@.len() == i,
            forall|k: int| 0 <= k < out@.len() ==> from_entries(#[trigger] out@[k], entries@),
            forall|k: int|
                0 <= k && k + 1 < out@.len() ==> (#[trigger] out@[k]).start_in_blamed_file
                    <= out@[k + 1].start_in_blamed_file,
            forall|l: int|
                #[trigger] cover_count(entry_spans(out@), l) == cover_count(
                    entry_spans(entries@.take(i as int)),
                    l,
                ),
        decreases n - i,
    {
        let e = copy_entry(&entries[i]);
        // find the first position whose entry starts after `e`
        let mut p: usize = 0;
        while p < out.len() && out[p].start_in_blamed_file <= e.start_in_blamed_file
            invariant
                0 <= p <= out@.len(),
                forall|k: int|
                    0 <= k < p ==> (#[trigger] out@[k]).start_in_blamed_file
                        <= e.start_in_blamed_file,
            decreases out@.len() - p,
        {
            p = p + 1;
        }
        let ghost pre = out@;
        out.insert(p, e);
        proof {
            assert(out@ == pre.insert(p as int, e));
            assert(out@ =~= pre.take(p as int).push(e) + pre.skip(p as int));
            assert forall|k: int|
                0 <= k && k + 1 < out@.len() implies (#[trigger] out@[k]).start_in_blamed_file
                <= out@[k + 1].start_in_blamed_file by {
                if k + 1 < p {
                    assert(out@[k] == pre[k] && out@[k + 1] == pre[k + 1]);
                } else if k + 1 == p {
                    assert(out@[k] == pre[k] && out@[k + 1] == e);
                } else if k == p {
                    assert(out@[k] == e && out@[k + 1] == pre[k]);
                    assert(pre[p as int].start_in_blamed_file > e.start_in_blamed_file);
                } else {
                    assert(out@[k] == pre[k - 1] && out@[k + 1] == pre[k]);
                }
            }
            assert forall|k: int| 0 <= k < out@.len() implies from_entries(
                #[trigger] out@[k],
                entries@,
            ) by {
                if k < p {
                    assert(out@[k] == pre[k]);
                } else if k == p {
                    assert(out@[k] == e);
                    assert(entry_matches(e, entries@[i as int]));
                } else {
                    assert(out@[k] == pre[k - 1]);
                }
            }
            assert(entries@.take(i + 1).drop_last() =~= entries@.take(i as int));
            assert(entry_spans(entries@.take(i + 1)) =~= entry_spans(entries@.take(i as int)).push(
                e.spec_span(),
            ));
            assert(entry_spans(out@) =~= entry_spans(pre.take(p as int)).push(e.spec_span())
                + entry_spans(pre.skip(p as int)));
            assert(entry_spans(pre) =~= entry_spans(pre.take(p as int)) + entry_spans(
                pre.skip(p as int),
            ));
            assert forall|l: int| #[trigger] cover_count(entry_spans(out@), l) == cover_count(
                entry_spans(entries@.take(i + 1)),
                l,
            ) by {
                lemma_cover_count_add(
                    entry_spans(pre.take(p as int)).push(e.spec_span()),
                    entry_spans(pre.skip(p as int)),
                    l,
                );
                lemma_cover_count_push(entry_spans(pre.take(p as int)), e.spec_span(), l);
                lemma_cover_count_add(
                    entry_spans(pre.take(p as int)),
                    entry_spans(pre.skip(p as int)),
                    l,
                );
                lemma_cover_count_push(entry_spans(entries@.take(i as int)), e.spec_span(), l);
            }
        }
        i = i + 1;
    }
    proof {
        assert(entries@.take(n as int) =~= entries@);
    }
    out
}

} // verus!
