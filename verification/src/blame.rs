//! The revision walker: the blame entry point.

use vstd::prelude::*;

use crate::bytes::{bytes_eq, copy_bytes};
use crate::changes::Change;
use crate::diffwrap::diff_hunks;
use crate::engine::{
    any_suspects, contains_id, entries_wf, from_entries, hunks_ok, is_ignored,
    lemma_cover_count_singleton, process_edge_all, settle_commit, sort_entries, total_cover,
    truncate_commit,
};
use crate::error::Error;
use crate::hash::ObjectId;
use crate::lines::{count_lines, line_count};
use crate::ranges::{spans_canonical, BlameRanges};
use crate::repo::{tree_lookup, Repository};
use crate::span::{
    cover_count, covers, lemma_cover_count_push, lemma_cover_count_two, lemma_spans_gap,
    spans_line_set, Span,
};
use crate::types::{entry_spans, hunk_spans, Options, Outcome, Statistics, Suspect, UnblamedHunk};

verus! {

/// Whether the graph holds a commit with the given id.
pub open spec fn has_commit(repo: Repository, id: ObjectId) -> bool {
    exists|i: int| 0 <= i < repo.commits@.len() && (#[trigger] repo.commits@[i]).id == id
}

/// Whether the requested ranges lie within a file of `total` lines.
pub open spec fn ranges_within(range: BlameRanges, total: int) -> bool {
    match range {
        BlameRanges::WholeFile => true,
        BlameRanges::PartialFile(v) => forall|i: int|
            0 <= i < v@.len() ==> (#[trigger] v@[i]).end <= total,
    }
}

/// The concrete spans a range selection denotes over a file of `total`
/// lines.
pub open spec fn materialized_spans(range: BlameRanges, total: u32) -> Seq<Span> {
    match range {
        BlameRanges::WholeFile => seq![Span { start: 0, end: total }],
        BlameRanges::PartialFile(v) => v@,
    }
}

/// Whether every ignored revision can be walked through: it is in the graph
/// only with at least one parent.
pub open spec fn ignored_transparent(repo: Repository, ignored: Seq<ObjectId>) -> bool {
    forall|i: int|
        0 <= i < repo.commits@.len() && contains_id(ignored, (#[trigger] repo.commits@[i]).id)
            ==> repo.commits@[i].parents@.len() >= 1
}

/// Every line of a canonical span list, and of a single whole-file span, is
/// covered at most once.
proof fn lemma_seed_at_most_once(range: BlameRanges, total: u32, l: int)
    requires
        range.wf(),
    ensures
        cover_count(materialized_spans(range, total), l) <= 1,
{
    match range {
        BlameRanges::WholeFile => {
            lemma_cover_count_singleton(Span { start: 0, end: total }, l);
        },
        BlameRanges::PartialFile(v) => {
            lemma_canonical_once(v@, l);
        },
    }
}

/// Every line of a canonical span list is covered at most once.
proof fn lemma_canonical_once(ss: Seq<Span>, l: int)
    requires
        spans_canonical(ss),
    ensures
        cover_count(ss, l) <= 1,
    decreases ss.len(),
{
    crate::span::lemma_cover_count_nonneg(ss, l);
    if ss.len() > 0 {
        let shorter = ss.drop_last();
        assert(spans_canonical(shorter)) by {
            assert(forall|i: int| 0 <= i < shorter.len() ==> shorter[i] == ss[i]);
        }
        lemma_canonical_once(shorter, l);
        crate::span::lemma_cover_count_nonneg(shorter, l);
        if covers(ss.last(), l) {
            assert(cover_count(shorter, l) == 0) by {
                crate::span::lemma_cover_count_positive(shorter, l);
                if exists|k: int| 0 <= k < shorter.len() && covers(#[trigger] shorter[k], l) {
                    let k = choose|k: int|
                        0 <= k < shorter.len() && covers(#[trigger] shorter[k], l);
                    lemma_spans_gap(ss, k, ss.len() - 1);
                    assert(ss[k].end < ss.last().start);
                    assert(false);
                }
            }
        }
    }
}

/// Two span lists covering every line equally often cover the same lines.
proof fn lemma_counts_to_line_set(a: Seq<Span>, b: Seq<Span>)
    requires
        forall|l: int| #[trigger] cover_count(a, l) == cover_count(b, l),
    ensures
        spans_line_set(a) == spans_line_set(b),
{
    assert forall|x: int| spans_line_set(a).contains(x) <==> spans_line_set(b).contains(x) by {
        crate::span::lemma_spans_line_set_contains(a, x);
        crate::span::lemma_spans_line_set_contains(b, x);
        crate::span::lemma_cover_count_positive(a, x);
        crate::span::lemma_cover_count_positive(b, x);
        assert(cover_count(a, x) == cover_count(b, x));
        assert forall|k: int| 0 <= k < a.len() implies ((#[trigger] a[k]).line_set().contains(x)
            <==> covers(a[k], x)) by {}
        assert forall|k: int| 0 <= k < b.len() implies ((#[trigger] b[k]).line_set().contains(x)
            <==> covers(b[k], x)) by {}
    }
    assert(spans_line_set(a) =~= spans_line_set(b));
}

/// Entries sorted by start that never cover a line twice follow one another
/// without overlap.
proof fn lemma_entries_chain(
    es: Seq<crate::types::BlameEntry>,
    seed: Seq<Span>,
    i: int,
)
    requires
        entries_wf(es),
        0 <= i && i + 1 < es.len(),
        es[i].start_in_blamed_file <= es[i + 1].start_in_blamed_file,
        forall|l: int| #[trigger] cover_count(entry_spans(es), l) == cover_count(seed, l),
        forall|l: int| #[trigger] cover_count(seed, l) <= 1,
    ensures
        es[i].spec_span().end <= es[i + 1].spec_span().start,
{
    if es[i].spec_span().end > es[i + 1].spec_span().start {
        let l = es[i + 1].start_in_blamed_file as int;
        assert(es[i].wf() && es[i + 1].wf());
        assert(covers(es[i].spec_span(), l));
        assert(covers(es[i + 1].spec_span(), l));
        assert(entry_spans(es)[i] == es[i].spec_span());
        assert(entry_spans(es)[i + 1] == es[i + 1].spec_span());
        lemma_cover_count_two(entry_spans(es), i, i + 1, l);
        assert(cover_count(seed, l) >= 2);
        assert(false);
    }
}

/// Under well-formedness, at most one commit carries a given id.
proof fn lemma_unique_commit(repo: Repository, id: ObjectId, seed: int)
    requires
        repo.wf(),
        0 <= seed < repo.commits@.len(),
        repo.commits@[seed].id == id,
    ensures
        forall|j: int|
            0 <= j < repo.commits@.len() && (#[trigger] repo.commits@[j]).id == id ==> j == seed,
{
    assert forall|j: int|
        0 <= j < repo.commits@.len() && (#[trigger] repo.commits@[j]).id == id implies j
        == seed by {
        if j < seed {
            assert(repo.commits@[j].id != repo.commits@[seed].id);
        } else if j > seed {
            assert(repo.commits@[seed].id != repo.commits@[j].id);
        }
    }
}

/// Extending an entry list with entries that name no ignored revision keeps
/// the whole list free of them.
proof fn lemma_entries_keep(
    pre: Seq<crate::types::BlameEntry>,
    cur: Seq<crate::types::BlameEntry>,
    ignored: Seq<ObjectId>,
)
    requires
        pre.len() <= cur.len(),
        cur.take(pre.len() as int) == pre,
        forall|i: int|
            0 <= i < pre.len() ==> !contains_id(ignored, (#[trigger] pre[i]).commit_id),
        forall|i: int|
            pre.len() <= i < cur.len() ==> !contains_id(ignored, (#[trigger] cur[i]).commit_id),
    ensures
        forall|i: int|
            0 <= i < cur.len() ==> !contains_id(ignored, (#[trigger] cur[i]).commit_id),
{
    assert forall|i: int| 0 <= i < cur.len() implies !contains_id(
        ignored,
        (#[trigger] cur[i]).commit_id,
    ) by {
        if i < pre.len() {
            assert(cur[i] == cur.take(pre.len() as int)[i]);
        }
    }
}

/// Saturating increment for a statistics counter.
fn bump(x: usize) -> (r: usize)
    ensures
        r >= x,
{
    if x < usize::MAX {
        x + 1
    } else {
        x
    }
}

/// The amount of lines that `changes` reports as unchanged, capped so that
/// the sum always fits.
fn count_unchanged(changes: &Vec<Change>) -> (r: u64) {
    let mut sum: u64 = 0;
    let mut k: usize = 0;
    while k < changes.len()
        invariant
            sum <= 0x2_0000_0000_0000u64,
        decreases changes@.len() - k,
    {
        match changes[k] {
            Change::Unchanged(s) => {
                if sum <= 0xFFFF_FFFF_0000u64 && s.end > s.start {
                    sum = sum + ((s.end - s.start) as u64);
                }
            },
            Change::AddedOrReplaced(_, _) => {},
            Change::Deleted(_, _) => {},
        }
        k = k + 1;
    }
    sum
}

/// Compute the blame for `file_path` as of the commit `suspect`.
///
/// The walk visits the commit list from the starting commit on.  At every
/// commit that is still suspected of having introduced pending lines, the
/// blamed file's version there is diffed against each parent's version:
/// unchanged lines pass on to the parent, changed lines settle on the commit
/// itself — unless it is an ignored revision, in which case they pass through
/// to its first parent.  When the walk cannot continue past a commit, its
/// pending hunks are attributed to their earliest non-ignored suspect.
///
/// Fails with `CommitMissing` exactly when `suspect` is not in the graph,
/// with `FileMissing` exactly when the starting commit's tree does not hold
/// `file_path`, and with `InvalidLineRange` exactly when a requested range
/// reaches past the end of the file; in every other case the blame succeeds.
/// On success the returned entries are ordered by their position in the
/// blamed file and cover each requested line exactly once; and as long as no
/// `since` cutoff is set and every ignored revision has a parent to pass
/// blame through to, no entry names an ignored revision.
#[verifier::rlimit(100)]
pub fn blame_file(
    repo: &Repository,
    suspect: &ObjectId,
    file_path: &Vec<u8>,
    options: &Options,
) -> (r: Result<Outcome, Error>)
    requires
        repo.wf(),
        options.range.wf(),
    ensures
        r is Err <==> (!has_commit(*repo, *suspect) || (exists|seed: int|
            0 <= seed < repo.commits@.len() && (#[trigger] repo.commits@[seed]).id == *suspect && (
            tree_lookup(repo.commits@[seed].tree@, file_path@) is None || (
            tree_lookup(repo.commits@[seed].tree@, file_path@) matches Some(b)
                && !ranges_within(options.range, line_count(repo.blobs@[b]@)))))),
        r matches Err(e) ==> (e == Error::CommitMissing <==> !has_commit(*repo, *suspect)),
        r matches Err(e) ==> (e == Error::FileMissing <==> exists|seed: int|
            0 <= seed < repo.commits@.len() && (#[trigger] repo.commits@[seed]).id == *suspect
                && tree_lookup(repo.commits@[seed].tree@, file_path@) is None),
        r matches Err(e) ==> e == Error::CommitMissing || e == Error::FileMissing || e
            == Error::InvalidLineRange,
        r matches Ok(o) ==> exists|seed: int|
            {
                &&& 0 <= seed < repo.commits@.len()
                &&& (#[trigger] repo.commits@[seed]).id == *suspect
                &&& tree_lookup(repo.commits@[seed].tree@, file_path@) matches Some(b) && {
                    &&& o.blob@ == repo.blobs@[b]@
                    &&& ranges_within(options.range, line_count(repo.blobs@[b]@))
                    &&& entries_wf(o.entries@)
                    &&& (forall|l: int|
                        #[trigger] cover_count(entry_spans(o.entries@), l) == cover_count(
                            materialized_spans(options.range, line_count(repo.blobs@[b]@) as u32),
                            l,
                        ))
                    &&& spans_line_set(entry_spans(o.entries@)) == spans_line_set(
                        materialized_spans(options.range, line_count(repo.blobs@[b]@) as u32),
                    )
                    &&& (forall|i: int|
                        0 <= i && i + 1 < o.entries@.len() ==> (
                        #[trigger] o.entries@[i]).spec_span().end <= o.entries@[i
                            + 1].spec_span().start)
                    &&& ((options.since is None && ignored_transparent(
                        *repo,
                        options.ignored_revisions@,
                    )) ==> forall|i: int|
                        0 <= i < o.entries@.len() ==> !contains_id(
                            options.ignored_revisions@,
                            (#[trigger] o.entries@[i]).commit_id,
                        ))
                }
            },
{
    let n = repo.commits.len();
    let seed_idx = match repo.lookup_commit(suspect) {
        Some(i) => i,
        None => {
            return Err(Error::CommitMissing);
        },
    };
    let seed_blob_idx = match repo.resolve_path(seed_idx, file_path) {
        Some(b) => b,
        None => {
            proof {
                assert(repo.commits@[seed_idx as int].id == *suspect);
            }
            return Err(Error::FileMissing);
        },
    };
    let ghost hypothesis = options.since is None && ignored_transparent(
        *repo,
        options.ignored_revisions@,
    );
    let seed_blob = &repo.blobs[seed_blob_idx];
    let total_lines = count_lines(seed_blob);
    let seed_spans: Vec<Span> = options.range.to_ranges(total_lines);
    proof {
        assert(seed_spans@ == materialized_spans(options.range, total_lines));
    }
    // requested ranges must lie within the file
    let mut v: usize = 0;
    while v < seed_spans.len()
        invariant
            repo.wf(),
            options.range.wf(),
            seed_idx < repo.commits@.len(),
            repo.commits@[seed_idx as int].id == *suspect,
            seed_blob_idx < repo.blobs@.len(),
            tree_lookup(repo.commits@[seed_idx as int].tree@, file_path@) == Some(
                seed_blob_idx as int,
            ),
            total_lines == line_count(repo.blobs@[seed_blob_idx as int]@),
            seed_spans@ == materialized_spans(options.range, total_lines),
            0 <= v <= seed_spans@.len(),
            forall|k: int| 0 <= k < v ==> (#[trigger] seed_spans@[k]).end <= total_lines,
        decreases seed_spans@.len() - v,
    {
        if seed_spans[v].end > total_lines {
            proof {
                if options.range is WholeFile {
                    assert(seed_spans@[v as int].end == total_lines);
                    assert(false);
                }
                assert(ranges_within(options.range, total_lines as int)
                    ==> seed_spans@[v as int].end <= total_lines as int);
                assert(!ranges_within(options.range, total_lines as int));
                assert(repo.commits@[seed_idx as int].id == *suspect);
                lemma_unique_commit(*repo, *suspect, seed_idx as int);
                assert forall|seed: int|
                    0 <= seed < repo.commits@.len() && (#[trigger] repo.commits@[seed]).id
                        == *suspect implies !(tree_lookup(
                    repo.commits@[seed].tree@,
                    file_path@,
                ) is None) by {
                    assert(seed == seed_idx as int);
                }
            }
            return Err(Error::InvalidLineRange);
        }
        v = v + 1;
    }
    proof {
        assert(ranges_within(options.range, total_lines as int));
    }
    // seed one pending hunk per requested span
    let mut hunks: Vec<UnblamedHunk> = Vec::new();
    let mut s: usize = 0;
    proof {
        assert(seed_spans@.take(0) =~= Seq::<Span>::empty());
        assert(hunk_spans(hunks@) =~= Seq::<Span>::empty());
    }
    while s < seed_spans.len()
        invariant
            repo.wf(),
            n == repo.commits@.len(),
            seed_idx < n,
            0 <= s <= seed_spans@.len(),
            forall|k: int| 0 <= k < seed_spans@.len() ==> (#[trigger] seed_spans@[k]).end
                <= total_lines,
            hunks_ok(hunks@, seed_idx as int, n as int),
            forall|l: int|
                #[trigger] cover_count(hunk_spans(hunks@), l) == cover_count(
                    seed_spans@.take(s as int),
                    l,
                ),
        decreases seed_spans@.len() - s,
    {
        let sp = seed_spans[s];
        let ghost pre = hunks@;
        if sp.start < sp.end {
            let mut suspects: Vec<Suspect> = Vec::new();
            suspects.push(Suspect { commit: seed_idx, start_in_source: sp.start });
            let h = UnblamedHunk { range_in_blamed_file: sp, suspects };
            proof {
                assert(h.wf(n as int));
            }
            hunks.push(h);
            proof {
                assert(hunks@ == pre.push(h));
                assert(hunk_spans(hunks@) =~= hunk_spans(pre).push(sp));
            }
        }
        proof {
            assert(seed_spans@.take(s + 1).drop_last() =~= seed_spans@.take(s as int));
            assert forall|l: int| #[trigger] cover_count(hunk_spans(hunks@), l) == cover_count(
                seed_spans@.take(s + 1),
                l,
            ) by {
                lemma_cover_count_push(seed_spans@.take(s as int), sp, l);
                if hunks@.len() > pre.len() {
                    lemma_cover_count_push(hunk_spans(pre), sp, l);
                } else {
                    assert(!covers(sp, l));
                }
            }
        }
        s = s + 1;
    }
    proof {
        assert(seed_spans@.take(seed_spans@.len() as int) =~= seed_spans@);
    }
    let mut entries: Vec<crate::types::BlameEntry> = Vec::new();
    let mut paths: Vec<Option<Vec<u8>>> = Vec::new();
    let mut q: usize = 0;
    while q < n
        invariant
            0 <= q <= n,
            paths@.len() == q,
        decreases n - q,
    {
        paths.push(None);
        q = q + 1;
    }
    paths[seed_idx] = Some(copy_bytes(file_path));
    let mut stats = Statistics {
        commits_traversed: 0,
        trees_decoded: 0,
        trees_diffed: 0,
        blobs_diffed: 0,
    };
    proof {
        assert(entry_spans(entries@) =~= Seq::<Span>::empty());
        assert forall|l: int| #[trigger] total_cover(hunks@, entries@, l) == cover_count(
            seed_spans@,
            l,
        ) by {
            crate::span::lemma_cover_count_add(hunk_spans(hunks@), entry_spans(entries@), l);
        }
    }
    let mut c: usize = seed_idx;
    while c < n
        invariant
            repo.wf(),
            options.range.wf(),
            n == repo.commits@.len(),
            seed_idx <= c <= n,
            paths@.len() == n,
            hunks_ok(hunks@, c as int, n as int),
            entries_wf(entries@),
            forall|l: int|
                #[trigger] total_cover(hunks@, entries@, l) == cover_count(seed_spans@, l),
            hypothesis == (options.since is None && ignored_transparent(
                *repo,
                options.ignored_revisions@,
            )),
            hypothesis ==> forall|i: int|
                0 <= i < entries@.len() ==> !contains_id(
                    options.ignored_revisions@,
                    (#[trigger] entries@[i]).commit_id,
                ),
        decreases n - c,
    {
        if !any_suspects(&hunks, c) {
            c = c + 1;
            continue;
        }
        stats.commits_traversed = bump(stats.commits_traversed);
        let child_id = repo.commits[c].id;
        let child_ignored = is_ignored(&options.ignored_revisions, &child_id);
        let parent_count = repo.commits[c].parents.len();
        // a commit older than the cutoff ends the walk for its hunks
        let cut_off = match options.since {
            Some(t) => repo.commits[c].seconds < t,
            None => false,
        };
        if cut_off {
            hunks = truncate_commit(
                &hunks,
                c,
                repo,
                &options.ignored_revisions,
                &paths,
                file_path,
                &mut entries,
            );
            c = c + 1;
            continue;
        }
        let path_c = match &paths[c] {
            Some(p) => copy_bytes(p),
            None => {
                // the path was never resolved here: pass through or end
                if child_ignored && parent_count > 0 {
                    let first_parent = repo.commits[c].parents[0];
                    proof {
                        assert(repo.commits@[c as int].parents@[0] > c);
                    }
                    let ghost pre_entries = entries@;
                    hunks = settle_commit(
                        &hunks,
                        c,
                        child_id,
                        Some(first_parent),
                        &None,
                        &mut entries,
                        n,
                    );
                    proof {
                        if hypothesis {
                            lemma_entries_keep(pre_entries, entries@, options.ignored_revisions@);
                        }
                    }
                } else {
                    proof {
                        if hypothesis && contains_id(options.ignored_revisions@, child_id) {
                            assert(repo.commits@[c as int].parents@.len() >= 1);
                        }
                    }
                    let ghost pre_entries = entries@;
                    hunks = truncate_commit(
                        &hunks,
                        c,
                        repo,
                        &options.ignored_revisions,
                        &paths,
                        file_path,
                        &mut entries,
                    );
                    proof {
                        if hypothesis {
                            assert(!contains_id(options.ignored_revisions@, child_id));
                            assert forall|i: int|
                                pre_entries.len() <= i < entries@.len() implies !contains_id(
                                options.ignored_revisions@,
                                (#[trigger] entries@[i]).commit_id,
                            ) by {}
                            lemma_entries_keep(pre_entries, entries@, options.ignored_revisions@);
                        }
                    }
                }
                c = c + 1;
                continue;
            },
        };
        let child_blob_idx = match repo.resolve_path(c, &path_c) {
            Some(b) => b,
            None => {
                if child_ignored && parent_count > 0 {
                    let first_parent = repo.commits[c].parents[0];
                    proof {
                        assert(repo.commits@[c as int].parents@[0] > c);
                    }
                    if first_parent < paths.len() {
                        if paths[first_parent].is_none() {
                            paths[first_parent] = Some(copy_bytes(&path_c));
                        }
                    }
                    let ghost pre_entries = entries@;
                    hunks = settle_commit(
                        &hunks,
                        c,
                        child_id,
                        Some(first_parent),
                        &None,
                        &mut entries,
                        n,
                    );
                    proof {
                        if hypothesis {
                            lemma_entries_keep(pre_entries, entries@, options.ignored_revisions@);
                        }
                    }
                } else {
                    proof {
                        if hypothesis && contains_id(options.ignored_revisions@, child_id) {
                            assert(repo.commits@[c as int].parents@.len() >= 1);
                        }
                    }
                    let ghost pre_entries = entries@;
                    hunks = truncate_commit(
                        &hunks,
                        c,
                        repo,
                        &options.ignored_revisions,
                        &paths,
                        file_path,
                        &mut entries,
                    );
                    proof {
                        if hypothesis {
                            assert(!contains_id(options.ignored_revisions@, child_id));
                            assert forall|i: int|
                                pre_entries.len() <= i < entries@.len() implies !contains_id(
                                options.ignored_revisions@,
                                (#[trigger] entries@[i]).commit_id,
                            ) by {}
                            lemma_entries_keep(pre_entries, entries@, options.ignored_revisions@);
                        }
                    }
                }
                c = c + 1;
                continue;
            },
        };
        stats.trees_decoded = bump(stats.trees_decoded);
        if parent_count == 0 {
            // the file was introduced at a root commit
            proof {
                if hypothesis && contains_id(options.ignored_revisions@, child_id) {
                    assert(repo.commits@[c as int].parents@.len() >= 1);
                }
            }
            let ghost pre_entries = entries@;
            hunks = truncate_commit(
                &hunks,
                c,
                repo,
                &options.ignored_revisions,
                &paths,
                file_path,
                &mut entries,
            );
            proof {
                if hypothesis {
                    assert(!contains_id(options.ignored_revisions@, child_id));
                    assert forall|i: int|
                        pre_entries.len() <= i < entries@.len() implies !contains_id(
                        options.ignored_revisions@,
                        (#[trigger] entries@[i]).commit_id,
                    ) by {}
                    lemma_entries_keep(pre_entries, entries@, options.ignored_revisions@);
                }
            }
            c = c + 1;
            continue;
        }
        let al = count_lines(&repo.blobs[child_blob_idx]);
        let mut first_resolved: Option<usize> = None;
        let mut pk: usize = 0;
        while pk < parent_count
            invariant
                repo.wf(),
                n == repo.commits@.len(),
                seed_idx <= c < n,
                paths@.len() == n,
                parent_count == repo.commits@[c as int].parents@.len(),
                0 <= pk <= parent_count,
                child_blob_idx < repo.blobs@.len(),
                al == line_count(repo.blobs@[child_blob_idx as int]@),
                hunks_ok(hunks@, c as int, n as int),
                entries_wf(entries@),
                forall|l: int|
                    #[trigger] total_cover(hunks@, entries@, l) == cover_count(seed_spans@, l),
                hypothesis ==> forall|i: int|
                    0 <= i < entries@.len() ==> !contains_id(
                        options.ignored_revisions@,
                        (#[trigger] entries@[i]).commit_id,
                    ),
                first_resolved matches Some(p) ==> c < p < n,
            decreases parent_count - pk,
        {
            let p = repo.commits[c].parents[pk];
            proof {
                assert(c < repo.commits@[c as int].parents@[pk as int] < n);
            }
            // find the parent's version of the file, following renames when
            // the path itself is absent from the parent's tree
            let mut parent_blob: Option<usize> = None;
            let mut parent_path: Option<Vec<u8>> = None;
            match repo.resolve_path(p, &path_c) {
                Some(pb) => {
                    parent_blob = Some(pb);
                    parent_path = Some(copy_bytes(&path_c));
                },
                None => {
                    if options.rewrites {
                        stats.trees_diffed = bump(stats.trees_diffed);
                        let tree_len = repo.commits[p].tree.len();
                        let mut best: Option<(usize, u64)> = None;
                        let mut te: usize = 0;
                        while te < tree_len
                            invariant
                                repo.wf(),
                                n == repo.commits@.len(),
                                c < p < n,
                                seed_idx <= c < n,
                                child_blob_idx < repo.blobs@.len(),
                                al == line_count(repo.blobs@[child_blob_idx as int]@),
                                tree_len == repo.commits@[p as int].tree@.len(),
                                0 <= te <= tree_len,
                                best matches Some(w) ==> w.0 < tree_len,
                            decreases tree_len - te,
                        {
                            proof {
                                assert(repo.commits@[p as int].tree@[te as int].blob
                                    < repo.blobs@.len());
                            }
                            let cand_blob = repo.commits[p].tree[te].blob;
                            let cand_in_child = {
                                let cand_path = &repo.commits[p].tree[te].path;
                                repo.resolve_path(c, cand_path).is_some()
                            };
                            if !cand_in_child {
                                if cand_blob == child_blob_idx {
                                    // identical content: a sure rename
                                    best = Some((te, 0xFFFF_FFFF_FFFFu64));
                                } else {
                                    proof {
                                        assert(repo.blobs@[cand_blob as int].len() < 0x7fff_ffff);
                                        assert(repo.blobs@[child_blob_idx as int].len()
                                            < 0x7fff_ffff);
                                    }
                                    let raw = diff_hunks(
                                        options.diff_algorithm,
                                        &repo.blobs[cand_blob],
                                        &repo.blobs[child_blob_idx],
                                    );
                                    let bl2 = count_lines(&repo.blobs[cand_blob]);
                                    let cs = crate::changes::classify(&raw, bl2, al);
                                    let score = count_unchanged(&cs);
                                    let good = al > 0 && score.checked_mul(2).is_some() && 2
                                        * score >= (al as u64);
                                    if good {
                                        let better = match best {
                                            Some(w) => score > w.1,
                                            None => true,
                                        };
                                        if better {
                                            best = Some((te, score));
                                        }
                                    }
                                }
                            }
                            te = te + 1;
                        }
                        match best {
                            Some(w) => {
                                proof {
                                    assert(repo.commits@[p as int].tree@[w.0 as int].blob
                                        < repo.blobs@.len());
                                }
                                parent_blob = Some(repo.commits[p].tree[w.0].blob);
                                parent_path = Some(copy_bytes(&repo.commits[p].tree[w.0].path));
                            },
                            None => {},
                        }
                    }
                },
            }
            match (parent_blob, parent_path) {
                (Some(pb), Some(pp)) => {
                    if paths[p].is_none() {
                        paths[p] = Some(pp);
                    }
                    if first_resolved.is_none() {
                        first_resolved = Some(p);
                    }
                    proof {
                        assert(repo.blobs@[pb as int].len() < 0x7fff_ffff);
                        assert(repo.blobs@[child_blob_idx as int].len() < 0x7fff_ffff);
                    }
                    let raw = if pb == child_blob_idx {
                        Vec::new()
                    } else {
                        stats.blobs_diffed = bump(stats.blobs_diffed);
                        diff_hunks(
                            options.diff_algorithm,
                            &repo.blobs[pb],
                            &repo.blobs[child_blob_idx],
                        )
                    };
                    let bl = count_lines(&repo.blobs[pb]);
                    proof {
                        if pb == child_blob_idx {
                            assert(crate::diffwrap::hunks_wf(raw@, bl as int, al as int));
                        }
                    }
                    let cs = crate::changes::classify(&raw, bl, al);
                    let ghost pre_hunks = hunks@;
                    hunks = process_edge_all(&hunks, c, p, &cs, bl, al, n);
                    proof {
                        assert forall|l: int| #[trigger] total_cover(hunks@, entries@, l)
                            == cover_count(seed_spans@, l) by {
                            crate::span::lemma_cover_count_add(
                                hunk_spans(hunks@),
                                entry_spans(entries@),
                                l,
                            );
                            crate::span::lemma_cover_count_add(
                                hunk_spans(pre_hunks),
                                entry_spans(entries@),
                                l,
                            );
                            assert(cover_count(hunk_spans(hunks@), l) == cover_count(
                                hunk_spans(pre_hunks),
                                l,
                            ));
                            assert(total_cover(pre_hunks, entries@, l) == cover_count(
                                seed_spans@,
                                l,
                            ));
                        }
                    }
                },
                _ => {},
            }
            pk = pk + 1;
        }
        match first_resolved {
            Some(fp) => {
                // the usual case: at least one parent still holds the file
                let pass_to = if child_ignored {
                    Some(fp)
                } else {
                    None
                };
                let source_name: Option<Vec<u8>> = if bytes_eq(&path_c, file_path) {
                    None
                } else {
                    Some(copy_bytes(&path_c))
                };
                let ghost pre_entries = entries@;
                hunks = settle_commit(&hunks, c, child_id, pass_to, &source_name, &mut entries, n);
                proof {
                    if hypothesis {
                        assert forall|i: int|
                            pre_entries.len() <= i < entries@.len() implies !contains_id(
                            options.ignored_revisions@,
                            (#[trigger] entries@[i]).commit_id,
                        ) by {
                            assert(entries@[i].commit_id == child_id);
                            assert(!child_ignored);
                        }
                        lemma_entries_keep(pre_entries, entries@, options.ignored_revisions@);
                    }
                }
            },
            None => {
                // the file exists nowhere earlier: it was added here
                if child_ignored && parent_count > 0 {
                    let first_parent = repo.commits[c].parents[0];
                    proof {
                        assert(repo.commits@[c as int].parents@[0] > c);
                    }
                    let ghost pre_entries = entries@;
                    hunks = settle_commit(
                        &hunks,
                        c,
                        child_id,
                        Some(first_parent),
                        &None,
                        &mut entries,
                        n,
                    );
                    proof {
                        if hypothesis {
                            lemma_entries_keep(pre_entries, entries@, options.ignored_revisions@);
                        }
                    }
                } else {
                    proof {
                        if hypothesis && contains_id(options.ignored_revisions@, child_id) {
                            assert(repo.commits@[c as int].parents@.len() >= 1);
                        }
                    }
                    let ghost pre_entries = entries@;
                    hunks = truncate_commit(
                        &hunks,
                        c,
                        repo,
                        &options.ignored_revisions,
                        &paths,
                        file_path,
                        &mut entries,
                    );
                    proof {
                        if hypothesis {
                            assert(!contains_id(options.ignored_revisions@, child_id));
                            assert forall|i: int|
                                pre_entries.len() <= i < entries@.len() implies !contains_id(
                                options.ignored_revisions@,
                                (#[trigger] entries@[i]).commit_id,
                            ) by {}
                            lemma_entries_keep(pre_entries, entries@, options.ignored_revisions@);
                        }
                    }
                }
            },
        }
        c = c + 1;
    }
    proof {
        // no hunk can be pending once the walk has passed every commit
        if hunks@.len() > 0 {
            assert(hunks@[0].wf(n as int));
            assert(hunks@[0].suspects@.len() >= 1);
            assert(hunks@[0].suspects@[0].commit >= n);
            assert(hunks@[0].suspects@[0].commit < n);
        }
        assert(hunks@.len() == 0);
        assert(hunk_spans(hunks@) =~= Seq::<Span>::empty());
        assert forall|l: int| #[trigger] cover_count(entry_spans(entries@), l) == cover_count(
            seed_spans@,
            l,
        ) by {
            assert(total_cover(hunks@, entries@, l) == cover_count(seed_spans@, l));
            crate::span::lemma_cover_count_add(hunk_spans(hunks@), entry_spans(entries@), l);
            assert(cover_count(hunk_spans(hunks@), l) == 0);
        }
    }
    let sorted = sort_entries(&entries);
    proof {
        assert(entries_wf(sorted@)) by {
            assert forall|i: int| 0 <= i < sorted@.len() implies (#[trigger] sorted@[i]).wf() by {
                assert(from_entries(sorted@[i], entries@));
                let j = choose|j: int|
                    0 <= j < entries@.len() && crate::engine::entry_matches(sorted@[i], #[trigger] entries@[j]);
                assert(entries@[j].wf());
            }
        }
        if hypothesis {
            assert forall|i: int| 0 <= i < sorted@.len() implies !contains_id(
                options.ignored_revisions@,
                (#[trigger] sorted@[i]).commit_id,
            ) by {
                assert(from_entries(sorted@[i], entries@));
                let j = choose|j: int|
                    0 <= j < entries@.len() && crate::engine::entry_matches(sorted@[i], #[trigger] entries@[j]);
                assert(!contains_id(options.ignored_revisions@, entries@[j].commit_id));
            }
        }
        assert forall|i: int| 0 <= i && i + 1 < sorted@.len() implies (
        #[trigger] sorted@[i]).spec_span().end <= sorted@[i + 1].spec_span().start by {
            assert forall|l: int| #[trigger] cover_count(seed_spans@, l) <= 1 by {
                lemma_seed_at_most_once(options.range, total_lines, l);
            }
            lemma_entries_chain(sorted@, seed_spans@, i);
        }
        lemma_counts_to_line_set(entry_spans(sorted@), seed_spans@);
    }
    let blob = copy_bytes(&repo.blobs[seed_blob_idx]);
    Ok(Outcome { entries: sorted, blob, statistics: stats })
}

} // verus!
