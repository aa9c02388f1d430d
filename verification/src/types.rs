//! The data types of the blame engine.

use vstd::prelude::*;

use crate::hash::ObjectId;
use crate::ranges::BlameRanges;
use crate::span::{spans_line_set, Span};

verus! {

/// The two-sequence diff algorithm to drive the content comparison with.
#[derive(Clone, Copy, Debug, PartialEq, Eq, Structural)]
pub enum Algorithm {
    /// The histogram algorithm, a variant of patience diff.
    Histogram,
    /// The classic Myers algorithm.
    Myers,
}

/// Options for a blame invocation.
#[derive(Clone, Debug)]
pub struct Options {
    /// The algorithm to use for diffing.
    pub diff_algorithm: Algorithm,
    /// The line ranges of the blamed file to attribute.
    pub range: BlameRanges,
    /// Do not consider commits with a timestamp before this one; hunks still
    /// pending there are attributed to the commit under inspection.
    pub since: Option<i64>,
    /// Whether to follow the file across renames by content similarity.
    pub rewrites: bool,
    /// Commits that must never be the final attribution target: their diffs
    /// are walked through transparently.
    pub ignored_revisions: Vec<ObjectId>,
}

impl Options {
    /// Whole-file histogram blame with rename tracking and nothing ignored.
    pub fn new() -> (r: Options)
        ensures
            r.diff_algorithm == Algorithm::Histogram,
            r.range == BlameRanges::WholeFile,
            r.since is None,
            r.rewrites,
            r.ignored_revisions@.len() == 0,
    {
        Options {
            diff_algorithm: Algorithm::Histogram,
            range: BlameRanges::WholeFile,
            since: None,
            rewrites: true,
            ignored_revisions: Vec::new(),
        }
    }

    /// The same options with the given commits ignored.
    pub fn with_ignored_revisions(self, ignored: Vec<ObjectId>) -> (r: Options)
        ensures
            r.diff_algorithm == self.diff_algorithm,
            r.range == self.range,
            r.since == self.since,
            r.rewrites == self.rewrites,
            r.ignored_revisions == ignored,
    {
        Options { ignored_revisions: ignored, ..self }
    }
}

/// Additional information about the amount of work performed to produce a
/// blame.  All counters only ever grow during one invocation.
#[derive(Clone, Copy, Debug, Default, PartialEq, Eq, Structural)]
pub struct Statistics {
    /// The amount of commits the walk visited while hunks were still pending.
    pub commits_traversed: usize,
    /// The amount of tree lookups performed to find the blamed file.
    pub trees_decoded: usize,
    /// The amount of tree searches performed to follow the file across
    /// renames.
    pub trees_diffed: usize,
    /// The amount of blob pairs handed to the diff algorithm.
    pub blobs_diffed: usize,
}

/// A mapping of a section of the *Blamed File* to the section in a *Source
/// File* — the blamed file as it looked in an earlier commit — that
/// introduced it.
#[derive(Clone, Debug, PartialEq, Eq)]
pub struct BlameEntry {
    /// The line of the blamed file where this entry begins.
    pub start_in_blamed_file: u32,
    /// The line in the source file where this entry begins.
    pub start_in_source_file: u32,
    /// The amount of lines the entry spans; never zero.
    pub len: u32,
    /// The commit that introduced the lines.
    pub commit_id: ObjectId,
    /// The path of the source file in `commit_id`, when it differs from the
    /// blamed file's path because of a rename.
    pub source_file_name: Option<Vec<u8>>,
}

impl BlameEntry {
    /// Structural soundness: an entry covers at least one line and its ends
    /// stay representable.
    pub open spec fn wf(self) -> bool {
        &&& self.len >= 1
        &&& self.start_in_blamed_file + self.len <= u32::MAX
        &&& self.start_in_source_file + self.len <= u32::MAX
    }

    /// The lines of the blamed file this entry covers.
    pub open spec fn spec_span(self) -> Span {
        Span {
            start: self.start_in_blamed_file,
            end: (self.start_in_blamed_file + self.len) as u32,
        }
    }

    /// The range of lines this entry spans in the blamed file.
    pub fn range_in_blamed_file(&self) -> (r: Span)
        requires
            self.wf(),
        ensures
            r == self.spec_span(),
    {
        Span {
            start: self.start_in_blamed_file,
            end: self.start_in_blamed_file + self.len,
        }
    }

    /// The range of lines this entry spans in the source file.
    pub fn range_in_source_file(&self) -> (r: Span)
        requires
            self.wf(),
        ensures
            r.start == self.start_in_source_file,
            r.end == self.start_in_source_file + self.len,
    {
        Span {
            start: self.start_in_source_file,
            end: self.start_in_source_file + self.len,
        }
    }
}

/// One commit that may have introduced a hunk's lines, together with where
/// the hunk starts in that commit's version of the file.
#[derive(Clone, Copy, Debug, PartialEq, Eq, Structural)]
pub struct Suspect {
    /// The commit, as an index into the repository's commit list.
    pub commit: usize,
    /// The line of that commit's version of the file where the hunk starts.
    pub start_in_source: u32,
}

/// A contiguous range of the blamed file that is not yet attributed, together
/// with the commits suspected of having introduced it.
#[derive(Clone, Debug, PartialEq, Eq)]
pub struct UnblamedHunk {
    /// The range of the blamed file this hunk represents.
    pub range_in_blamed_file: Span,
    /// The candidate origins; never empty, and no commit occurs twice.  At a
    /// merge commit a hunk carries one suspect per parent whose version also
    /// holds the lines.
    pub suspects: Vec<Suspect>,
}

impl UnblamedHunk {
    /// Structural soundness of a hunk within a graph of `n_commits` commits.
    pub open spec fn wf(self, n_commits: int) -> bool {
        &&& self.range_in_blamed_file.nonempty()
        &&& self.suspects@.len() >= 1
        &&& forall|i: int|
            0 <= i < self.suspects@.len() ==> (#[trigger] self.suspects@[i]).commit < n_commits
        &&& forall|i: int|
            0 <= i < self.suspects@.len() ==> (#[trigger] self.suspects@[i]).start_in_source
                + self.range_in_blamed_file.spec_len() <= u32::MAX
        &&& forall|i: int, j: int|
            0 <= i < j < self.suspects@.len() ==> (#[trigger] self.suspects@[i]).commit != (
            #[trigger] self.suspects@[j]).commit
    }

    /// Whether some suspect of this hunk points at `commit`.
    pub open spec fn spec_has_suspect(self, commit: int) -> bool {
        exists|i: int| 0 <= i < self.suspects@.len() && (#[trigger] self.suspects@[i]).commit == commit
    }

    /// Whether some suspect of this hunk points at `commit`.
    pub fn has_suspect(&self, commit: usize) -> (r: bool)
        ensures
            r == self.spec_has_suspect(commit as int),
    {
        let mut i: usize = 0;
        while i < self.suspects.len()
            invariant
                0 <= i <= self.suspects@.len(),
                forall|k: int| 0 <= k < i ==> (#[trigger] self.suspects@[k]).commit != commit,
            decreases self.suspects@.len() - i,
        {
            if self.suspects[i].commit == commit {
                return true;
            }
            i = i + 1;
        }
        false
    }

    /// The line where this hunk starts in `commit`'s version of the file, if
    /// that commit is a suspect.
    pub fn get_start(&self, commit: usize) -> (r: Option<u32>)
        ensures
            r is Some <==> self.spec_has_suspect(commit as int),
            r matches Some(s) ==> exists|i: int|
                0 <= i < self.suspects@.len() && (#[trigger] self.suspects@[i]) == (Suspect {
                    commit,
                    start_in_source: s,
                }),
    {
        let mut i: usize = 0;
        while i < self.suspects.len()
            invariant
                0 <= i <= self.suspects@.len(),
                forall|k: int| 0 <= k < i ==> (#[trigger] self.suspects@[k]).commit != commit,
            decreases self.suspects@.len() - i,
        {
            if self.suspects[i].commit == commit {
                return Some(self.suspects[i].start_in_source);
            }
            i = i + 1;
        }
        None
    }
}

/// The line sets of a list of hunks, as spans of the blamed file.
pub open spec fn hunk_spans(hs: Seq<UnblamedHunk>) -> Seq<Span> {
    hs.map_values(|h: UnblamedHunk| h.range_in_blamed_file)
}

/// The line sets of a list of entries, as spans of the blamed file.
pub open spec fn entry_spans(es: Seq<BlameEntry>) -> Seq<Span> {
    es.map_values(|e: BlameEntry| e.spec_span())
}

/// The outcome of a blame invocation.
#[derive(Clone, Debug, PartialEq, Eq)]
pub struct Outcome {
    /// One entry per attributed range, ordered by position in the blamed
    /// file; together they cover exactly the requested ranges.
    pub entries: Vec<BlameEntry>,
    /// The full content of the blamed file at the starting commit, for
    /// callers that want to pair entries with their text.
    pub blob: Vec<u8>,
    /// How much work the blame performed.
    pub statistics: Statistics,
}

impl Outcome {
    /// The set of blamed-file lines the entries cover.
    pub open spec fn covered_lines(self) -> Set<int> {
        spans_line_set(entry_spans(self.entries@))
    }
}

} // verus!
