//! A verified line-provenance ("blame") engine.
//!
//! Given a starting commit, a file path and an in-memory commit/object graph,
//! the engine computes, for every requested line of the file, which commit
//! most recently introduced it.  The result is a list of contiguous attributed
//! spans that exactly covers the requested line ranges.
//!
//! The pairwise content diff is delegated to the `imara-diff` crate; everything
//! that interprets its output — range bookkeeping, hunk splitting, suspect
//! tracking, rename continuation and the ignore-revision filter — is verified.

mod blame;
mod bytes;
mod changes;
mod diffwrap;
mod engine;
mod error;
mod hash;
mod head;
mod lines;
mod offset;
mod process;
mod ranges;
mod refs;
mod repo;
mod sdk;
mod span;
mod types;

pub use blame::{blame_file, has_commit, ignored_transparent, materialized_spans, ranges_within};
pub use changes::Change;
pub use error::Error;
pub use hash::ObjectId;
pub use head::{Head, Kind};
pub use sdk::{
    ArchiveFormat, AuthMode, BlameOptions, BlameStatistics, ChangeKind, DiffLineKind, EntryMode,
    Message, MessageKind, ObjectKind, SdkConfig, SdkConfigBuilder, ServiceBlameEntry, Simple,
    WriteMode,
};
pub use offset::Offset;
pub use ranges::BlameRanges;
pub use refs::{PackedBuffer, PackedRef, Platform, Reference, Store, Target};
pub use repo::{Commit, Repository, TreeEntry};
pub use span::Span;
pub use types::{Algorithm, BlameEntry, Options, Outcome, Statistics, Suspect, UnblamedHunk};
