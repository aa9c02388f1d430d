//! The error type of the library.

use vstd::prelude::*;

verus! {

/// Everything that can go wrong when building the model or running a blame.
#[derive(Clone, Copy, Debug, PartialEq, Eq, Structural)]
pub enum Error {
    /// A one-based line range starts at zero or ends before its start, or a
    /// range was added to an instance that blames the whole file.
    InvalidOneBasedLineRange,
    /// A requested line range lies beyond the end of the blamed file.
    InvalidLineRange,
    /// The commit to start the blame at is not part of the commit graph.
    CommitMissing,
    /// The file to blame does not exist in the starting commit's tree.
    FileMissing,
    /// A commit names a parent that does not come after it in the
    /// children-first commit list, or not at all.
    UnorderedCommitGraph,
    /// Two commits in the graph carry the same id.
    DuplicateCommitId,
    /// A tree entry points at a blob index that does not exist.
    UnknownBlob,
    /// A blob is too large for its lines to be addressed by line number.
    OversizedBlob,
    /// The references handed to a store are not sorted by name, or a name
    /// occurs twice.
    UnsortedReferences,
}

impl Error {
    /// A short description of the error.
    pub fn message(&self) -> (r: &'static str)
        ensures
            r@.len() > 0,
    {
        proof {
            reveal_strlit("invalid 1-based line range");
        }
        match self {
            Error::InvalidOneBasedLineRange => "invalid 1-based line range",
            Error::InvalidLineRange => {
                proof {
                    reveal_strlit("line range out of bounds for the blamed file");
                }
                "line range out of bounds for the blamed file"
            },
            Error::CommitMissing => {
                proof {
                    reveal_strlit("starting commit not found");
                }
                "starting commit not found"
            },
            Error::FileMissing => {
                proof {
                    reveal_strlit("file not found in the starting commit");
                }
                "file not found in the starting commit"
            },
            Error::UnorderedCommitGraph => {
                proof {
                    reveal_strlit("commit graph is not in children-first order");
                }
                "commit graph is not in children-first order"
            },
            Error::DuplicateCommitId => {
                proof {
                    reveal_strlit("two commits share one id");
                }
                "two commits share one id"
            },
            Error::UnknownBlob => {
                proof {
                    reveal_strlit("tree entry points at an unknown blob");
                }
                "tree entry points at an unknown blob"
            },
            Error::OversizedBlob => {
                proof {
                    reveal_strlit("blob too large to be blamed by line");
                }
                "blob too large to be blamed by line"
            },
            Error::UnsortedReferences => {
                proof {
                    reveal_strlit("references are not sorted by name");
                }
                "references are not sorted by name"
            },
        }
    }
}

} // verus!
