//! An in-memory model of the commit and object graph a blame runs over.
//!
//! The caller materializes the part of the repository the blame needs: every
//! commit with its parents, timestamp and tree, and every blob.  Commits are
//! listed children first, so a commit's parents always come after it; the
//! revision walk visits the list in order and therefore never sees a commit
//! before its descendants.

use vstd::prelude::*;

use crate::bytes::bytes_eq;
use crate::error::Error;
use crate::hash::ObjectId;

verus! {

/// One entry of a commit's tree: a path and the blob stored at it.
#[derive(Clone, Debug, PartialEq, Eq)]
pub struct TreeEntry {
    /// The path of the file, as bytes.
    pub path: Vec<u8>,
    /// The blob at that path, as an index into the repository's blob list.
    pub blob: usize,
}

/// One commit of the graph.
#[derive(Clone, Debug, PartialEq, Eq)]
pub struct Commit {
    /// The commit's id.
    pub id: ObjectId,
    /// The commit's parents, as indices into the commit list, in declared
    /// order.  The order decides which parent is inspected first at a merge.
    pub parents: Vec<usize>,
    /// The commit's timestamp, in seconds.
    pub seconds: i64,
    /// The commit's tree: the files it contains.
    pub tree: Vec<TreeEntry>,
}

/// The commit/object graph of one blame invocation.
///
/// Build it with [`Repository::new`], which checks the structural soundness
/// that every blame invocation requires.
#[derive(Debug)]
pub struct Repository {
    /// The commits, children first: parents always come after their children.
    pub commits: Vec<Commit>,
    /// The blobs that tree entries point at.
    pub blobs: Vec<Vec<u8>>,
}

/// The blob index at the first entry of `tree` whose path is `path`.
pub open spec fn tree_lookup(tree: Seq<TreeEntry>, path: Seq<u8>) -> Option<int>
    decreases tree.len(),
{
    if tree.len() == 0 {
        None
    } else if tree[0].path@ == path {
        Some(tree[0].blob as int)
    } else {
        tree_lookup(tree.skip(1), path)
    }
}

impl Repository {
    /// Structural soundness: parents come after their children in the commit
    /// list, ids are unique, tree entries point at existing blobs, and every
    /// blob is small enough for its lines to be counted in 31 bits.
    pub open spec fn wf(self) -> bool {
        &&& forall|i: int, k: int|
            0 <= i < self.commits@.len() && 0 <= k < self.commits@[i].parents@.len() ==> i < (
            #[trigger] self.commits@[i].parents@[k]) < self.commits@.len()
        &&& forall|i: int, j: int|
            0 <= i < j < self.commits@.len() ==> (#[trigger] self.commits@[i]).id != (
            #[trigger] self.commits@[j]).id
        &&& forall|i: int, k: int|
            0 <= i < self.commits@.len() && 0 <= k < self.commits@[i].tree@.len() ==> (
            #[trigger] self.commits@[i].tree@[k]).blob < self.blobs@.len()
        &&& forall|b: int| 0 <= b < self.blobs@.len() ==> (#[trigger] self.blobs@[b]).len() < 0x7fff_ffff
    }

    /// The number of commits in the graph.
    pub open spec fn spec_len(self) -> int {
        self.commits@.len() as int
    }

    /// Build a repository from a children-first commit list and a blob list.
    ///
    /// Fails exactly when a parent index does not point past its child or
    /// past the end, when two commits share an id, when a tree entry points
    /// at a missing blob, or when a blob is too large to be addressed by
    /// 31-bit line numbers.
    pub fn new(commits: Vec<Commit>, blobs: Vec<Vec<u8>>) -> (r: Result<Repository, Error>)
        ensures
            r matches Ok(repo) ==> {
                &&& repo.wf()
                &&& repo.commits == commits
                &&& repo.blobs == blobs
            },
            r is Err ==> !(Repository { commits, blobs }).wf(),
    {
        let n = commits.len();
        let mut i: usize = 0;
        while i < n
            invariant
                n == commits@.len(),
                0 <= i <= n,
                forall|x: int, k: int|
                    0 <= x < i && 0 <= k < commits@[x].parents@.len() ==> x < (
                    #[trigger] commits@[x].parents@[k]) < n,
                forall|x: int, y: int|
                    0 <= x < y < i ==> (#[trigger] commits@[x]).id != (#[trigger] commits@[y]).id,
                forall|x: int, k: int|
                    0 <= x < i && 0 <= k < commits@[x].tree@.len() ==> (
                    #[trigger] commits@[x].tree@[k]).blob < blobs@.len(),
            decreases n - i,
        {
            let c = &commits[i];
            let mut k: usize = 0;
            while k < c.parents.len()
                invariant
                    n == commits@.len(),
                    0 <= i < n,
                    c == commits@[i as int],
                    0 <= k <= c.parents@.len(),
                    forall|m: int| 0 <= m < k ==> i < (#[trigger] c.parents@[m]) < n,
                decreases c.parents@.len() - k,
            {
                let p = c.parents[k];
                if p <= i || p >= n {
                    proof {
                        let ghost repo = Repository { commits: commits, blobs: blobs };
                        assert(repo.commits@[i as int].parents@[k as int] == p);
                        assert(!repo.wf());
                    }
                    return Err(Error::UnorderedCommitGraph);
                }
                k = k + 1;
            }
            let mut k: usize = 0;
            while k < c.tree.len()
                invariant
                    n == commits@.len(),
                    0 <= i < n,
                    c == commits@[i as int],
                    0 <= k <= c.tree@.len(),
                    forall|m: int| 0 <= m < k ==> (#[trigger] c.tree@[m]).blob < blobs@.len(),
                decreases c.tree@.len() - k,
            {
                if c.tree[k].blob >= blobs.len() {
                    proof {
                        let ghost repo = Repository { commits: commits, blobs: blobs };
                        assert(repo.commits@[i as int].tree@[k as int].blob >= blobs@.len());
                        assert(!repo.wf());
                    }
                    return Err(Error::UnknownBlob);
                }
                k = k + 1;
            }
            let mut j: usize = 0;
            while j < i
                invariant
                    n == commits@.len(),
                    0 <= i < n,
                    c == commits@[i as int],
                    0 <= j <= i,
                    forall|y: int| 0 <= y < j ==> (#[trigger] commits@[y]).id != c.id,
                decreases i - j,
            {
                if commits[j].id == c.id {
                    proof {
                        let ghost repo = Repository { commits: commits, blobs: blobs };
                        assert(repo.commits@[j as int].id == repo.commits@[i as int].id);
                        assert(!repo.wf());
                    }
                    return Err(Error::DuplicateCommitId);
                }
                j = j + 1;
            }
            i = i + 1;
        }
        let mut b: usize = 0;
        while b < blobs.len()
            invariant
                0 <= b <= blobs@.len(),
                forall|x: int| 0 <= x < b ==> (#[trigger] blobs@[x]).len() < 0x7fff_ffff,
            decreases blobs@.len() - b,
        {
            if blobs[b].len() >= 0x7fff_ffff {
                proof {
                    let ghost repo = Repository { commits: commits, blobs: blobs };
                    assert(repo.blobs@[b as int].len() >= 0x7fff_ffff);
                    assert(!repo.wf());
                }
                return Err(Error::OversizedBlob);
            }
            b = b + 1;
        }
        Ok(Repository { commits, blobs })
    }

    /// The index of the commit with the given id, when the graph holds it.
    pub fn lookup_commit(&self, id: &ObjectId) -> (r: Option<usize>)
        ensures
            r matches Some(i) ==> 0 <= i < self.commits@.len() && self.commits@[i as int].id
                == *id,
            r is None ==> forall|i: int|
                0 <= i < self.commits@.len() ==> (#[trigger] self.commits@[i]).id != *id,
    {
        let n = self.commits.len();
        let mut i: usize = 0;
        while i < n
            invariant
                n == self.commits@.len(),
                0 <= i <= n,
                forall|k: int| 0 <= k < i ==> (#[trigger] self.commits@[k]).id != *id,
            decreases n - i,
        {
            if self.commits[i].id == *id {
                return Some(i);
            }
            i = i + 1;
        }
        None
    }

    /// The blob at `path` in the tree of commit `c`, taking the first entry
    /// whose path matches.
    pub fn resolve_path(&self, c: usize, path: &Vec<u8>) -> (r: Option<usize>)
        requires
            self.wf(),
            c < self.commits@.len(),
        ensures
            r matches Some(b) ==> b < self.blobs@.len() && tree_lookup(
                self.commits@[c as int].tree@,
                path@,
            ) == Some(b as int),
            r is None ==> tree_lookup(self.commits@[c as int].tree@, path@) is None,
    {
        let tree = &self.commits[c].tree;
        let n = tree.len();
        let mut k: usize = 0;
        proof {
            assert(tree@.skip(0) =~= tree@);
        }
        while k < n
            invariant
                self.wf(),
                c < self.commits@.len(),
                tree == self.commits@[c as int].tree,
                n == tree@.len(),
                0 <= k <= n,
                tree_lookup(tree@, path@) == tree_lookup(tree@.skip(k as int), path@),
            decreases n - k,
        {
            proof {
                assert(tree@.skip(k as int)[0] == tree@[k as int]);
                assert(tree@.skip(k as int).skip(1) =~= tree@.skip(k + 1));
            }
            if bytes_eq(&tree[k].path, path) {
                return Some(tree[k].blob);
            }
            k = k + 1;
        }
        None
    }
}

} // verus!
