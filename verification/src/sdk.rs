//! Plain configuration and classification types for embedding the engine in
//! a larger service.

use vstd::prelude::*;

use crate::hash::ObjectId;

verus! {

/// One megabyte, in bytes.
pub const MB: usize = 1024 * 1024;

/// The kind of an object in the database.
#[derive(Clone, Copy, Debug, PartialEq, Eq, Hash, Structural)]
pub enum ObjectKind {
    /// A blob: file content.
    Blob,
    /// A tree: a directory listing.
    Tree,
    /// A commit.
    Commit,
    /// An annotated tag.
    Tag,
}

/// The mode of a tree entry.
#[derive(Clone, Copy, Debug, PartialEq, Eq, Hash, Structural)]
pub enum EntryMode {
    /// A regular file.
    Blob,
    /// An executable file.
    BlobExecutable,
    /// A directory.
    Tree,
    /// A symbolic link.
    Link,
    /// A submodule commit.
    Commit,
}

/// How a path changed between two trees.
#[derive(Clone, Copy, Debug, PartialEq, Eq, Hash, Structural)]
pub enum ChangeKind {
    /// The path exists only in the newer tree.
    Added,
    /// The path exists only in the older tree.
    Deleted,
    /// The path exists in both trees with different content.
    Modified,
}

/// The role of one line of a textual diff.
#[derive(Clone, Copy, Debug, PartialEq, Eq, Hash, Structural)]
pub enum DiffLineKind {
    /// A line present in both versions.
    Context,
    /// A line only the newer version has.
    Addition,
    /// A line only the older version has.
    Deletion,
}

/// The format of an archive produced from a tree.
#[derive(Clone, Copy, Debug, PartialEq, Eq)]
pub enum ArchiveFormat {
    /// A plain tarball.
    Tar,
    /// A gzip-compressed tarball.
    TarGz {
        /// The compression level, or the library default.
        compression_level: Option<u8>,
    },
    /// A zip archive.
    Zip {
        /// The compression level, or the library default.
        compression_level: Option<u8>,
    },
}

/// How a request writer treats the bytes handed to it.
#[derive(Clone, Copy, Debug, PartialEq, Eq, Hash, Structural)]
pub enum WriteMode {
    /// Bytes are written verbatim as one or more packet lines.
    Binary,
    /// Each write is one newline-terminated packet line.
    OneLfTerminatedLinePerWriteCall,
}

/// The kind of packet line that ends a request.
#[derive(Clone, Copy, Debug, PartialEq, Eq, Hash)]
pub enum MessageKind {
    /// A flush packet.
    Flush,
    /// A delimiter packet.
    Delimiter,
    /// The end of a response.
    ResponseEnd,
    /// The given text.
    Text(&'static [u8]),
}

/// How to authenticate an outgoing connection.
#[derive(Clone, Debug, PartialEq, Eq)]
pub enum AuthMode {
    /// Authenticate with a user name and a password.
    UsernamePassword {
        /// The user to authenticate as.
        username: String,
        /// The user's password.
        password: String,
    },
    /// Authenticate with the user's public key.
    PublicKey {
        /// The user to authenticate as.
        username: String,
    },
}

/// An error that is further described in a message.
#[derive(Clone, Debug, PartialEq, Eq)]
pub struct Message(pub String);

impl Message {
    /// Create a new instance that displays the given `message`.
    pub fn new(message: String) -> (r: Message)
        ensures
            r.0@ == message@,
    {
        Message(message)
    }
}

/// A simple error type with a fixed description.
#[derive(Clone, Copy, Debug, PartialEq, Eq)]
pub struct Simple(pub &'static str);

/// The counters a blame run reports to a service caller.
#[derive(Clone, Copy, Debug, Default, PartialEq, Eq, Structural)]
pub struct BlameStatistics {
    /// The amount of commits the walk visited.
    pub commits_traversed: usize,
    /// The amount of blob pairs diffed.
    pub blobs_diffed: usize,
}

/// Blame options at the service boundary.
#[derive(Clone, Copy, Debug, PartialEq, Eq)]
pub struct BlameOptions {
    /// The one-based inclusive line range to blame, or the whole file.
    pub range: Option<(u32, u32)>,
    /// Whether to follow the file across renames.
    pub follow_renames: bool,
}

impl Default for BlameOptions {
    /// Blame the whole file and follow renames.
    fn default() -> (r: BlameOptions)
        ensures
            r.range is None,
            r.follow_renames,
    {
        BlameOptions { range: None, follow_renames: true }
    }
}

/// Configuration of a repository-serving process.
#[derive(Clone, Copy, Debug, PartialEq, Eq, Structural)]
pub struct SdkConfig {
    /// How many repositories to keep open at once.
    pub pool_size: usize,
    /// The object cache size per repository, in bytes.
    pub object_cache_bytes: usize,
    /// How long an unused repository stays open, in seconds.
    pub idle_timeout_secs: u64,
    /// The largest blob the service hands out, in bytes.
    pub max_blob_size: usize,
}

impl Default for SdkConfig {
    /// One hundred pooled repositories, a 16 MB object cache, a five minute
    /// idle timeout and a 100 MB blob limit.
    fn default() -> (r: SdkConfig)
        ensures
            r.pool_size == 100,
            r.object_cache_bytes == 16 * 1048576,
            r.idle_timeout_secs == 300,
            r.max_blob_size == 100 * 1048576,
    {
        SdkConfig {
            pool_size: 100,
            object_cache_bytes: 16 * MB,
            idle_timeout_secs: 300,
            max_blob_size: 100 * MB,
        }
    }
}

impl SdkConfig {
    /// A builder starting from the default configuration.
    pub fn builder() -> (r: SdkConfigBuilder)
        ensures
            r.pool_size == 100,
            r.object_cache_bytes == 16 * 1048576,
            r.idle_timeout_secs == 300,
            r.max_blob_size == 100 * 1048576,
    {
        SdkConfigBuilder {
            pool_size: 100,
            object_cache_bytes: 16 * MB,
            idle_timeout_secs: 300,
            max_blob_size: 100 * MB,
        }
    }
}

/// A builder for [`SdkConfig`].
#[derive(Clone, Copy, Debug, PartialEq, Eq, Structural)]
pub struct SdkConfigBuilder {
    /// How many repositories to keep open at once.
    pub pool_size: usize,
    /// The object cache size per repository, in bytes.
    pub object_cache_bytes: usize,
    /// How long an unused repository stays open, in seconds.
    pub idle_timeout_secs: u64,
    /// The largest blob the service hands out, in bytes.
    pub max_blob_size: usize,
}

impl SdkConfigBuilder {
    /// Set how many repositories to keep open at once.
    pub fn pool_size(self, size: usize) -> (r: SdkConfigBuilder)
        ensures
            r == (SdkConfigBuilder { pool_size: size, ..self }),
    {
        SdkConfigBuilder { pool_size: size, ..self }
    }

    /// Set the object cache size, in megabytes.
    pub fn object_cache_mb(self, mb: usize) -> (r: SdkConfigBuilder)
        requires
            mb * 1048576 <= usize::MAX,
        ensures
            r == (SdkConfigBuilder { object_cache_bytes: (mb * 1048576) as usize, ..self }),
    {
        SdkConfigBuilder { object_cache_bytes: mb * MB, ..self }
    }

    /// Set how long an unused repository stays open, in seconds.
    pub fn idle_timeout(self, timeout_secs: u64) -> (r: SdkConfigBuilder)
        ensures
            r == (SdkConfigBuilder { idle_timeout_secs: timeout_secs, ..self }),
    {
        SdkConfigBuilder { idle_timeout_secs: timeout_secs, ..self }
    }

    /// Set the largest blob the service hands out, in megabytes.
    pub fn max_blob_size_mb(self, mb: usize) -> (r: SdkConfigBuilder)
        requires
            mb * 1048576 <= usize::MAX,
        ensures
            r == (SdkConfigBuilder { max_blob_size: (mb * 1048576) as usize, ..self }),
    {
        SdkConfigBuilder { max_blob_size: mb * MB, ..self }
    }

    /// The finished configuration.
    pub fn build(self) -> (r: SdkConfig)
        ensures
            r.pool_size == self.pool_size,
            r.object_cache_bytes == self.object_cache_bytes,
            r.idle_timeout_secs == self.idle_timeout_secs,
            r.max_blob_size == self.max_blob_size,
    {
        SdkConfig {
            pool_size: self.pool_size,
            object_cache_bytes: self.object_cache_bytes,
            idle_timeout_secs: self.idle_timeout_secs,
            max_blob_size: self.max_blob_size,
        }
    }
}

/// A blame entry at the service boundary: one-based line numbers and the
/// original path when the file was renamed.
#[derive(Clone, Debug, PartialEq, Eq)]
pub struct ServiceBlameEntry {
    /// The commit that introduced the lines.
    pub commit_id: ObjectId,
    /// The one-based first line in the blamed file.
    pub start_line: u32,
    /// The amount of lines.
    pub line_count: u32,
    /// The one-based first line in the source file.
    pub original_start_line: u32,
    /// The path of the source file when it differs from the blamed one.
    pub original_path: Option<Vec<u8>>,
}

} // verus!
