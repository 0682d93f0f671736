//! The state of a file system in the form in which a migration source sends it.

use vstd::prelude::*;

use crate::file_handle::SerializableFileHandle;

verus! {

/// The state of a whole file system.
#[derive(Debug, PartialEq, Eq)]
pub struct PassthroughFsV1 {
    pub inodes: Vec<Inode>,
    pub next_inode: u64,
    pub handles: Vec<Handle>,
    pub next_handle: u64,
    pub negotiated_opts: NegotiatedOpts,
}

/// The options that the source has negotiated with the guest.
#[derive(Clone, Copy, Debug, PartialEq, Eq)]
pub struct NegotiatedOpts {
    pub writeback: bool,
    pub announce_submounts: bool,
    pub posix_acl: bool,
    pub sup_group_extension: bool,
}

/// An inode that the guest knows.
#[derive(Debug, PartialEq, Eq)]
pub struct Inode {
    pub id: u64,
    /// How many references there are, the one of each inode that is found through this one
    /// ([`InodeLocation::Path`]) included.
    pub refcount: u64,
    pub location: InodeLocation,
    /// The file handle that the inode has on the source, if it is to be compared.
    pub file_handle: Option<SerializableFileHandle>,
}

/// How an inode is found.
#[derive(Debug, PartialEq, Eq)]
pub enum InodeLocation {
    /// The root of the shared directory.
    RootNode,
    /// A name in the directory `parent`. A filter root has an absolute `fullname`.
    Path { parent: u64, filename: String, fullname: String },
    /// The source has lost it.
    Invalid,
    /// A path below the root of the shared directory.
    FullPath { filename: String },
}

/// A file that the guest has open.
#[derive(Clone, Copy, Debug, PartialEq, Eq)]
pub struct Handle {
    pub id: u64,
    pub inode: u64,
    pub source: HandleSource,
}

/// How an open file comes about.
#[derive(Clone, Copy, Debug, PartialEq, Eq)]
pub enum HandleSource {
    /// By opening its inode with these flags.
    OpenInode { flags: i32 },
}

} // verus!
