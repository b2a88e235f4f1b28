//! The projection of a tree of content nodes onto the requests of a
//! kernel-facing filesystem protocol.

pub mod cache;
pub mod inodes;
pub mod node;
pub mod projection;

pub use crate::filesystem::cache::ExpansionCache;
pub use crate::filesystem::node::{Error, FileAttributes, FileKind, Node, Stream, Timespec, EIO, ENOENT};
pub use crate::filesystem::projection::{DirEntry, FS};
