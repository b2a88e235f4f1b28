//! What a tree entry must offer, and the plain values it reports.
use vstd::prelude::*;
use crate::ioutil::concat::Concat;
use crate::ioutil::readseek::{ReadSeek, Source};

verus! {

/// Status of a request for something that does not exist: "no such entry".
pub const ENOENT: i32 = 2;

/// Status of every other failed request: "I/O error".
pub const EIO: i32 = 5;

/// The kind of a tree entry.
#[derive(Clone, Copy, Debug, PartialEq, Eq, Structural)]
pub enum FileKind {
    /// An entry that lists children.
    Directory,
    /// An entry that can be opened for reading.
    RegularFile,
    /// An entry that resolves to a path.
    Symlink,
}

/// A point in time: seconds since the epoch and nanoseconds within the second.
#[derive(Clone, Copy, Debug, PartialEq, Eq, Structural)]
pub struct Timespec {
    pub sec: i64,
    pub nsec: i32,
}

/// The attributes reported for one inode.
#[derive(Clone, Copy, Debug, PartialEq, Eq, Structural)]
pub struct FileAttributes {
    /// Inode number.
    pub ino: u64,
    /// Size in bytes.
    pub size: u64,
    /// Size in blocks.
    pub blocks: u64,
    /// Time of last access.
    pub atime: Timespec,
    /// Time of last modification.
    pub mtime: Timespec,
    /// Time of last change.
    pub ctime: Timespec,
    /// Time of creation.
    pub crtime: Timespec,
    /// Kind of entry.
    pub kind: FileKind,
    /// Permission bits.
    pub perm: u16,
    /// Number of hard links.
    pub nlink: u32,
    /// Owner.
    pub uid: u32,
    /// Group.
    pub gid: u32,
    /// Device number.
    pub rdev: u32,
    /// Flags.
    pub flags: u32,
}

/// An error of a node that can be reported as a status code.
pub trait Error {
    /// The status code for this error.
    fn errno(&self) -> i32;
}

/// The stream that an open file is read from.
pub type Stream<P> = Concat<Source<P>>;

/// One entry of the tree: a directory, a file or a symbolic link.
///
/// A node is a value. What its methods return may depend on a remote
/// service, so nothing is promised of their results beyond what is written
/// here; the projection states what it does with whatever comes back.
pub trait Node: Sized {
    /// What the node's operations fail with.
    type Error: Error;

    /// What produces the deferred content of the node's streams.
    type Producer: FnOnce() -> Result<Vec<u8>, String>;

    /// The attributes of the node when it is known under inode `ino`.
    fn file_attributes(&self, ino: u64) -> FileAttributes;

    /// Opens a file for reading. The stream comes back well-formed.
    fn open_ro(&self) -> (r: Result<Stream<Self::Producer>, Self::Error>)
        ensures
            r matches Ok(stream) ==> stream.wf(),
    ;

    /// The children of a directory, in the order in which they are to be listed.
    fn children(&self) -> Result<Vec<(String, Self)>, Self::Error>;

    /// The child of a directory that goes by `name`, where the directory
    /// can tell without listing its children. `Ok(None)` leaves the answer
    /// to the listing. A name that the directory knows to name nothing
    /// fails at once.
    fn child_by_name(&self, name: &str) -> Result<Option<Self>, Self::Error>;

    /// The path that a symbolic link resolves to.
    fn read_link(&self) -> Result<String, Self::Error>;
}

} // verus!
