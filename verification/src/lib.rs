//! A read-only directory tree over remotely hosted content.
//!
//! The crate has three parts. [`ioutil`] builds one seekable byte stream out
//! of several sources whose lengths are known up front and whose content may
//! be produced only when a read first touches it. [`filesystem`] binds a tree
//! of content nodes to inode numbers, remembers directory listings and serves
//! the requests of a kernel-facing filesystem protocol. [`mapping`] describes
//! the tree that is exposed: users, their tracks, favorites and followings.

pub mod filesystem;
pub mod ioutil;
pub mod mapping;
