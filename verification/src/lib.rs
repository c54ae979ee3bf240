//! An in-memory hierarchical filesystem.
//!
//! The filesystem stores a tree of directories and files entirely in memory
//! and exposes two capability types: [`Dir`], a directory capability for
//! path resolution and directory mutation, and [`File`], an open-file
//! capability with its own cursor and access mode.  All nodes live in a
//! single arena owned by [`Filesystem`]; a node's serial number is its
//! index in that arena, so serials are unique, strictly increasing and
//! never reused.  Hard links are directory entries naming the same file
//! node, and a file's contents survive unlinking for as long as any open
//! handle still names its serial.
//!
//! Timestamps are opaque host-supplied instants: every operation that
//! records a time takes the current instant as an argument, so the host's
//! clock stays outside the library.

pub mod error;
pub mod node;
pub mod fs;
pub mod file;
pub mod laws;

pub use error::FsError;
pub use node::{FileType, Filestat, ReaddirEntity, Inode, DirInode, FileInode, DirEntry};
pub use fs::{Filesystem, Dir};
pub use file::{File, FileMode, FdFlags, SeekFrom, SystemTimeSpec, Advice};
