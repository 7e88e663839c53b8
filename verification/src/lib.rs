//! archivefs: a directory tree in which archives (RAR, zip and gzip files)
//! show as directories that hold their entries.
//!
//! The library decides what the tree shows: which entries of a directory are
//! files, archives or subdirectories, what each is named, how a path is
//! looked up one component at a time, and what the file system callbacks
//! answer. Reading directories and archives from disk is left to the caller,
//! which hands each listing in.

pub mod archive;
pub mod browseable;
pub mod callbacks;
pub mod directory;
pub mod directory_archive;
pub mod ffi;
pub mod file;
pub mod filesystem;
pub mod filesystem_node;
pub mod fs_archive;
pub mod model;
pub mod node;
pub mod path;
pub mod patterns;
pub mod readable;
pub mod text;
pub mod utils;

pub use browseable::{Browseable, Listing};
pub use directory::{DirEntryInfo, Directory};
pub use file::File;
pub use filesystem::{DirectoryLookup, Filesystem, NodeLookup, Walk};
pub use filesystem_node::FilesystemNode;
pub use fs_archive::{ArchiveEntryInfo, FSArchive, FSFile};
pub use patterns::PatternError;
pub use readable::Readable;
