//! What can be read: a file on disk or a file inside an archive.

use vstd::prelude::*;
use crate::file::File;
use crate::fs_archive::FSFile;
use crate::model::NodeModel;

verus! {

/// A file that can be read: one on disk, or one inside an archive.
#[derive(Debug)]
pub enum Readable {
    File(File),
    ArchiveFile(FSFile),
}

impl View for Readable {
    type V = NodeModel;

    open spec fn view(&self) -> NodeModel {
        match self {
            Readable::File(f) => NodeModel::File(f@),
            Readable::ArchiveFile(f) => NodeModel::ArchiveFile(f@.0, f@.1, f@.2),
        }
    }
}

impl Clone for Readable {
    fn clone(&self) -> (r: Self)
        ensures
            r@ == self@,
    {
        match self {
            Readable::File(f) => Readable::File(f.clone()),
            Readable::ArchiveFile(f) => Readable::ArchiveFile(f.clone()),
        }
    }
}

impl Readable {
    /// The name under which the file is listed.
    pub fn filename(&self) -> (r: &str)
        requires
            self@.has_name(),
        ensures
            r@ == self@.name(),
    {
        match self {
            Readable::File(f) => f.filename(),
            Readable::ArchiveFile(f) => f.filename(),
        }
    }

    /// The size a file inside an archive has, as its archive records it;
    /// `None` for a file on disk, whose size only the file system knows.
    pub fn recorded_size(&self) -> (r: Option<u64>)
        ensures
            match self@ {
                NodeModel::ArchiveFile(_, _, s) => r == Some(s),
                _ => r is None,
            },
    {
        match self {
            Readable::File(_) => None,
            Readable::ArchiveFile(f) => Some(f.size()),
        }
    }
}

} // verus!
