//! An archive, shown as a directory that holds the archive's entries as
//! files.

use vstd::prelude::*;
use vstd::string::*;
use crate::model::{archive_files, archive_name_for, NodeModel};
use crate::path::{file_name, path_file_stem};
use crate::patterns::display_name_for_stem;

pub mod fs_file;

pub use fs_file::FSFile;

verus! {

/// An entry of an archive, as reading the archive yields it: its path inside
/// the archive and its size in bytes.
#[derive(Debug)]
pub struct ArchiveEntryInfo {
    pub pathname: String,
    pub size: u64,
}

impl View for ArchiveEntryInfo {
    type V = (Seq<char>, u64);

    open spec fn view(&self) -> (Seq<char>, u64) {
        (self.pathname@, self.size)
    }
}

/// The archive at `archive_path`, shown under the name `name`.
#[derive(Debug)]
pub struct FSArchive {
    archive_path: String,
    name: String,
}

impl View for FSArchive {
    type V = Seq<char>;

    /// The archive's path.
    closed spec fn view(&self) -> Seq<char> {
        self.archive_path@
    }
}

impl FSArchive {
    #[verifier::type_invariant]
    spec fn named_after_path(self) -> bool {
        &&& file_name(self.archive_path@) is Some
        &&& self.name@ == archive_name_for(self.archive_path@)
    }

    /// The archive at `archive_path`. Its name is the stem of its file name
    /// without a trailing `.tar`.
    pub fn new(archive_path: &str) -> (r: FSArchive)
        requires
            file_name(archive_path@) is Some,
        ensures
            r@ == archive_path@,
    {
        let stem = match path_file_stem(archive_path) {
            Some(s) => s,
            None => {
                assert(false);
                archive_path
            }
        };
        let name = display_name_for_stem(stem);
        FSArchive { archive_path: String::from_str(archive_path), name }
    }

    /// The archive's path.
    pub fn archive_path(&self) -> (r: &str)
        ensures
            r@ == self@,
    {
        self.archive_path.as_str()
    }

    /// The name the archive shows.
    pub fn name(&self) -> (r: &str)
        ensures
            file_name(self@) is Some,
            r@ == archive_name_for(self@),
    {
        proof {
            use_type_invariant(self);
        }
        self.name.as_str()
    }

    /// The files the archive shows when reading it yields `entries`: one per
    /// entry, in order.
    pub fn list_files(&self, entries: &Vec<ArchiveEntryInfo>) -> (r: Vec<FSFile>)
        ensures
            r@.map_values(|f: FSFile| NodeModel::ArchiveFile(f@.0, f@.1, f@.2))
                == archive_files(self@, entries@.map_values(|e: ArchiveEntryInfo| e@)),
    {
        let mut r: Vec<FSFile> = Vec::new();
        let mut i: usize = 0;
        while i < entries.len()
            invariant
                i <= entries.len(),
                r@.len() == i,
                forall|k: int| 0 <= k < i ==> (#[trigger] r@[k])@ == (self@, entries@[k].pathname@, entries@[k].size),
            decreases entries.len() - i,
        {
            let e = &entries[i];
            r.push(FSFile::new(self.archive_path.as_str(), e.size, e.pathname.as_str()));
            i = i + 1;
        }
        assert(r@.map_values(|f: FSFile| NodeModel::ArchiveFile(f@.0, f@.1, f@.2))
            =~= archive_files(self@, entries@.map_values(|e: ArchiveEntryInfo| e@)));
        r
    }
}

impl Clone for FSArchive {
    fn clone(&self) -> (r: Self)
        ensures
            r@ == self@,
    {
        proof {
            use_type_invariant(self);
        }
        FSArchive { archive_path: self.archive_path.clone(), name: self.name.clone() }
    }
}

} // verus!
