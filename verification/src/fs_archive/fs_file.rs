//! A file inside an archive.

use vstd::prelude::*;
use vstd::string::*;
use crate::path::{file_name, path_file_name};
use crate::text::text_equal;

verus! {

/// A file inside the archive at `path`, stored there under `archive_path`,
/// of `filesize` bytes.
#[derive(Debug)]
pub struct FSFile {
    archive_path: String,
    path: String,
    filesize: u64,
}

impl View for FSFile {
    /// The archive's path, the entry's path inside the archive, and the
    /// entry's size.
    type V = (Seq<char>, Seq<char>, u64);

    closed spec fn view(&self) -> (Seq<char>, Seq<char>, u64) {
        (self.path@, self.archive_path@, self.filesize)
    }
}

impl Clone for FSFile {
    fn clone(&self) -> (r: Self)
        ensures
            r@ == self@,
    {
        FSFile {
            archive_path: self.archive_path.clone(),
            path: self.path.clone(),
            filesize: self.filesize,
        }
    }
}

impl FSFile {
    /// The entry `archive_path` of `filesize` bytes in the archive at `path`.
    pub fn new(path: &str, filesize: u64, archive_path: &str) -> (r: FSFile)
        ensures
            r@ == (path@, archive_path@, filesize),
    {
        FSFile {
            path: String::from_str(path),
            filesize: filesize,
            archive_path: String::from_str(archive_path),
        }
    }

    /// The path of the archive that holds the file.
    pub fn archive_file(&self) -> (r: &str)
        ensures
            r@ == self@.0,
    {
        self.path.as_str()
    }

    /// The path of the file inside its archive.
    pub fn entry_path(&self) -> (r: &str)
        ensures
            r@ == self@.1,
    {
        self.archive_path.as_str()
    }

    /// The final component of the file's path inside its archive.
    pub fn filename(&self) -> (r: &str)
        requires
            file_name(self@.1) is Some,
        ensures
            r@ == file_name(self@.1).unwrap(),
    {
        match path_file_name(self.archive_path.as_str()) {
            Some(n) => n,
            None => {
                assert(false);
                self.archive_path.as_str()
            }
        }
    }

    /// Whether `pathname` is the path of the file inside its archive, so that
    /// reading the archive has reached the file.
    pub fn is_entry(&self, pathname: &str) -> (r: bool)
        ensures
            r == (pathname@ == self@.1),
    {
        text_equal(self.archive_path.as_str(), pathname)
    }

    /// The file's size in bytes, as its archive records it.
    pub fn size(&self) -> (r: u64)
        ensures
            r == self@.2,
    {
        self.filesize
    }
}

} // verus!
