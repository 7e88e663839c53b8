//! A file on disk.

use vstd::prelude::*;
use vstd::string::*;
use crate::path::{file_name, path_file_name};

verus! {

/// A file on disk, known by its path.
#[derive(Debug)]
pub struct File {
    filepath: String,
}

impl View for File {
    type V = Seq<char>;

    /// The file's path.
    closed spec fn view(&self) -> Seq<char> {
        self.filepath@
    }
}

impl Clone for File {
    fn clone(&self) -> (r: Self)
        ensures
            r@ == self@,
    {
        File { filepath: self.filepath.clone() }
    }
}

impl File {
    /// The file at `filepath`.
    pub fn new(filepath: &str) -> (r: File)
        ensures
            r@ == filepath@,
    {
        File { filepath: String::from_str(filepath) }
    }

    /// The file's path.
    pub fn filepath(&self) -> (r: &str)
        ensures
            r@ == self@,
    {
        self.filepath.as_str()
    }

    /// The final component of the file's path.
    pub fn filename(&self) -> (r: &str)
        requires
            file_name(self@) is Some,
        ensures
            r@ == file_name(self@).unwrap(),
    {
        match path_file_name(self.filepath.as_str()) {
            Some(n) => n,
            None => {
                assert(false);
                self.filepath.as_str()
            }
        }
    }
}

} // verus!
