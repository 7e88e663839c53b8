//! An entry of an indexed archive, or a directory standing for an archive.

use vstd::prelude::*;
use vstd::string::*;
use crate::text::text_equal;

verus! {

/// The header of an archive entry, as reading the archive yields it: the
/// entry's path, size in bytes, and file type bits.
#[derive(Debug)]
pub struct EntryHeader {
    pub pathname: String,
    pub size: i64,
    pub filetype: u32,
}

impl View for EntryHeader {
    type V = (Seq<char>, i64, u32);

    open spec fn view(&self) -> (Seq<char>, i64, u32) {
        (self.pathname@, self.size, self.filetype)
    }
}

impl Clone for EntryHeader {
    fn clone(&self) -> (r: Self)
        ensures
            r@ == self@,
    {
        EntryHeader { pathname: self.pathname.clone(), size: self.size, filetype: self.filetype }
    }
}

/// The file type bits of a directory.
pub const DIRECTORY_FILETYPE: u32 = 16384;

/// A node as a value: the path of the archive that holds it, its entry's
/// header (none for a node standing for a whole archive), the read buffer
/// size, and its name.
pub struct NodeState {
    pub archive_path: Seq<char>,
    pub entry: Option<(Seq<char>, i64, u32)>,
    pub buffer_size: usize,
    pub name: Seq<char>,
}

/// An entry of an indexed archive, or, without an entry, a directory that
/// stands for a whole archive.
#[derive(Debug)]
pub struct Node {
    archive_path: String,
    entry: Option<EntryHeader>,
    buffer_size: usize,
    pub name: String,
}

impl View for Node {
    type V = NodeState;

    closed spec fn view(&self) -> NodeState {
        NodeState {
            archive_path: self.archive_path@,
            entry: match self.entry {
                Some(h) => Some(h@),
                None => None,
            },
            buffer_size: self.buffer_size,
            name: self.name@,
        }
    }
}

impl Clone for Node {
    fn clone(&self) -> (r: Self)
        ensures
            r@ == self@,
    {
        Node {
            archive_path: self.archive_path.clone(),
            entry: match &self.entry {
                Some(h) => Some(h.clone()),
                None => None,
            },
            buffer_size: self.buffer_size,
            name: self.name.clone(),
        }
    }
}

impl Node {
    /// The node named `name` for `entry` of the archive at `archive_path`,
    /// read through buffers of `buffer_size` bytes.
    pub fn new(archive_path: String, entry: Option<EntryHeader>, name: String, buffer_size: usize) -> (r: Node)
        ensures
            r@ == (NodeState {
                archive_path: archive_path@,
                entry: match entry {
                    Some(h) => Some(h@),
                    None => None,
                },
                buffer_size: buffer_size,
                name: name@,
            }),
    {
        Node { archive_path, entry, buffer_size, name }
    }

    /// The path of the archive that holds the node.
    pub fn archive_path(&self) -> (r: &str)
        ensures
            r@ == self@.archive_path,
    {
        self.archive_path.as_str()
    }

    /// The header of the node's entry.
    pub fn entry(&self) -> (r: &Option<EntryHeader>)
        ensures
            match *r {
                Some(h) => self@.entry == Some(h@),
                None => self@.entry is None,
            },
    {
        &self.entry
    }

    /// The size of the buffers the node is read through.
    pub fn buffer_size(&self) -> (r: usize)
        ensures
            r == self@.buffer_size,
    {
        self.buffer_size
    }

    /// Whether `pathname` is the path of the node's entry, so that reading
    /// the archive has reached the node. A node without an entry is never
    /// reached.
    pub fn is_entry(&self, pathname: &str) -> (r: bool)
        ensures
            r == (self@.entry matches Some(h) && h.0 == pathname@),
    {
        match &self.entry {
            Some(h) => text_equal(h.pathname.as_str(), pathname),
            None => false,
        }
    }

    /// Whether the node is a directory: it stands for a whole archive, or
    /// its entry has the file type of a directory.
    pub fn is_directory(&self) -> (r: bool)
        ensures
            r == match self@.entry {
                Some(h) => h.2 == DIRECTORY_FILETYPE,
                None => true,
            },
    {
        match &self.entry {
            None => true,
            Some(h) => h.filetype == DIRECTORY_FILETYPE,
        }
    }

    /// The size of the node's entry in bytes.
    pub fn size(&self) -> (r: i64)
        requires
            self@.entry is Some,
        ensures
            r == self@.entry.unwrap().1,
    {
        match &self.entry {
            Some(h) => h.size,
            None => {
                assert(false);
                0
            },
        }
    }
}

} // verus!
