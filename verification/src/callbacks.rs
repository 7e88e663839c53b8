//! What the file system callbacks answer, given the node a path leads to.

use vstd::prelude::*;
use vstd::string::*;
use crate::filesystem_node::FilesystemNode;
use crate::model::NodeModel;
use crate::readable::Readable;
use crate::text::text_equal;

verus! {

/// The kind of a node as the file system reports it.
#[derive(Debug, Clone, Copy, PartialEq, Eq, Structural)]
pub enum FileKind {
    Regular,
    Directory,
}

/// The attributes the file system reports for a node.
#[derive(Debug, Clone, Copy, PartialEq, Eq, Structural)]
pub struct Attributes {
    pub kind: FileKind,
    /// The permission bits.
    pub permissions: u32,
    /// The number of links.
    pub links: u64,
    /// The size in bytes, when one is reported.
    pub size: Option<u64>,
}

/// The attributes of a file of `size` bytes: readable, writable and
/// executable by all, with two links.
pub open spec fn file_attributes(size: u64) -> Attributes {
    Attributes { kind: FileKind::Regular, permissions: 0o777, links: 2, size: Some(size) }
}

/// The attributes of a directory or archive: readable, writable and
/// executable by all, with one link, one block in size.
pub open spec fn directory_attributes() -> Attributes {
    Attributes { kind: FileKind::Directory, permissions: 0o777, links: 1, size: Some(4096) }
}

/// The attributes of the root when no node stands for it: a directory
/// readable and executable by all and writable by its owner, with two links
/// and no size.
pub open spec fn root_attributes() -> Attributes {
    Attributes { kind: FileKind::Directory, permissions: 0o755, links: 2, size: None }
}

/// The attributes of `node`, where `file_size` is its size when it is a
/// file.
pub fn node_attributes(node: &FilesystemNode, file_size: u64) -> (r: Attributes)
    ensures
        r == (if node@.is_browseable() { directory_attributes() } else { file_attributes(file_size) }),
{
    match node {
        FilesystemNode::Readable(_) => Attributes {
            kind: FileKind::Regular,
            permissions: 0o777,
            links: 2,
            size: Some(file_size),
        },
        FilesystemNode::Browseable(b) => Attributes {
            kind: FileKind::Directory,
            permissions: 0o777,
            links: 1,
            size: Some(b.size()),
        },
    }
}

/// What the attribute callback answers for `path` when the lookup of `path`
/// found `node`: the node's attributes, the root's when nothing was found
/// at `/`, and nothing (no such entry) otherwise.
pub fn getattr_reply(node: &Option<FilesystemNode>, file_size: u64, path: &str) -> (r: Option<Attributes>)
    ensures
        (*node) is Some ==> r == Some(
            if node.unwrap()@.is_browseable() { directory_attributes() } else { file_attributes(file_size) },
        ),
        (*node) is None ==> r == (if path@ == seq!['/'] { Some(root_attributes()) } else { None }),
{
    match node {
        Some(n) => Some(node_attributes(n, file_size)),
        None => {
            let slash = root_path();
            if text_equal(path, slash) {
                Some(Attributes { kind: FileKind::Directory, permissions: 0o755, links: 2, size: None })
            } else {
                None
            }
        },
    }
}

fn root_path() -> (r: &'static str)
    ensures
        r@ == seq!['/'],
{
    proof {
        reveal_strlit("/");
    }
    "/"
}

/// The names of the current and the parent directory.
pub open spec fn dot_entries() -> Seq<Seq<char>> {
    seq![seq!['.'], seq!['.', '.']]
}

/// What the directory-reading callback lists for a directory whose nodes are
/// `nodes`: `.` and `..`, then each node's name, in order; only `.` and `..`
/// when there is no such directory.
pub fn readdir_names(nodes: &Option<Vec<FilesystemNode>>) -> (r: Vec<String>)
    requires
        nodes matches Some(ns) ==> forall|k: int| 0 <= k < ns@.len() ==> (#[trigger] ns@[k])@.has_name() || ns@[k]@ is Archive,
    ensures
        r@.map_values(|s: String| s@) == (match nodes {
            Some(ns) => dot_entries() + ns@.map_values(|n: FilesystemNode| n@.name()),
            None => dot_entries(),
        }),
{
    let mut r: Vec<String> = Vec::new();
    proof {
        reveal_strlit(".");
        reveal_strlit("..");
    }
    let dot = String::from_str(".");
    let dotdot = String::from_str("..");
    r.push(dot);
    r.push(dotdot);
    assert(r@.map_values(|s: String| s@)[0] == seq!['.']);
    assert(r@.map_values(|s: String| s@)[1] == seq!['.', '.']);
    assert(r@.map_values(|s: String| s@) =~= dot_entries());
    match nodes {
        None => r,
        Some(ns) => {
            let ghost names = ns@.map_values(|n: FilesystemNode| n@.name());
            let mut i: usize = 0;
            while i < ns.len()
                invariant
                    i <= ns.len(),
                    names == ns@.map_values(|n: FilesystemNode| n@.name()),
                    forall|k: int| 0 <= k < ns@.len() ==> (#[trigger] ns@[k])@.has_name() || ns@[k]@ is Archive,
                    r@.map_values(|s: String| s@) == dot_entries() + names.take(i as int),
                decreases ns.len() - i,
            {
                let ghost before = r@;
                let name = ns[i].name();
                r.push(String::from_str(name));
                assert(r@.map_values(|s: String| s@) =~= before.map_values(|s: String| s@).push(name@));
                assert(names.take(i + 1) =~= names.take(i as int).push(names[i as int]));
                i = i + 1;
            }
            assert(names.take(ns.len() as int) =~= names);
            r
        },
    }
}

/// The file the read callback reads for the lookup result `node`: the node
/// when it is a file, nothing (no such entry) otherwise.
pub fn read_target(node: Option<FilesystemNode>) -> (r: Option<Readable>)
    ensures
        match r {
            Some(f) => node matches Some(n) && n@ == f@ && !n@.is_browseable(),
            None => node matches Some(n) ==> n@.is_browseable(),
        },
{
    match node {
        Some(FilesystemNode::Readable(f)) => Some(f),
        _ => None,
    }
}

} // verus!
