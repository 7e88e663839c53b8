//! The RAR archives found below a directory, each indexed and shown as a
//! directory named after the archive's stem.

use vstd::prelude::*;
use vstd::string::*;
use crate::archive::{keys_distinct, key_index, lemma_key_index, lemma_key_index_at, nodes_in_directory, Archive, ArchiveState, ENTRY_BUFFER_SIZE};
use crate::node::{Node, NodeState};
use crate::path::{extension, path_extension};
use crate::text::{concat, has_prefix, starts_with, text_equal};

verus! {

/// A set of indexed archives as a value: each archive's name and index, in
/// the order the names were first added.
pub open spec fn archive_names(archives: Seq<(Seq<char>, ArchiveState)>) -> Seq<Seq<char>> {
    archives.map_values(|p: (Seq<char>, ArchiveState)| p.0)
}

/// The node standing for the directory of the archive named `name`.
pub open spec fn archive_directory_node(archive_path: Seq<char>, name: Seq<char>) -> NodeState {
    NodeState { archive_path: archive_path, entry: None, buffer_size: ENTRY_BUFFER_SIZE, name: name }
}

/// The node at `path`: the first archive whose name led by `/` is `path`
/// gives the node standing for its directory, and the first whose name led
/// by `/` starts `path` gives the node its index holds under the rest of
/// `path`.
pub open spec fn node_for_path(archives: Seq<(Seq<char>, ArchiveState)>, path: Seq<char>) -> Option<NodeState>
    decreases archives.len(),
{
    if archives.len() == 0 {
        None
    } else {
        let f = seq!['/'] + archives[0].0;
        if path == f {
            Some(archive_directory_node(seq![], f))
        } else if starts_with(path, f) {
            archives[0].1.lookup(path.skip(f.len() as int))
        } else {
            node_for_path(archives.skip(1), path)
        }
    }
}

/// The nodes a listing of `directory_prefix` shows: those at the root of the
/// first archive whose name led by `/` is the prefix, or none.
pub open spec fn nodes_for_directory(archives: Seq<(Seq<char>, ArchiveState)>, directory_prefix: Seq<char>) -> Seq<NodeState>
    decreases archives.len(),
{
    if archives.len() == 0 {
        seq![]
    } else if directory_prefix == seq!['/'] + archives[0].0 {
        nodes_in_directory(archives[0].1.files, seq!['/'])
    } else {
        nodes_for_directory(archives.skip(1), directory_prefix)
    }
}

/// The RAR archives below a directory, by name.
#[derive(Debug)]
pub struct DirectoryArchive {
    archives: Vec<(String, Archive)>,
}

impl View for DirectoryArchive {
    type V = Seq<(Seq<char>, ArchiveState)>;

    closed spec fn view(&self) -> Seq<(Seq<char>, ArchiveState)> {
        self.archives@.map_values(|p: (String, Archive)| (p.0@, p.1@))
    }
}

fn slash() -> (r: &'static str)
    ensures
        r@ == seq!['/'],
{
    proof {
        reveal_strlit("/");
    }
    "/"
}

fn rar_word() -> (r: &'static str)
    ensures
        r@ == seq!['r', 'a', 'r'],
{
    proof {
        reveal_strlit("rar");
    }
    "rar"
}

/// Whether the file at `path` is indexed as an archive: its extension is
/// `rar`.
pub fn is_archive(path: &str) -> (r: bool)
    ensures
        r == (extension(path@) == Some(seq!['r', 'a', 'r'])),
{
    match path_extension(path) {
        Some(ext) => text_equal(ext, rar_word()),
        None => false,
    }
}

impl DirectoryArchive {
    /// No name occurs twice.
    #[verifier::type_invariant]
    closed spec fn names_unique(self) -> bool {
        keys_distinct(archive_names(self@))
    }

    /// No archives yet.
    pub fn empty() -> (r: DirectoryArchive)
        ensures
            r@.len() == 0,
    {
        let r = DirectoryArchive { archives: Vec::new() };
        assert(r@ =~= Seq::<(Seq<char>, ArchiveState)>::empty());
        r
    }

    /// Adds `archive` under `name`, in place of any archive already under
    /// that name.
    pub fn add_archive(&mut self, name: String, archive: Archive)
        ensures
            keys_distinct(archive_names(final(self)@)),
            ({
                let i = key_index(archive_names(old(self)@), name@);
                final(self)@ == if i >= 0 {
                    old(self)@.update(i, (name@, archive@))
                } else {
                    old(self)@.push((name@, archive@))
                }
            }),
    {
        proof {
            use_type_invariant(&*self);
        }
        let ghost old_state = self@;
        let ghost names = archive_names(old_state);
        let ghost pair = (name@, archive@);
        proof {
            lemma_key_index(names, name@);
        }
        let found = self.index_of(name.as_str());
        let mut archives: Vec<(String, Archive)> = Vec::new();
        std::mem::swap(&mut archives, &mut self.archives);
        match found {
            Some(i) => {
                archives.set(i, (name, archive));
                assert(archives@.map_values(|p: (String, Archive)| (p.0@, p.1@)) =~= old_state.update(i as int, pair));
                assert(archive_names(old_state.update(i as int, pair)) =~= names.update(i as int, pair.0));
            },
            None => {
                archives.push((name, archive));
                assert(archives@.map_values(|p: (String, Archive)| (p.0@, p.1@)) =~= old_state.push(pair));
                assert(archive_names(old_state.push(pair)) =~= names.push(pair.0));
            },
        }
        self.archives = archives;
    }

    fn index_of(&self, name: &str) -> (r: Option<usize>)
        ensures
            match r {
                Some(i) => key_index(archive_names(self@), name@) == i as int && i < self.archives@.len(),
                None => key_index(archive_names(self@), name@) == -1,
            },
    {
        let ghost names = archive_names(self@);
        let mut i: usize = 0;
        while i < self.archives.len()
            invariant
                i <= self.archives.len(),
                names == archive_names(self@),
                names.len() == self.archives@.len(),
                forall|j: int| 0 <= j < i ==> names[j] != name@,
            decreases self.archives.len() - i,
        {
            assert(names[i as int] == self.archives@[i as int].0@);
            if text_equal(self.archives[i].0.as_str(), name) {
                proof {
                    lemma_key_index_at(names, name@, i as int);
                }
                return Some(i);
            }
            i = i + 1;
        }
        proof {
            lemma_key_index_at(names, name@, -1);
        }
        None
    }

    /// A node standing for the directory of each archive, in order, with the
    /// archive's name as both its path and its name.
    pub fn list_files_in_root(&self) -> (r: Vec<Node>)
        ensures
            r@.map_values(|n: Node| n@)
                == self@.map_values(|p: (Seq<char>, ArchiveState)| archive_directory_node(p.0, p.0)),
    {
        let ghost target = self@.map_values(|p: (Seq<char>, ArchiveState)| archive_directory_node(p.0, p.0));
        let mut r: Vec<Node> = Vec::new();
        let mut i: usize = 0;
        while i < self.archives.len()
            invariant
                i <= self.archives.len(),
                target == self@.map_values(|p: (Seq<char>, ArchiveState)| archive_directory_node(p.0, p.0)),
                r@.map_values(|n: Node| n@) == target.take(i as int),
            decreases self.archives.len() - i,
        {
            let ghost before = r@;
            let name = &self.archives[i].0;
            let node = Node::new(name.clone(), None, name.clone(), ENTRY_BUFFER_SIZE);
            assert(self@[i as int].0 == name@);
            r.push(node);
            assert(r@.map_values(|n: Node| n@) =~= before.map_values(|n: Node| n@).push(target[i as int]));
            assert(target.take(i + 1) =~= target.take(i as int).push(target[i as int]));
            i = i + 1;
        }
        assert(target.take(self.archives.len() as int) =~= target);
        r
    }

    /// The node at `path` (see [`node_for_path`]).
    pub fn get_node_for_path(&self, path: &str) -> (r: Option<Node>)
        ensures
            match r {
                Some(n) => node_for_path(self@, path@) == Some(n@),
                None => node_for_path(self@, path@) is None,
            },
    {
        let ghost all = self@;
        let mut i: usize = 0;
        assert(all.skip(0) =~= all);
        while i < self.archives.len()
            invariant
                i <= self.archives.len(),
                all == self@,
                all.len() == self.archives@.len(),
                node_for_path(all, path@) == node_for_path(all.skip(i as int), path@),
            decreases self.archives.len() - i,
        {
            let (name, archive) = &self.archives[i];
            let ghost rest = all.skip(i as int);
            assert(rest[0] == (name@, archive@));
            let prefixed = concat(slash(), name.as_str());
            if text_equal(path, prefixed.as_str()) {
                let empty = String::new();
                return Some(Node::new(empty, None, prefixed, ENTRY_BUFFER_SIZE));
            }
            if has_prefix(path, prefixed.as_str()) {
                let n = path.unicode_len();
                let m = prefixed.as_str().unicode_len();
                let subpath = path.substring_char(m, n);
                assert(subpath@ =~= path@.skip(m as int));
                return archive.get_node_for_path(subpath);
            }
            assert(rest.skip(1) =~= all.skip(i + 1));
            i = i + 1;
        }
        None
    }

    /// The nodes a listing of `directory_prefix` shows (see
    /// [`nodes_for_directory`]).
    pub fn get_nodes_in_directory(&self, directory_prefix: &str) -> (r: Vec<Node>)
        ensures
            r@.map_values(|n: Node| n@) == nodes_for_directory(self@, directory_prefix@),
    {
        let ghost all = self@;
        let mut i: usize = 0;
        assert(all.skip(0) =~= all);
        while i < self.archives.len()
            invariant
                i <= self.archives.len(),
                all == self@,
                all.len() == self.archives@.len(),
                nodes_for_directory(all, directory_prefix@) == nodes_for_directory(all.skip(i as int), directory_prefix@),
            decreases self.archives.len() - i,
        {
            let (name, archive) = &self.archives[i];
            let ghost rest = all.skip(i as int);
            assert(rest[0] == (name@, archive@));
            let filepath = concat(slash(), name.as_str());
            if text_equal(directory_prefix, filepath.as_str()) {
                return archive.get_nodes_in_directory(slash());
            }
            assert(rest.skip(1) =~= all.skip(i + 1));
            i = i + 1;
        }
        let r: Vec<Node> = Vec::new();
        assert(r@.map_values(|n: Node| n@) =~= Seq::<NodeState>::empty());
        r
    }
}

} // verus!
