//! An index of an archive's entries by path, each entry's path led by `/`.

use vstd::prelude::*;
use vstd::string::*;
use vstd::utf8::encode_utf8;
use crate::node::{EntryHeader, Node, NodeState};
use crate::text::{concat, ends_with, has_suffix, remove_all, remove_occurrences, starts_with};

verus! {

/// Index of the first key equal to `k` in `keys`, or -1.
pub open spec fn key_index(keys: Seq<Seq<char>>, k: Seq<char>) -> int
    decreases keys.len(),
{
    if keys.len() == 0 {
        -1
    } else if keys[0] == k {
        0
    } else {
        let r = key_index(keys.skip(1), k);
        if r < 0 { -1 } else { r + 1 }
    }
}

pub proof fn lemma_key_index(keys: Seq<Seq<char>>, k: Seq<char>)
    ensures
        -1 <= key_index(keys, k) < keys.len(),
        key_index(keys, k) >= 0 ==> keys[key_index(keys, k)] == k,
        forall|j: int| 0 <= j < keys.len() && (key_index(keys, k) < 0 || j < key_index(keys, k)) ==> keys[j] != k,
    decreases keys.len(),
{
    if keys.len() > 0 && keys[0] != k {
        lemma_key_index(keys.skip(1), k);
        assert forall|j: int| 0 <= j < keys.len() && (key_index(keys, k) < 0 || j < key_index(keys, k)) implies keys[j] != k by {
            if j > 0 {
                assert(keys[j] == keys.skip(1)[j - 1]);
            }
        }
    }
}

/// The first key equal to `k` is at `i`, or there is none when `i` is -1.
pub proof fn lemma_key_index_at(keys: Seq<Seq<char>>, k: Seq<char>, i: int)
    requires
        -1 <= i < keys.len(),
        i >= 0 ==> keys[i] == k,
        forall|j: int| 0 <= j < keys.len() && (i < 0 || j < i) ==> keys[j] != k,
    ensures
        key_index(keys, k) == i,
    decreases keys.len(),
{
    if keys.len() > 0 && keys[0] != k {
        assert forall|j: int| 0 <= j < keys.skip(1).len() && (i - 1 < 0 || j < i - 1) implies keys.skip(1)[j] != k by {
            assert(keys.skip(1)[j] == keys[j + 1]);
        }
        if i < 0 {
            lemma_key_index_at(keys.skip(1), k, -1);
        } else {
            lemma_key_index_at(keys.skip(1), k, i - 1);
        }
    }
}

/// No key occurs twice.
pub open spec fn keys_distinct(keys: Seq<Seq<char>>) -> bool {
    forall|i: int, j: int| 0 <= i < keys.len() && 0 <= j < keys.len() && i != j ==> keys[i] != keys[j]
}

/// An archive index as a value: the archive's path, and its entries by key
/// in the order they were first added.
pub struct ArchiveState {
    pub path: Seq<char>,
    pub files: Seq<(Seq<char>, NodeState)>,
}

impl ArchiveState {
    /// The keys, in order.
    pub open spec fn keys(self) -> Seq<Seq<char>> {
        self.files.map_values(|p: (Seq<char>, NodeState)| p.0)
    }

    /// No key occurs twice.
    pub open spec fn well_formed(self) -> bool {
        keys_distinct(self.keys())
    }

    /// The node under `key`.
    pub open spec fn lookup(self, key: Seq<char>) -> Option<NodeState> {
        let i = key_index(self.keys(), key);
        if i >= 0 { Some(self.files[i].1) } else { None }
    }

    /// The index with `node` stored under `key`: in place of the node already
    /// there, or added last.
    pub open spec fn insert(self, key: Seq<char>, node: NodeState) -> ArchiveState {
        let i = key_index(self.keys(), key);
        ArchiveState {
            path: self.path,
            files: if i >= 0 { self.files.update(i, (key, node)) } else { self.files.push((key, node)) },
        }
    }
}

/// The key of an entry: its path led by `/`.
pub open spec fn entry_key(pathname: Seq<char>) -> Seq<char> {
    seq!['/'] + pathname
}

/// Whether a listing of `directory_prefix` shows the node under `key`: the
/// key is no longer in bytes than the prefix and, with every occurrence of
/// the prefix removed and then one leading `/`, does not end in `/`.
pub open spec fn shown_in_directory(key: Seq<char>, directory_prefix: Seq<char>) -> bool {
    let rest = remove_occurrences(key, directory_prefix);
    let relative = if starts_with(rest, seq!['/']) { rest.skip(1) } else { rest };
    &&& encode_utf8(key).len() <= encode_utf8(directory_prefix).len()
    &&& !ends_with(relative, seq!['/'])
}

/// The nodes a listing of `directory_prefix` shows, in index order.
pub open spec fn nodes_in_directory(files: Seq<(Seq<char>, NodeState)>, directory_prefix: Seq<char>) -> Seq<NodeState>
    decreases files.len(),
{
    if files.len() == 0 {
        seq![]
    } else {
        let prev = nodes_in_directory(files.drop_last(), directory_prefix);
        if shown_in_directory(files.last().0, directory_prefix) {
            prev.push(files.last().1)
        } else {
            prev
        }
    }
}

/// The size of the buffers through which indexed entries are read.
pub const ENTRY_BUFFER_SIZE: usize = 8192;

/// An index of the entries of the archive at `path`, by key.
#[derive(Debug)]
pub struct Archive {
    path: String,
    files: Vec<(String, Node)>,
}

impl View for Archive {
    type V = ArchiveState;

    closed spec fn view(&self) -> ArchiveState {
        ArchiveState {
            path: self.path@,
            files: self.files@.map_values(|p: (String, Node)| (p.0@, p.1@)),
        }
    }
}

fn slash() -> (r: &'static str)
    ensures
        r@ == seq!['/'],
{
    proof {
        reveal_strlit("/");
    }
    "/"
}

impl Archive {
    /// No key occurs twice.
    #[verifier::type_invariant]
    closed spec fn keys_unique(self) -> bool {
        self@.well_formed()
    }

    /// The index of the archive at `path`, with no entries yet.
    pub fn empty(path: &str) -> (r: Archive)
        ensures
            r@.path == path@,
            r@.files.len() == 0,
            r@.well_formed(),
    {
        let r = Archive { path: String::from_str(path), files: Vec::new() };
        assert(r@.files =~= Seq::<(Seq<char>, NodeState)>::empty());
        r
    }

    /// The archive's path.
    pub fn path(&self) -> (r: &str)
        ensures
            r@ == self@.path,
    {
        self.path.as_str()
    }

    fn index_of(&self, key: &str) -> (r: Option<usize>)
        ensures
            match r {
                Some(i) => key_index(self@.keys(), key@) == i as int && i < self.files@.len(),
                None => key_index(self@.keys(), key@) == -1,
            },
    {
        let ghost keys = self@.keys();
        let mut i: usize = 0;
        while i < self.files.len()
            invariant
                i <= self.files.len(),
                keys == self@.keys(),
                keys.len() == self.files@.len(),
                forall|j: int| 0 <= j < i ==> keys[j] != key@,
            decreases self.files.len() - i,
        {
            assert(keys[i as int] == self.files@[i as int].0@);
            if self.files[i].0 == String::from_str(key) {
                proof {
                    lemma_key_index_at(keys, key@, i as int);
                }
                return Some(i);
            }
            i = i + 1;
        }
        proof {
            lemma_key_index_at(keys, key@, -1);
        }
        None
    }

    /// Adds the entry with `header`, under its path led by `/`, in place of
    /// any entry already under that key.
    pub fn add_entry(&mut self, header: EntryHeader)
        ensures
            final(self)@.well_formed(),
            final(self)@ == old(self)@.insert(
                entry_key(header@.0),
                (NodeState {
                    archive_path: old(self)@.path,
                    entry: Some(header@),
                    buffer_size: ENTRY_BUFFER_SIZE,
                    name: header@.0,
                }),
            ),
    {
        proof {
            use_type_invariant(&*self);
        }
        let key = concat(slash(), header.pathname.as_str());
        let name = header.pathname.clone();
        let node = Node::new(self.path.clone(), Some(header), name, ENTRY_BUFFER_SIZE);
        let ghost old_state = self@;
        let ghost keys = old_state.keys();
        let ghost pair = (key@, node@);
        proof {
            lemma_key_index(keys, key@);
        }
        let found = self.index_of(key.as_str());
        let mut files: Vec<(String, Node)> = Vec::new();
        std::mem::swap(&mut files, &mut self.files);
        match found {
            Some(i) => {
                files.set(i, (key, node));
                assert(files@.map_values(|p: (String, Node)| (p.0@, p.1@)) =~= old_state.files.update(i as int, pair));
                assert(old_state.files.update(i as int, pair).map_values(|p: (Seq<char>, NodeState)| p.0)
                    =~= keys.update(i as int, pair.0));
            },
            None => {
                files.push((key, node));
                assert(files@.map_values(|p: (String, Node)| (p.0@, p.1@)) =~= old_state.files.push(pair));
                assert(old_state.files.push(pair).map_values(|p: (Seq<char>, NodeState)| p.0) =~= keys.push(pair.0));
            },
        }
        self.files = files;
    }

    /// The keys of all entries, in index order.
    pub fn list_files_in_root(&self) -> (r: Vec<String>)
        ensures
            r@.map_values(|s: String| s@) == self@.keys(),
    {
        let mut r: Vec<String> = Vec::new();
        let mut i: usize = 0;
        while i < self.files.len()
            invariant
                i <= self.files.len(),
                r@.map_values(|s: String| s@) == self@.keys().take(i as int),
            decreases self.files.len() - i,
        {
            let ghost before = r@;
            r.push(self.files[i].0.clone());
            assert(r@.map_values(|s: String| s@) =~= before.map_values(|s: String| s@).push(self@.keys()[i as int]));
            assert(self@.keys().take(i + 1) =~= self@.keys().take(i as int).push(self@.keys()[i as int]));
            i = i + 1;
        }
        assert(self@.keys().take(self.files.len() as int) =~= self@.keys());
        r
    }

    /// The node under the key `path`.
    pub fn get_node_for_path(&self, path: &str) -> (r: Option<Node>)
        ensures
            match r {
                Some(n) => self@.lookup(path@) == Some(n@),
                None => self@.lookup(path@) is None,
            },
    {
        match self.index_of(path) {
            Some(i) => {
                assert(self@.files[i as int] == (self.files@[i as int].0@, self.files@[i as int].1@));
                Some(self.files[i].1.clone())
            },
            None => None,
        }
    }

    /// Whether a listing of `directory_prefix` shows the node under `key`
    /// (see [`shown_in_directory`]).
    fn shows(key: &String, directory_prefix: &str) -> (r: bool)
        ensures
            r == shown_in_directory(key@, directory_prefix@),
    {
        let key_bytes = key.as_str().as_bytes();
        let prefix_bytes = directory_prefix.as_bytes();
        if key_bytes.len() > prefix_bytes.len() {
            return false;
        }
        let rest = remove_all(key.as_str(), directory_prefix);
        let n = rest.as_str().unicode_len();
        let relative = if has_prefix_slash(rest.as_str()) {
            rest.as_str().substring_char(1, n)
        } else {
            rest.as_str()
        };
        !has_suffix(relative, slash())
    }

    /// The nodes a listing of `directory_prefix` shows, in index order (see
    /// [`shown_in_directory`]).
    pub fn get_nodes_in_directory(&self, directory_prefix: &str) -> (r: Vec<Node>)
        ensures
            r@.map_values(|n: Node| n@) == nodes_in_directory(self@.files, directory_prefix@),
    {
        let ghost files = self@.files;
        let mut r: Vec<Node> = Vec::new();
        let mut i: usize = 0;
        while i < self.files.len()
            invariant
                i <= self.files.len(),
                files == self@.files,
                files.len() == self.files@.len(),
                r@.map_values(|n: Node| n@) == nodes_in_directory(files.take(i as int), directory_prefix@),
            decreases self.files.len() - i,
        {
            let ghost before = r@;
            let (key, node) = &self.files[i];
            assert(files[i as int] == (key@, node@));
            assert(files.take(i + 1).drop_last() =~= files.take(i as int));
            assert(files.take(i + 1).last() == files[i as int]);
            if Self::shows(key, directory_prefix) {
                r.push(node.clone());
                assert(r@.map_values(|n: Node| n@) =~= before.map_values(|n: Node| n@).push(node@));
            }
            i = i + 1;
        }
        assert(files.take(self.files.len() as int) =~= files);
        r
    }
}

fn has_prefix_slash(s: &str) -> (r: bool)
    ensures
        r == starts_with(s@, seq!['/']),
{
    crate::text::has_prefix(s, slash())
}

} // verus!

verus! {

/// Storing a node under a key and then looking the key up gives that node
/// back; every other key keeps its node; and no key occurs twice afterwards.
pub proof fn law_lookup_after_insert(s: ArchiveState, key: Seq<char>, node: NodeState, other: Seq<char>)
    requires
        s.well_formed(),
        other != key,
    ensures
        s.insert(key, node).lookup(key) == Some(node),
        s.insert(key, node).lookup(other) == s.lookup(other),
        s.insert(key, node).well_formed(),
{
    let keys = s.keys();
    let t = s.insert(key, node);
    let i = key_index(keys, key);
    lemma_key_index(keys, key);
    lemma_key_index(keys, other);
    let j = key_index(keys, other);
    if i >= 0 {
        assert(t.keys() =~= keys.update(i, key));
        lemma_key_index_at(t.keys(), key, i);
        if j >= 0 {
            lemma_key_index_at(t.keys(), other, j);
        } else {
            lemma_key_index_at(t.keys(), other, -1);
        }
    } else {
        assert(t.keys() =~= keys.push(key));
        lemma_key_index_at(t.keys(), key, keys.len() as int);
        if j >= 0 {
            lemma_key_index_at(t.keys(), other, j);
        } else {
            lemma_key_index_at(t.keys(), other, -1);
        }
    }
}

} // verus!
