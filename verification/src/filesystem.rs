//! The file system rooted at a directory, and looking up a path in it.
//!
//! A lookup follows the path's components from the root, one directory or
//! archive at a time. Each step needs what reading the current directory or
//! archive yields; [`Walk`] holds where a lookup stands between two steps, so
//! that whoever reads the disk can hand each listing in.

use vstd::prelude::*;
use vstd::string::*;
use crate::browseable::{Browseable, Listing};
use crate::directory::Directory;
use crate::filesystem_node::FilesystemNode;
use crate::readable::Readable;
use crate::model::{child_named, last_named, listed_files, listed_subdirectories, resolve, resolve_directory, ListingModel, NodeModel};
use crate::patterns::{check_naming_patterns, PatternError};
use crate::text::text_equal;

verus! {

/// Index of the first occurrence of `c` in `s`, or `s.len()` when `c` does
/// not occur.
pub open spec fn first_index_of(s: Seq<char>, c: char) -> int
    decreases s.len(),
{
    if s.len() == 0 {
        0
    } else if s[0] == c {
        0
    } else {
        1 + first_index_of(s.skip(1), c)
    }
}

pub proof fn lemma_first_index_of_bounds(s: Seq<char>, c: char)
    ensures
        0 <= first_index_of(s, c) <= s.len(),
        first_index_of(s, c) < s.len() ==> s[first_index_of(s, c)] == c,
        forall|k: int| 0 <= k < first_index_of(s, c) ==> s[k] != c,
    decreases s.len(),
{
    if s.len() > 0 && s[0] != c {
        lemma_first_index_of_bounds(s.skip(1), c);
        assert forall|k: int| 0 <= k < first_index_of(s, c) implies s[k] != c by {
            if k > 0 {
                assert(s[k] == s.skip(1)[k - 1]);
            }
        }
    }
}

/// The first occurrence of `c` is at `j` when no `c` comes before it.
pub proof fn lemma_first_index_of_at(s: Seq<char>, c: char, j: int)
    requires
        0 <= j <= s.len(),
        j == s.len() || s[j] == c,
        forall|k: int| 0 <= k < j ==> s[k] != c,
    ensures
        first_index_of(s, c) == j,
    decreases s.len(),
{
    if s.len() > 0 && s[0] != c {
        assert forall|k: int| 0 <= k < j - 1 implies s.skip(1)[k] != c by {
            assert(s.skip(1)[k] == s[k + 1]);
        }
        lemma_first_index_of_at(s.skip(1), c, j - 1);
    }
}

/// The components of a path: the non-empty pieces between its separators,
/// in order.
pub open spec fn path_fragments(p: Seq<char>) -> Seq<Seq<char>>
    decreases p.len(),
{
    if p.len() == 0 {
        seq![]
    } else if p[0] == '/' {
        path_fragments(p.skip(1))
    } else {
        let j = first_index_of(p, '/');
        proof {
            lemma_first_index_of_bounds(p, '/');
        }
        seq![p.subrange(0, j)] + path_fragments(p.skip(j))
    }
}

/// The components of `path` (see [`path_fragments`]).
pub fn split_path(path: &str) -> (r: Vec<String>)
    ensures
        r@.map_values(|s: String| s@) == path_fragments(path@),
{
    let n = path.unicode_len();
    let mut r: Vec<String> = Vec::new();
    let mut i: usize = 0;
    assert(path@.skip(0) =~= path@);
    while i < n
        invariant
            i <= n,
            n == path@.len(),
            path_fragments(path@) == r@.map_values(|s: String| s@) + path_fragments(path@.skip(i as int)),
        decreases n - i,
    {
        let ghost rest = path@.skip(i as int);
        if path.get_char(i) == '/' {
            assert(rest.skip(1) =~= path@.skip(i + 1));
            i = i + 1;
        } else {
            let mut j: usize = i;
            while j < n && path.get_char(j) != '/'
                invariant
                    i <= j <= n,
                    n == path@.len(),
                    forall|k: int| i <= k < j ==> path@[k] != '/',
                decreases n - j,
            {
                j = j + 1;
            }
            proof {
                assert forall|k: int| 0 <= k < j - i implies rest[k] != '/' by {
                    assert(rest[k] == path@[i + k]);
                }
                if j < n {
                    assert(rest[j - i] == path@[j as int]);
                }
                lemma_first_index_of_at(rest, '/', j - i);
                assert(rest.subrange(0, j - i) =~= path@.subrange(i as int, j as int));
                assert(rest.skip(j - i) =~= path@.skip(j as int));
            }
            let ghost before = r@;
            let piece = path.substring_char(i, j);
            r.push(String::from_str(piece));
            assert(r@.map_values(|s: String| s@) =~= before.map_values(|s: String| s@).push(piece@));
            i = j;
        }
    }
    assert(path@.skip(n as int) =~= Seq::<char>::empty());
    r
}

fn root_literal() -> (r: &'static str)
    ensures
        r@ == seq!['/'],
{
    proof {
        reveal_strlit("/");
    }
    "/"
}

/// The node at `path` below `root`, when reading each directory or archive
/// `b` yields `listing_of(b)`: `/` is `root` itself, a path without
/// components leads nowhere, and any other path is followed component by
/// component (see [`resolve`]).
pub open spec fn lookup_node(root: NodeModel, path: Seq<char>, listing_of: spec_fn(NodeModel) -> ListingModel) -> Option<NodeModel> {
    if path == seq!['/'] {
        Some(root)
    } else if path_fragments(path).len() == 0 {
        None
    } else {
        resolve(root, path_fragments(path), listing_of)
    }
}

/// The directory or archive at `path` below `root`, following the path's
/// components through subdirectories (see [`resolve_directory`]).
pub open spec fn lookup_directory(root: NodeModel, path: Seq<char>, listing_of: spec_fn(NodeModel) -> ListingModel) -> Option<NodeModel> {
    resolve_directory(root, path_fragments(path), listing_of)
}

/// A lookup that has yet to read the directory or archive it has reached:
/// `current`, with the path components `remaining` still to follow.
#[derive(Debug)]
pub struct Walk {
    current: Browseable,
    remaining: Vec<String>,
}

impl View for Walk {
    /// The directory or archive reached, and the components left to follow.
    type V = (NodeModel, Seq<Seq<char>>);

    closed spec fn view(&self) -> (NodeModel, Seq<Seq<char>>) {
        (self.current@, self.remaining@.map_values(|s: String| s@))
    }
}

impl Walk {
    #[verifier::type_invariant]
    spec fn has_remaining(self) -> bool {
        self.remaining@.len() > 0
    }

    /// The directory or archive whose listing the lookup needs next.
    pub fn current(&self) -> (r: &Browseable)
        ensures
            r@ == self@.0,
            self@.1.len() > 0,
    {
        proof {
            use_type_invariant(self);
        }
        &self.current
    }
}

/// Where a lookup for a node stands: finished with its answer, or waiting
/// for a listing.
#[derive(Debug)]
pub enum NodeLookup {
    Found(Option<FilesystemNode>),
    Pending(Walk),
}

/// Where a lookup for a directory or archive stands: finished with its
/// answer, or waiting for a listing.
#[derive(Debug)]
pub enum DirectoryLookup {
    Found(Option<Browseable>),
    Pending(Walk),
}

/// Whether `r` answers with the node `m`.
pub open spec fn node_answer(r: Option<FilesystemNode>, m: Option<NodeModel>) -> bool {
    match r {
        Some(n) => m == Some(n@),
        None => m is None,
    }
}

/// Whether `r` answers with the directory or archive `m`.
pub open spec fn directory_answer(r: Option<Browseable>, m: Option<NodeModel>) -> bool {
    match r {
        Some(b) => m == Some(b@),
        None => m is None,
    }
}

impl Browseable {
    /// Starts looking up `path` below this directory or archive: `/` is this
    /// one itself, a path without components finds nothing, and any other
    /// path is followed component by component.
    pub fn get_node(&self, path: &str) -> (r: NodeLookup)
        ensures
            match r {
                NodeLookup::Found(n) => {
                    if path@ == seq!['/'] {
                        node_answer(n, Some(self@))
                    } else {
                        path_fragments(path@).len() == 0 && n is None
                    }
                },
                NodeLookup::Pending(w) => path@ != seq!['/'] && w@ == (self@, path_fragments(path@))
                    && path_fragments(path@).len() > 0,
            },
    {
        if text_equal(path, root_literal()) {
            return NodeLookup::Found(Some(FilesystemNode::Browseable(self.clone())));
        }
        let fragments = split_path(path);
        if fragments.len() == 0 {
            NodeLookup::Found(None)
        } else {
            NodeLookup::Pending(Walk { current: self.clone(), remaining: fragments })
        }
    }
}

impl Walk {
    /// Takes one step of a node lookup with `listing`, what reading the
    /// current directory or archive yields. With one component left, the
    /// answer is the child of that name; with more, the lookup moves into the
    /// subdirectory named by the first, or finds nothing when there is none.
    /// The naming patterns are checked first; the result is always `Ok`.
    pub fn next_node(self, listing: &Listing) -> (r: Result<NodeLookup, PatternError>)
        requires
            listing@.fits(self@.0),
            listing@.well_formed(),
        ensures
            r is Ok,
            r matches Ok(step) ==> {
                let (cur, rem) = self@;
                match step {
                    NodeLookup::Found(n) => if rem.len() == 1 {
                        node_answer(n, child_named(cur, listing@, rem[0]))
                    } else {
                        last_named(listed_subdirectories(cur, listing@), rem[0]) is None && n is None
                    },
                    NodeLookup::Pending(w) => {
                        &&& rem.len() > 1
                        &&& last_named(listed_subdirectories(cur, listing@), rem[0]) == Some(w@.0)
                        &&& w@.1 == rem.skip(1)
                    },
                }
            },
            r matches Ok(step) ==> forall|listing_of: spec_fn(NodeModel) -> ListingModel|
                #[trigger] listing_of(self@.0) == listing@ ==> match step {
                    NodeLookup::Found(n) => node_answer(n, resolve(self@.0, self@.1, listing_of)),
                    NodeLookup::Pending(w) => resolve(w@.0, w@.1, listing_of) == resolve(self@.0, self@.1, listing_of),
                },
    {
        proof {
            use_type_invariant(&self);
        }
        if check_naming_patterns().is_err() {
            return Err(PatternError::Rejected);
        }
        let ghost rem = self@.1;
        let Walk { current, remaining } = self;
        assert(remaining@.map_values(|s: String| s@) == rem);
        let first = remaining[0].as_str();
        if remaining.len() == 1 {
            return Ok(NodeLookup::Found(current.child_in(listing, first)));
        }
        match current.subdirectory_in(listing, first) {
            None => Ok(NodeLookup::Found(None)),
            Some(d) => {
                let mut rest: Vec<String> = Vec::new();
                let mut i: usize = 1;
                while i < remaining.len()
                    invariant
                        1 <= i <= remaining.len(),
                        rem == remaining@.map_values(|s: String| s@),
                        rest@.map_values(|s: String| s@) == rem.subrange(1, i as int),
                    decreases remaining.len() - i,
                {
                    let ghost before = rest@;
                    rest.push(remaining[i].clone());
                    assert(rest@.map_values(|s: String| s@) =~= before.map_values(|s: String| s@).push(rem[i as int]));
                    assert(rem.subrange(1, i + 1) =~= rem.subrange(1, i as int).push(rem[i as int]));
                    i = i + 1;
                }
                assert(rem.subrange(1, remaining.len() as int) =~= rem.skip(1));
                Ok(NodeLookup::Pending(Walk { current: d, remaining: rest }))
            },
        }
    }

    /// Takes one step of a directory lookup with `listing`, what reading the
    /// current directory or archive yields: the lookup moves into the
    /// subdirectory named by the first component left, and answers with it
    /// when no other component follows. The naming patterns are checked
    /// first; the result is always `Ok`.
    pub fn next_directory(self, listing: &Listing) -> (r: Result<DirectoryLookup, PatternError>)
        requires
            listing@.fits(self@.0),
            listing@.well_formed(),
        ensures
            r is Ok,
            r matches Ok(step) ==> {
                let (cur, rem) = self@;
                let found = last_named(listed_subdirectories(cur, listing@), rem[0]);
                match step {
                    DirectoryLookup::Found(d) => {
                        &&& directory_answer(d, found)
                        &&& (found is Some ==> rem.len() == 1)
                    },
                    DirectoryLookup::Pending(w) => {
                        &&& rem.len() > 1
                        &&& found == Some(w@.0)
                        &&& w@.1 == rem.skip(1)
                    },
                }
            },
            r matches Ok(step) ==> forall|listing_of: spec_fn(NodeModel) -> ListingModel|
                #[trigger] listing_of(self@.0) == listing@ ==> match step {
                    DirectoryLookup::Found(d) => directory_answer(d, resolve_directory(self@.0, self@.1, listing_of)),
                    DirectoryLookup::Pending(w) => resolve_directory(w@.0, w@.1, listing_of)
                        == resolve_directory(self@.0, self@.1, listing_of),
                },
    {
        proof {
            use_type_invariant(&self);
        }
        if check_naming_patterns().is_err() {
            return Err(PatternError::Rejected);
        }
        let ghost cur = self@.0;
        let ghost rem = self@.1;
        let Walk { current, remaining } = self;
        assert(remaining@.map_values(|s: String| s@) == rem);
        let first = remaining[0].as_str();
        match current.subdirectory_in(listing, first) {
            None => Ok(DirectoryLookup::Found(None)),
            Some(d) => {
                if remaining.len() == 1 {
                    proof {
                        assert forall|listing_of: spec_fn(NodeModel) -> ListingModel|
                            #[trigger] listing_of(cur) == listing@ implies
                            resolve_directory(cur, rem, listing_of) == Some(d@) by {
                            assert(rem.skip(1).len() == 0);
                            assert(resolve_directory(d@, rem.skip(1), listing_of) == Some(d@));
                        }
                    }
                    return Ok(DirectoryLookup::Found(Some(d)));
                }
                let mut rest: Vec<String> = Vec::new();
                let mut i: usize = 1;
                while i < remaining.len()
                    invariant
                        1 <= i <= remaining.len(),
                        rem == remaining@.map_values(|s: String| s@),
                        rest@.map_values(|s: String| s@) == rem.subrange(1, i as int),
                    decreases remaining.len() - i,
                {
                    let ghost before = rest@;
                    rest.push(remaining[i].clone());
                    assert(rest@.map_values(|s: String| s@) =~= before.map_values(|s: String| s@).push(rem[i as int]));
                    assert(rem.subrange(1, i + 1) =~= rem.subrange(1, i as int).push(rem[i as int]));
                    i = i + 1;
                }
                assert(rem.subrange(1, remaining.len() as int) =~= rem.skip(1));
                Ok(DirectoryLookup::Pending(Walk { current: d, remaining: rest }))
            },
        }
    }
}

/// The file system shown for the directory at `path`.
#[derive(Debug)]
pub struct Filesystem {
    path: String,
}

impl View for Filesystem {
    type V = Seq<char>;

    /// The path of the root directory.
    closed spec fn view(&self) -> Seq<char> {
        self.path@
    }
}

impl Filesystem {
    /// The file system shown for the directory at `path`.
    pub fn new(path: &str) -> (r: Filesystem)
        ensures
            r@ == path@,
    {
        Filesystem { path: String::from_str(path) }
    }

    /// The root directory.
    pub fn root_directory(&self) -> (r: Browseable)
        ensures
            r@ == NodeModel::Directory(self@),
    {
        Browseable::Directory(Directory::new(self.path.as_str()))
    }

    /// Starts looking up the node at `path`: `/` is the root directory, and
    /// any other path is looked up below it (see [`Browseable::get_node`]).
    pub fn get_node(&self, path: &str) -> (r: NodeLookup)
        ensures
            match r {
                NodeLookup::Found(n) => {
                    if path@ == seq!['/'] {
                        node_answer(n, Some(NodeModel::Directory(self@)))
                    } else {
                        path_fragments(path@).len() == 0 && n is None
                    }
                },
                NodeLookup::Pending(w) => path@ != seq!['/'] && w@ == (NodeModel::Directory(self@), path_fragments(path@))
                    && path_fragments(path@).len() > 0,
            },
            r matches NodeLookup::Found(n) ==> forall|listing_of: spec_fn(NodeModel) -> ListingModel|
                node_answer(n, #[trigger] lookup_node(NodeModel::Directory(self@), path@, listing_of)),
            r matches NodeLookup::Pending(w) ==> forall|listing_of: spec_fn(NodeModel) -> ListingModel|
                resolve(w@.0, w@.1, listing_of) == #[trigger] lookup_node(NodeModel::Directory(self@), path@, listing_of),
    {
        let root = self.root_directory();
        if text_equal(path, root_literal()) {
            return NodeLookup::Found(Some(FilesystemNode::Browseable(root)));
        }
        let r = root.get_node(path);
        assert(path@ != seq!['/']);
        r
    }

    /// Starts looking up the directory at `path`: a path without components,
    /// `/` among them, is the root directory, and any other path is followed
    /// from the root through subdirectories.
    pub fn get_directory(&self, path: &str) -> (r: DirectoryLookup)
        ensures
            match r {
                DirectoryLookup::Found(d) => {
                    &&& path_fragments(path@).len() == 0
                    &&& directory_answer(d, Some(NodeModel::Directory(self@)))
                },
                DirectoryLookup::Pending(w) => w@ == (NodeModel::Directory(self@), path_fragments(path@))
                    && path_fragments(path@).len() > 0,
            },
            r matches DirectoryLookup::Found(d) ==> forall|listing_of: spec_fn(NodeModel) -> ListingModel|
                directory_answer(d, #[trigger] lookup_directory(NodeModel::Directory(self@), path@, listing_of)),
            r matches DirectoryLookup::Pending(w) ==> forall|listing_of: spec_fn(NodeModel) -> ListingModel|
                resolve_directory(w@.0, w@.1, listing_of) == #[trigger] lookup_directory(NodeModel::Directory(self@), path@, listing_of),
    {
        let root = self.root_directory();
        if text_equal(path, root_literal()) {
            proof {
                reveal_with_fuel(path_fragments, 2);
                assert(path@.skip(1) =~= Seq::<char>::empty());
            }
            return DirectoryLookup::Found(Some(root));
        }
        let fragments = split_path(path);
        if fragments.len() == 0 {
            DirectoryLookup::Found(Some(root))
        } else {
            DirectoryLookup::Pending(Walk { current: root, remaining: fragments })
        }
    }

    /// The files listed for a path, from the end of its directory lookup:
    /// none when no directory was found, else the files shown in the found
    /// directory or archive when reading it yields the listing paired with
    /// it.
    pub fn list_files(found: Option<(Browseable, Listing)>) -> (r: Vec<Readable>)
        requires
            found matches Some((d, l)) ==> l@.fits(d@),
        ensures
            found is None ==> r.len() == 0,
            found matches Some((d, l)) ==> r@.map_values(|n: Readable| n@) == listed_files(d@, l@),
    {
        match found {
            None => Vec::new(),
            Some((dir, listing)) => match dir.list_files(&listing) {
                Ok(files) => files,
                Err(_) => Vec::new(),
            },
        }
    }
}

} // verus!

verus! {

/// Every component of a path is non-empty and holds no separator.
pub proof fn law_fragments_are_names(p: Seq<char>)
    ensures
        forall|k: int| 0 <= k < path_fragments(p).len() ==> (#[trigger] path_fragments(p)[k]).len() > 0,
        forall|k: int, i: int| 0 <= k < path_fragments(p).len() && 0 <= i < path_fragments(p)[k].len()
            ==> #[trigger] path_fragments(p)[k][i] != '/',
    decreases p.len(),
{
    if p.len() == 0 {
    } else if p[0] == '/' {
        law_fragments_are_names(p.skip(1));
        assert(path_fragments(p) == path_fragments(p.skip(1)));
    } else {
        let j = first_index_of(p, '/');
        lemma_first_index_of_bounds(p, '/');
        assert(j > 0);
        assert(path_fragments(p) == seq![p.subrange(0, j)] + path_fragments(p.skip(j)));
        law_fragments_are_names(p.skip(j));
        let rest = path_fragments(p.skip(j));
        assert forall|k: int| 0 <= k < path_fragments(p).len() implies (#[trigger] path_fragments(p)[k]).len() > 0 by {
            if k > 0 {
                assert(path_fragments(p)[k] == rest[k - 1]);
            }
        }
        assert forall|k: int, i: int| 0 <= k < path_fragments(p).len() && 0 <= i < path_fragments(p)[k].len()
            implies #[trigger] path_fragments(p)[k][i] != '/' by {
            if k > 0 {
                assert(path_fragments(p)[k] == rest[k - 1]);
            } else {
                assert(path_fragments(p)[0] == p.subrange(0, j));
            }
        }
    }
}

/// `s` holds no separator.
pub open spec fn separator_free(s: Seq<char>) -> bool {
    forall|i: int| 0 <= i < s.len() ==> s[i] != '/'
}

/// The only component of `/` followed by a name without separators is that
/// name.
pub proof fn lemma_fragments_of_rooted_name(name: Seq<char>)
    requires
        name.len() > 0,
        forall|i: int| 0 <= i < name.len() ==> name[i] != '/',
    ensures
        path_fragments(seq!['/'] + name) == seq![name],
{
    let p = seq!['/'] + name;
    assert(p.skip(1) =~= name);
    lemma_first_index_of_at(name, '/', name.len() as int);
    assert(name.subrange(0, name.len() as int) =~= name);
    assert(name.skip(name.len() as int) =~= Seq::<char>::empty());
    assert(path_fragments(Seq::<char>::empty()) == Seq::<Seq<char>>::empty());
    assert(path_fragments(name) =~= seq![name]);
}

/// Every node a directory or archive shows is found by looking up `/` and
/// its name below it, when that name holds no separator: what a listing of
/// the root shows, a lookup by path finds.
pub proof fn law_listed_node_found_at_its_path(root: NodeModel, listing_of: spec_fn(NodeModel) -> ListingModel, k: int)
    requires
        0 <= k < crate::model::listed_nodes(root, listing_of(root)).len(),
        crate::model::listed_nodes(root, listing_of(root))[k].name().len() > 0,
        separator_free(crate::model::listed_nodes(root, listing_of(root))[k].name()),
    ensures
        ({
            let name = crate::model::listed_nodes(root, listing_of(root))[k].name();
            &&& lookup_node(root, seq!['/'] + name, listing_of) is Some
            &&& lookup_node(root, seq!['/'] + name, listing_of).unwrap().name() == name
        }),
{
    let name = crate::model::listed_nodes(root, listing_of(root))[k].name();
    lemma_fragments_of_rooted_name(name);
    assert((seq!['/'] + name).len() > 1);
    assert(seq!['/'] + name != seq!['/']);
    crate::model::law_listed_node_is_found(root, listing_of(root), k);
    assert(seq![name][0] == name);
}

} // verus!
