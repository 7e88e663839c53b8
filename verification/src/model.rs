//! The mathematical model of the browsable tree: what a directory or an
//! archive lists, how a name is looked up among its children, and how a path
//! is followed from one directory to the next.

use vstd::prelude::*;
use crate::path::{extension, file_name, file_stem, join_name, lemma_file_name_of_join, stem_of, valid_entry_name};
use crate::patterns::{archive_display_name, is_rar_volume_extension};

verus! {

/// A node of the tree as a value.
pub enum NodeModel {
    /// A file on disk, by its path.
    File(Seq<char>),
    /// A file inside an archive: the archive's path, the entry's path inside
    /// the archive, and the entry's size.
    ArchiveFile(Seq<char>, Seq<char>, u64),
    /// A directory on disk, by its path.
    Directory(Seq<char>),
    /// An archive shown as a directory, by the archive's path.
    Archive(Seq<char>),
}

/// What reading a directory or an archive yields.
pub enum ListingModel {
    /// The entries of a directory: each entry's name, whether it is a
    /// directory, and whether it is a directory hidden by a marker file.
    Directory(Seq<(Seq<char>, bool, bool)>),
    /// The entries of an archive: each entry's path inside the archive and
    /// its size.
    Archive(Seq<(Seq<char>, u64)>),
}

/// The name an archive at `path` shows: the stem of its file name without a
/// trailing `.tar`.
pub open spec fn archive_name_for(path: Seq<char>) -> Seq<char> {
    archive_display_name(stem_of(file_name(path).unwrap()))
}

impl NodeModel {
    /// Whether the node is a directory or an archive.
    pub open spec fn is_browseable(self) -> bool {
        self is Directory || self is Archive
    }

    /// Whether the node has a name: its path has a final component.
    pub open spec fn has_name(self) -> bool {
        match self {
            NodeModel::File(p) => file_name(p) is Some,
            NodeModel::ArchiveFile(_, e, _) => file_name(e) is Some,
            NodeModel::Directory(p) => file_stem(p) is Some,
            NodeModel::Archive(p) => file_name(p) is Some,
        }
    }

    /// The name under which the node is listed and looked up.
    pub open spec fn name(self) -> Seq<char> {
        match self {
            NodeModel::File(p) => file_name(p).unwrap(),
            NodeModel::ArchiveFile(_, e, _) => file_name(e).unwrap(),
            NodeModel::Directory(p) => file_stem(p).unwrap(),
            NodeModel::Archive(p) => archive_name_for(p),
        }
    }
}

impl ListingModel {
    /// Whether the listing can come from reading `node`: a directory's
    /// listing for a directory, an archive's for an archive.
    pub open spec fn fits(self, node: NodeModel) -> bool {
        match (self, node) {
            (ListingModel::Directory(_), NodeModel::Directory(_)) => true,
            (ListingModel::Archive(_), NodeModel::Archive(_)) => true,
            _ => false,
        }
    }

    /// Whether the listing is one that reading a directory or an archive
    /// yields: directory entries have valid names, archive entries have paths
    /// with a final component.
    pub open spec fn well_formed(self) -> bool {
        match self {
            ListingModel::Directory(es) => entry_names_valid(es),
            ListingModel::Archive(es) => entry_paths_named(es),
        }
    }
}

/// Every directory entry has a valid name.
pub open spec fn entry_names_valid(es: Seq<(Seq<char>, bool, bool)>) -> bool {
    forall|k: int| 0 <= k < es.len() ==> valid_entry_name(#[trigger] es[k].0)
}

/// Every archive entry's path has a final component.
pub open spec fn entry_paths_named(es: Seq<(Seq<char>, u64)>) -> bool {
    forall|k: int| 0 <= k < es.len() ==> (#[trigger] file_name(es[k].0)) is Some
}

/// The extension of the path of entry `name` in directory `dir`.
pub open spec fn entry_extension(dir: Seq<char>, name: Seq<char>) -> Option<Seq<char>> {
    extension(join_name(dir, name))
}

/// Whether a directory entry is shown as a file: it is not a directory, and
/// its extension is absent or is none of a later RAR volume, `rar` and `gz`.
pub open spec fn shown_as_file(dir: Seq<char>, entry: (Seq<char>, bool, bool)) -> bool {
    !entry.1 && match entry_extension(dir, entry.0) {
        Some(x) => !is_rar_volume_extension(x) && x != seq!['r', 'a', 'r'] && x != seq!['g', 'z'],
        None => true,
    }
}

/// Whether a directory entry is shown as an archive: it is not a directory
/// and its extension is `rar`, `zip` or `gz`.
pub open spec fn shown_as_archive(dir: Seq<char>, entry: (Seq<char>, bool, bool)) -> bool {
    !entry.1 && match entry_extension(dir, entry.0) {
        Some(x) => x == seq!['r', 'a', 'r'] || x == seq!['z', 'i', 'p'] || x == seq!['g', 'z'],
        None => false,
    }
}

/// The files a directory at `dir` shows, in listing order.
pub open spec fn directory_files(dir: Seq<char>, entries: Seq<(Seq<char>, bool, bool)>) -> Seq<NodeModel>
    decreases entries.len(),
{
    if entries.len() == 0 {
        seq![]
    } else {
        let prev = directory_files(dir, entries.drop_last());
        let e = entries.last();
        if shown_as_file(dir, e) {
            prev.push(NodeModel::File(join_name(dir, e.0)))
        } else {
            prev
        }
    }
}

/// The archives a directory at `dir` shows, in listing order.
pub open spec fn directory_archives(dir: Seq<char>, entries: Seq<(Seq<char>, bool, bool)>) -> Seq<NodeModel>
    decreases entries.len(),
{
    if entries.len() == 0 {
        seq![]
    } else {
        let prev = directory_archives(dir, entries.drop_last());
        let e = entries.last();
        if shown_as_archive(dir, e) {
            prev.push(NodeModel::Archive(join_name(dir, e.0)))
        } else {
            prev
        }
    }
}

/// The directories inside a directory at `dir` that no marker file hides, in
/// listing order.
pub open spec fn directory_directories(dir: Seq<char>, entries: Seq<(Seq<char>, bool, bool)>) -> Seq<NodeModel>
    decreases entries.len(),
{
    if entries.len() == 0 {
        seq![]
    } else {
        let prev = directory_directories(dir, entries.drop_last());
        let e = entries.last();
        if e.1 && !e.2 {
            prev.push(NodeModel::Directory(join_name(dir, e.0)))
        } else {
            prev
        }
    }
}

/// The subdirectories a directory at `dir` shows: its directories, then its
/// archives.
pub open spec fn directory_subdirectories(dir: Seq<char>, entries: Seq<(Seq<char>, bool, bool)>) -> Seq<NodeModel> {
    directory_directories(dir, entries) + directory_archives(dir, entries)
}

/// The files an archive at `archive` shows: one per entry, in order.
pub open spec fn archive_files(archive: Seq<char>, entries: Seq<(Seq<char>, u64)>) -> Seq<NodeModel> {
    entries.map_values(|e: (Seq<char>, u64)| NodeModel::ArchiveFile(archive, e.0, e.1))
}

/// The files `node` shows when reading it yields `listing`.
pub open spec fn listed_files(node: NodeModel, listing: ListingModel) -> Seq<NodeModel> {
    match (node, listing) {
        (NodeModel::Directory(d), ListingModel::Directory(es)) => directory_files(d, es),
        (NodeModel::Archive(a), ListingModel::Archive(es)) => archive_files(a, es),
        _ => seq![],
    }
}

/// The subdirectories `node` shows when reading it yields `listing`; an
/// archive shows none.
pub open spec fn listed_subdirectories(node: NodeModel, listing: ListingModel) -> Seq<NodeModel> {
    match (node, listing) {
        (NodeModel::Directory(d), ListingModel::Directory(es)) => directory_subdirectories(d, es),
        _ => seq![],
    }
}

/// All the nodes `node` shows: its files, then its subdirectories.
pub open spec fn listed_nodes(node: NodeModel, listing: ListingModel) -> Seq<NodeModel> {
    listed_files(node, listing) + listed_subdirectories(node, listing)
}

/// The last node of `nodes` named `name`.
pub open spec fn last_named(nodes: Seq<NodeModel>, name: Seq<char>) -> Option<NodeModel>
    decreases nodes.len(),
{
    if nodes.len() == 0 {
        None
    } else if nodes.last().name() == name {
        Some(nodes.last())
    } else {
        last_named(nodes.drop_last(), name)
    }
}

/// The child of `node` named `name`: a subdirectory of that name if there is
/// one, else a file of that name; the later one of two with the same name.
pub open spec fn child_named(node: NodeModel, listing: ListingModel, name: Seq<char>) -> Option<NodeModel> {
    match last_named(listed_subdirectories(node, listing), name) {
        Some(d) => Some(d),
        None => last_named(listed_files(node, listing), name),
    }
}

/// The node reached from `node` by following `fragments`, when reading each
/// directory or archive `b` yields `listing_of(b)`: every fragment but the
/// last names a subdirectory, and the last names any child.
pub open spec fn resolve(node: NodeModel, fragments: Seq<Seq<char>>, listing_of: spec_fn(NodeModel) -> ListingModel) -> Option<NodeModel>
    decreases fragments.len(),
{
    if fragments.len() == 0 {
        Some(node)
    } else if fragments.len() == 1 {
        child_named(node, listing_of(node), fragments[0])
    } else {
        match last_named(listed_subdirectories(node, listing_of(node)), fragments[0]) {
            Some(d) => resolve(d, fragments.skip(1), listing_of),
            None => None,
        }
    }
}

/// The directory or archive reached from `node` by following `fragments`
/// through subdirectories.
pub open spec fn resolve_directory(node: NodeModel, fragments: Seq<Seq<char>>, listing_of: spec_fn(NodeModel) -> ListingModel) -> Option<NodeModel>
    decreases fragments.len(),
{
    if fragments.len() == 0 {
        Some(node)
    } else {
        match last_named(listed_subdirectories(node, listing_of(node)), fragments[0]) {
            Some(d) => resolve_directory(d, fragments.skip(1), listing_of),
            None => None,
        }
    }
}

proof fn lemma_directory_files_named(dir: Seq<char>, es: Seq<(Seq<char>, bool, bool)>)
    requires
        forall|k: int| 0 <= k < es.len() ==> valid_entry_name(#[trigger] es[k].0),
    ensures
        forall|k: int| 0 <= k < directory_files(dir, es).len() ==> (#[trigger] directory_files(dir, es)[k]).has_name(),
    decreases es.len(),
{
    if es.len() > 0 {
        assert forall|k: int| 0 <= k < es.drop_last().len() implies valid_entry_name(#[trigger] es.drop_last()[k].0) by {
            assert(es.drop_last()[k] == es[k]);
        }
        lemma_directory_files_named(dir, es.drop_last());
        lemma_file_name_of_join(dir, es.last().0);
        let prev = directory_files(dir, es.drop_last());
        assert forall|k: int| 0 <= k < directory_files(dir, es).len() implies (#[trigger] directory_files(dir, es)[k]).has_name() by {
            if k < prev.len() {
                assert(directory_files(dir, es)[k] == prev[k]);
            }
        }
    }
}

proof fn lemma_directory_archives_named(dir: Seq<char>, es: Seq<(Seq<char>, bool, bool)>)
    requires
        forall|k: int| 0 <= k < es.len() ==> valid_entry_name(#[trigger] es[k].0),
    ensures
        forall|k: int| 0 <= k < directory_archives(dir, es).len() ==> (#[trigger] directory_archives(dir, es)[k]).has_name(),
    decreases es.len(),
{
    if es.len() > 0 {
        assert forall|k: int| 0 <= k < es.drop_last().len() implies valid_entry_name(#[trigger] es.drop_last()[k].0) by {
            assert(es.drop_last()[k] == es[k]);
        }
        lemma_directory_archives_named(dir, es.drop_last());
        lemma_file_name_of_join(dir, es.last().0);
        let prev = directory_archives(dir, es.drop_last());
        assert forall|k: int| 0 <= k < directory_archives(dir, es).len() implies (#[trigger] directory_archives(dir, es)[k]).has_name() by {
            if k < prev.len() {
                assert(directory_archives(dir, es)[k] == prev[k]);
            }
        }
    }
}

proof fn lemma_directory_directories_named(dir: Seq<char>, es: Seq<(Seq<char>, bool, bool)>)
    requires
        forall|k: int| 0 <= k < es.len() ==> valid_entry_name(#[trigger] es[k].0),
    ensures
        forall|k: int| 0 <= k < directory_directories(dir, es).len() ==> (#[trigger] directory_directories(dir, es)[k]).has_name(),
    decreases es.len(),
{
    if es.len() > 0 {
        assert forall|k: int| 0 <= k < es.drop_last().len() implies valid_entry_name(#[trigger] es.drop_last()[k].0) by {
            assert(es.drop_last()[k] == es[k]);
        }
        lemma_directory_directories_named(dir, es.drop_last());
        lemma_file_name_of_join(dir, es.last().0);
        let prev = directory_directories(dir, es.drop_last());
        assert forall|k: int| 0 <= k < directory_directories(dir, es).len() implies (#[trigger] directory_directories(dir, es)[k]).has_name() by {
            if k < prev.len() {
                assert(directory_directories(dir, es)[k] == prev[k]);
            }
        }
    }
}

/// Every node a well-formed listing shows has a name.
pub proof fn lemma_listed_nodes_named(node: NodeModel, listing: ListingModel)
    requires
        listing.well_formed(),
    ensures
        forall|k: int| 0 <= k < listed_files(node, listing).len() ==> (#[trigger] listed_files(node, listing)[k]).has_name(),
        forall|k: int| 0 <= k < listed_subdirectories(node, listing).len() ==> (#[trigger] listed_subdirectories(node, listing)[k]).has_name(),
{
    match (node, listing) {
        (NodeModel::Directory(d), ListingModel::Directory(es)) => {
            lemma_directory_files_named(d, es);
            lemma_directory_archives_named(d, es);
            lemma_directory_directories_named(d, es);
            let dirs = directory_directories(d, es);
            let arcs = directory_archives(d, es);
            assert forall|k: int| 0 <= k < listed_subdirectories(node, listing).len() implies (#[trigger] listed_subdirectories(node, listing)[k]).has_name() by {
                if k < dirs.len() {
                    assert(listed_subdirectories(node, listing)[k] == dirs[k]);
                } else {
                    assert(listed_subdirectories(node, listing)[k] == arcs[k - dirs.len()]);
                }
            }
        },
        (NodeModel::Archive(a), ListingModel::Archive(es)) => {
            assert forall|k: int| 0 <= k < listed_files(node, listing).len() implies (#[trigger] listed_files(node, listing)[k]).has_name() by {
                assert(listed_files(node, listing)[k] == NodeModel::ArchiveFile(a, es[k].0, es[k].1));
            }
        },
        _ => {},
    }
}

} // verus!

verus! {

/// The node found under a name has that name and is one of the nodes
/// searched.
pub proof fn law_found_node_is_named(nodes: Seq<NodeModel>, name: Seq<char>)
    ensures
        last_named(nodes, name) matches Some(m) ==> m.name() == name && nodes.contains(m),
    decreases nodes.len(),
{
    if nodes.len() > 0 && nodes.last().name() != name {
        law_found_node_is_named(nodes.drop_last(), name);
        if last_named(nodes, name) is Some {
            let m = last_named(nodes, name).unwrap();
            let j = choose|j: int| 0 <= j < nodes.drop_last().len() && nodes.drop_last()[j] == m;
            assert(nodes[j] == m);
        }
    } else if nodes.len() > 0 {
        assert(nodes[nodes.len() - 1] == nodes.last());
    }
}

/// A name some node has is found.
pub proof fn lemma_named_node_found(nodes: Seq<NodeModel>, k: int)
    requires
        0 <= k < nodes.len(),
    ensures
        last_named(nodes, nodes[k].name()) is Some,
    decreases nodes.len(),
{
    if nodes.last().name() != nodes[k].name() {
        assert(k < nodes.len() - 1);
        assert(nodes.drop_last()[k] == nodes[k]);
        lemma_named_node_found(nodes.drop_last(), k);
    }
}

/// Every node a directory or archive shows is found by looking up its name
/// there, and what is found has that name: what a listing shows, a lookup
/// finds.
pub proof fn law_listed_node_is_found(node: NodeModel, listing: ListingModel, k: int)
    requires
        0 <= k < listed_nodes(node, listing).len(),
    ensures
        child_named(node, listing, listed_nodes(node, listing)[k].name()) is Some,
        child_named(node, listing, listed_nodes(node, listing)[k].name()).unwrap().name()
            == listed_nodes(node, listing)[k].name(),
        listed_nodes(node, listing).contains(child_named(node, listing, listed_nodes(node, listing)[k].name()).unwrap()),
{
    let files = listed_files(node, listing);
    let dirs = listed_subdirectories(node, listing);
    let all = listed_nodes(node, listing);
    let n = all[k].name();
    law_found_node_is_named(dirs, n);
    law_found_node_is_named(files, n);
    if k >= files.len() {
        assert(all[k] == dirs[k - files.len()]);
        lemma_named_node_found(dirs, k - files.len());
    } else {
        assert(all[k] == files[k]);
        if last_named(dirs, n) is None {
            lemma_named_node_found(files, k);
        }
    }
    let m = child_named(node, listing, n).unwrap();
    if last_named(dirs, n) is Some {
        let j = choose|j: int| 0 <= j < dirs.len() && dirs[j] == m;
        assert(all[files.len() + j] == m);
    } else {
        let j = choose|j: int| 0 <= j < files.len() && files[j] == m;
        assert(all[j] == m);
    }
}

proof fn lemma_directory_directories_browseable(dir: Seq<char>, es: Seq<(Seq<char>, bool, bool)>)
    ensures
        forall|k: int| 0 <= k < directory_directories(dir, es).len() ==> (#[trigger] directory_directories(dir, es)[k]) is Directory,
    decreases es.len(),
{
    if es.len() > 0 {
        lemma_directory_directories_browseable(dir, es.drop_last());
        let prev = directory_directories(dir, es.drop_last());
        assert forall|k: int| 0 <= k < directory_directories(dir, es).len() implies (#[trigger] directory_directories(dir, es)[k]) is Directory by {
            if k < prev.len() {
                assert(directory_directories(dir, es)[k] == prev[k]);
            }
        }
    }
}

proof fn lemma_directory_archives_browseable(dir: Seq<char>, es: Seq<(Seq<char>, bool, bool)>)
    ensures
        forall|k: int| 0 <= k < directory_archives(dir, es).len() ==> (#[trigger] directory_archives(dir, es)[k]) is Archive,
    decreases es.len(),
{
    if es.len() > 0 {
        lemma_directory_archives_browseable(dir, es.drop_last());
        let prev = directory_archives(dir, es.drop_last());
        assert forall|k: int| 0 <= k < directory_archives(dir, es).len() implies (#[trigger] directory_archives(dir, es)[k]) is Archive by {
            if k < prev.len() {
                assert(directory_archives(dir, es)[k] == prev[k]);
            }
        }
    }
}

/// A subdirectory hides a file of the same name: when a directory shows a
/// subdirectory named `name`, looking `name` up there finds a directory or
/// an archive.
pub proof fn law_subdirectory_hides_file(node: NodeModel, listing: ListingModel, name: Seq<char>)
    requires
        last_named(listed_subdirectories(node, listing), name) is Some,
    ensures
        child_named(node, listing, name) matches Some(m) && m.is_browseable(),
{
    let dirs = listed_subdirectories(node, listing);
    law_found_node_is_named(dirs, name);
    let m = last_named(dirs, name).unwrap();
    let j = choose|j: int| 0 <= j < dirs.len() && dirs[j] == m;
    match (node, listing) {
        (NodeModel::Directory(d), ListingModel::Directory(es)) => {
            lemma_directory_directories_browseable(d, es);
            lemma_directory_archives_browseable(d, es);
            let ds = directory_directories(d, es);
            if j < ds.len() {
                assert(dirs[j] == ds[j]);
            } else {
                assert(dirs[j] == directory_archives(d, es)[j - ds.len()]);
            }
        },
        _ => {},
    }
}

/// A directory hidden by a marker file is not shown: when every directory
/// entry is hidden, only archives are shown as subdirectories.
pub proof fn law_hidden_directories_not_shown(dir: Seq<char>, es: Seq<(Seq<char>, bool, bool)>)
    requires
        forall|k: int| 0 <= k < es.len() && (#[trigger] es[k]).1 ==> es[k].2,
    ensures
        directory_subdirectories(dir, es) == directory_archives(dir, es),
    decreases es.len(),
{
    if es.len() > 0 {
        assert forall|k: int| 0 <= k < es.drop_last().len() && (#[trigger] es.drop_last()[k]).1 implies es.drop_last()[k].2 by {
            assert(es.drop_last()[k] == es[k]);
        }
        law_hidden_directories_not_shown(dir, es.drop_last());
        assert(es.last() == es[es.len() - 1]);
    }
    assert(directory_directories(dir, es) =~= Seq::<NodeModel>::empty());
    assert(directory_subdirectories(dir, es) =~= directory_archives(dir, es));
}

/// An archive shows no subdirectories: archives are flat.
pub proof fn law_archive_is_flat(archive: Seq<char>, listing: ListingModel)
    ensures
        listed_subdirectories(NodeModel::Archive(archive), listing).len() == 0,
{
}

/// A directory shows each entry that is not a directory as a file, as an
/// archive, or, as a later volume of a multi-part RAR archive, not at all;
/// and an entry ending in `.rar` or `.gz` only as an archive.
pub proof fn law_entry_classification(dir: Seq<char>, entry: (Seq<char>, bool, bool))
    requires
        !entry.1,
    ensures
        shown_as_file(dir, entry) || shown_as_archive(dir, entry)
            || (entry_extension(dir, entry.0) matches Some(x) && is_rar_volume_extension(x)),
        entry_extension(dir, entry.0) == Some(seq!['r', 'a', 'r']) ==> shown_as_archive(dir, entry) && !shown_as_file(dir, entry),
        entry_extension(dir, entry.0) == Some(seq!['g', 'z']) ==> shown_as_archive(dir, entry) && !shown_as_file(dir, entry),
{
}

/// Whether entry `k` of `es` is a directory that no marker file hides.
pub open spec fn unhidden_directory_at(es: Seq<(Seq<char>, bool, bool)>, k: int) -> bool {
    0 <= k < es.len() && es[k].1 && !es[k].2
}

/// Whether `n` is the node that entry `k` of `es`, below `dir`, is shown as
/// a directory.
pub open spec fn directory_node_of(dir: Seq<char>, es: Seq<(Seq<char>, bool, bool)>, k: int, n: NodeModel) -> bool {
    unhidden_directory_at(es, k) && n == NodeModel::Directory(join_name(dir, es[k].0))
}

/// Whether `n` is the node that entry `k` of `es`, below `dir`, is shown as
/// a file.
pub open spec fn file_node_of(dir: Seq<char>, es: Seq<(Seq<char>, bool, bool)>, k: int, n: NodeModel) -> bool {
    0 <= k < es.len() && shown_as_file(dir, es[k]) && n == NodeModel::File(join_name(dir, es[k].0))
}

/// Whether `n` is the node that entry `k` of `es`, below `dir`, is shown as
/// an archive.
pub open spec fn archive_node_of(dir: Seq<char>, es: Seq<(Seq<char>, bool, bool)>, k: int, n: NodeModel) -> bool {
    0 <= k < es.len() && shown_as_archive(dir, es[k]) && n == NodeModel::Archive(join_name(dir, es[k].0))
}

proof fn lemma_directories_members(dir: Seq<char>, es: Seq<(Seq<char>, bool, bool)>)
    ensures
        forall|n: NodeModel| #[trigger] directory_directories(dir, es).contains(n)
            <==> exists|k: int| #[trigger] directory_node_of(dir, es, k, n),
    decreases es.len(),
{
    if es.len() > 0 {
        let init = es.drop_last();
        lemma_directories_members(dir, init);
        let prev = directory_directories(dir, init);
        let last = es.len() - 1;
        assert(es.last() == es[last]);
        assert(directory_directories(dir, es) == if es[last].1 && !es[last].2 {
            prev.push(NodeModel::Directory(join_name(dir, es[last].0)))
        } else {
            prev
        });
        assert forall|n: NodeModel| #[trigger] directory_directories(dir, es).contains(n)
            <==> exists|k: int| #[trigger] directory_node_of(dir, es, k, n) by {
            if directory_directories(dir, es).contains(n) {
                if prev.contains(n) {
                    let k = choose|k: int| #[trigger] directory_node_of(dir, init, k, n);
                    assert(init[k] == es[k]);
                    assert(directory_node_of(dir, es, k, n));
                } else {
                    let i = choose|i: int| 0 <= i < directory_directories(dir, es).len()
                        && directory_directories(dir, es)[i] == n;
                    assert(i == prev.len());
                    assert(directory_node_of(dir, es, last, n));
                }
            }
            if exists|k: int| #[trigger] directory_node_of(dir, es, k, n) {
                let k = choose|k: int| #[trigger] directory_node_of(dir, es, k, n);
                if k < last {
                    assert(init[k] == es[k]);
                    assert(directory_node_of(dir, init, k, n));
                    assert(prev.contains(n));
                    let i = choose|i: int| 0 <= i < prev.len() && prev[i] == n;
                    assert(directory_directories(dir, es)[i] == n);
                } else {
                    assert(directory_directories(dir, es)[prev.len() as int] == n);
                }
            }
        }
    }
}

proof fn lemma_files_members(dir: Seq<char>, es: Seq<(Seq<char>, bool, bool)>)
    ensures
        forall|n: NodeModel| #[trigger] directory_files(dir, es).contains(n)
            <==> exists|k: int| #[trigger] file_node_of(dir, es, k, n),
    decreases es.len(),
{
    if es.len() > 0 {
        let init = es.drop_last();
        lemma_files_members(dir, init);
        let prev = directory_files(dir, init);
        let last = es.len() - 1;
        assert(es.last() == es[last]);
        assert(directory_files(dir, es) == if shown_as_file(dir, es[last]) {
            prev.push(NodeModel::File(join_name(dir, es[last].0)))
        } else {
            prev
        });
        assert forall|n: NodeModel| #[trigger] directory_files(dir, es).contains(n)
            <==> exists|k: int| #[trigger] file_node_of(dir, es, k, n) by {
            if directory_files(dir, es).contains(n) {
                if prev.contains(n) {
                    let k = choose|k: int| #[trigger] file_node_of(dir, init, k, n);
                    assert(init[k] == es[k]);
                    assert(file_node_of(dir, es, k, n));
                } else {
                    let i = choose|i: int| 0 <= i < directory_files(dir, es).len()
                        && directory_files(dir, es)[i] == n;
                    assert(i == prev.len());
                    assert(file_node_of(dir, es, last, n));
                }
            }
            if exists|k: int| #[trigger] file_node_of(dir, es, k, n) {
                let k = choose|k: int| #[trigger] file_node_of(dir, es, k, n);
                if k < last {
                    assert(init[k] == es[k]);
                    assert(file_node_of(dir, init, k, n));
                    assert(prev.contains(n));
                    let i = choose|i: int| 0 <= i < prev.len() && prev[i] == n;
                    assert(directory_files(dir, es)[i] == n);
                } else {
                    assert(directory_files(dir, es)[prev.len() as int] == n);
                }
            }
        }
    }
}

proof fn lemma_archives_members(dir: Seq<char>, es: Seq<(Seq<char>, bool, bool)>)
    ensures
        forall|n: NodeModel| #[trigger] directory_archives(dir, es).contains(n)
            <==> exists|k: int| #[trigger] archive_node_of(dir, es, k, n),
    decreases es.len(),
{
    if es.len() > 0 {
        let init = es.drop_last();
        lemma_archives_members(dir, init);
        let prev = directory_archives(dir, init);
        let last = es.len() - 1;
        assert(es.last() == es[last]);
        assert(directory_archives(dir, es) == if shown_as_archive(dir, es[last]) {
            prev.push(NodeModel::Archive(join_name(dir, es[last].0)))
        } else {
            prev
        });
        assert forall|n: NodeModel| #[trigger] directory_archives(dir, es).contains(n)
            <==> exists|k: int| #[trigger] archive_node_of(dir, es, k, n) by {
            if directory_archives(dir, es).contains(n) {
                if prev.contains(n) {
                    let k = choose|k: int| #[trigger] archive_node_of(dir, init, k, n);
                    assert(init[k] == es[k]);
                    assert(archive_node_of(dir, es, k, n));
                } else {
                    let i = choose|i: int| 0 <= i < directory_archives(dir, es).len()
                        && directory_archives(dir, es)[i] == n;
                    assert(i == prev.len());
                    assert(archive_node_of(dir, es, last, n));
                }
            }
            if exists|k: int| #[trigger] archive_node_of(dir, es, k, n) {
                let k = choose|k: int| #[trigger] archive_node_of(dir, es, k, n);
                if k < last {
                    assert(init[k] == es[k]);
                    assert(archive_node_of(dir, init, k, n));
                    assert(prev.contains(n));
                    let i = choose|i: int| 0 <= i < prev.len() && prev[i] == n;
                    assert(directory_archives(dir, es)[i] == n);
                } else {
                    assert(directory_archives(dir, es)[prev.len() as int] == n);
                }
            }
        }
    }
}

/// Every entry that is a directory and that no marker file hides is shown
/// as a subdirectory of the same path, whatever its name (dots included);
/// and every directory shown comes from such an entry.
pub proof fn law_unhidden_directories_shown(dir: Seq<char>, es: Seq<(Seq<char>, bool, bool)>)
    ensures
        forall|k: int| 0 <= k < es.len() && (#[trigger] es[k]).1 && !es[k].2
            ==> directory_subdirectories(dir, es).contains(NodeModel::Directory(join_name(dir, es[k].0))),
        forall|n: NodeModel| #[trigger] directory_directories(dir, es).contains(n)
            ==> exists|k: int| 0 <= k < es.len() && (#[trigger] es[k]).1 && !es[k].2
                && n == NodeModel::Directory(join_name(dir, es[k].0)),
{
    lemma_directories_members(dir, es);
    assert forall|k: int| 0 <= k < es.len() && (#[trigger] es[k]).1 && !es[k].2
        implies directory_subdirectories(dir, es).contains(NodeModel::Directory(join_name(dir, es[k].0))) by {
        let n = NodeModel::Directory(join_name(dir, es[k].0));
        assert(directory_node_of(dir, es, k, n));
        let ds = directory_directories(dir, es);
        assert(ds.contains(n));
        let i = choose|i: int| 0 <= i < ds.len() && ds[i] == n;
        assert(directory_subdirectories(dir, es)[i] == n);
    }
    assert forall|n: NodeModel| #[trigger] directory_directories(dir, es).contains(n)
        implies exists|k: int| 0 <= k < es.len() && (#[trigger] es[k]).1 && !es[k].2
            && n == NodeModel::Directory(join_name(dir, es[k].0)) by {
        let k = choose|k: int| #[trigger] directory_node_of(dir, es, k, n);
        assert(es[k].1);
    }
}

/// Only an entry that is not a directory and whose extension is `rar`, `zip`
/// or `gz` is shown as an archive; an entry without an extension never is.
/// Every archive a directory shows comes from such an entry.
pub proof fn law_archives_by_extension(dir: Seq<char>, es: Seq<(Seq<char>, bool, bool)>)
    ensures
        forall|e: (Seq<char>, bool, bool)| #[trigger] shown_as_archive(dir, e)
            ==> !e.1 && (entry_extension(dir, e.0) matches Some(x)
                && (x == seq!['r', 'a', 'r'] || x == seq!['z', 'i', 'p'] || x == seq!['g', 'z'])),
        forall|e: (Seq<char>, bool, bool)| entry_extension(dir, e.0) is None ==> !#[trigger] shown_as_archive(dir, e),
        forall|n: NodeModel| #[trigger] directory_archives(dir, es).contains(n)
            ==> exists|k: int| 0 <= k < es.len() && !(#[trigger] es[k]).1
                && (entry_extension(dir, es[k].0) matches Some(x)
                    && (x == seq!['r', 'a', 'r'] || x == seq!['z', 'i', 'p'] || x == seq!['g', 'z']))
                && n == NodeModel::Archive(join_name(dir, es[k].0)),
{
    lemma_archives_members(dir, es);
    assert forall|n: NodeModel| #[trigger] directory_archives(dir, es).contains(n)
        implies exists|k: int| 0 <= k < es.len() && !(#[trigger] es[k]).1
            && (entry_extension(dir, es[k].0) matches Some(x)
                && (x == seq!['r', 'a', 'r'] || x == seq!['z', 'i', 'p'] || x == seq!['g', 'z']))
            && n == NodeModel::Archive(join_name(dir, es[k].0)) by {
        let k = choose|k: int| #[trigger] archive_node_of(dir, es, k, n);
        assert(shown_as_archive(dir, es[k]));
    }
}

/// No entry that is a directory is shown as a file, whatever its name; every
/// file a directory shows comes from an entry that is not a directory.
pub proof fn law_directories_never_files(dir: Seq<char>, es: Seq<(Seq<char>, bool, bool)>)
    ensures
        forall|e: (Seq<char>, bool, bool)| e.1 ==> !#[trigger] shown_as_file(dir, e),
        forall|n: NodeModel| #[trigger] directory_files(dir, es).contains(n)
            ==> exists|k: int| 0 <= k < es.len() && !(#[trigger] es[k]).1
                && n == NodeModel::File(join_name(dir, es[k].0)),
{
    lemma_files_members(dir, es);
    assert forall|n: NodeModel| #[trigger] directory_files(dir, es).contains(n)
        implies exists|k: int| 0 <= k < es.len() && !(#[trigger] es[k]).1
            && n == NodeModel::File(join_name(dir, es[k].0)) by {
        let k = choose|k: int| #[trigger] file_node_of(dir, es, k, n);
        assert(shown_as_file(dir, es[k]));
    }
}

} // verus!
