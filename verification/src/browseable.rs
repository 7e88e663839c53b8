//! What can be browsed: a directory on disk or an archive.

use vstd::prelude::*;
use crate::directory::{entries_valid, entries_view, DirEntryInfo, Directory};
use crate::filesystem_node::FilesystemNode;
use crate::fs_archive::{ArchiveEntryInfo, FSArchive, FSFile};
use crate::file::File;
use crate::model::{
    child_named, last_named, lemma_listed_nodes_named, listed_files, listed_nodes,
    listed_subdirectories, ListingModel, NodeModel,
};
use crate::path::{file_name, is_valid_entry_name, path_file_name, valid_entry_name};
use crate::patterns::{check_naming_patterns, PatternError};
use crate::readable::Readable;
use crate::text::text_equal;

verus! {

/// Something that can be browsed like a directory: a directory on disk, or
/// an archive.
#[derive(Debug)]
pub enum Browseable {
    Directory(Directory),
    Archive(FSArchive),
}

impl View for Browseable {
    type V = NodeModel;

    open spec fn view(&self) -> NodeModel {
        match self {
            Browseable::Directory(d) => NodeModel::Directory(d@),
            Browseable::Archive(a) => NodeModel::Archive(a@),
        }
    }
}

impl Clone for Browseable {
    fn clone(&self) -> (r: Self)
        ensures
            r@ == self@,
    {
        match self {
            Browseable::Directory(d) => Browseable::Directory(d.clone()),
            Browseable::Archive(a) => Browseable::Archive(a.clone()),
        }
    }
}

/// What reading a directory or an archive yields.
#[derive(Debug)]
pub enum Listing {
    /// The entries of a directory.
    Directory(Vec<DirEntryInfo>),
    /// The entries of an archive.
    Archive(Vec<ArchiveEntryInfo>),
}

impl View for Listing {
    type V = ListingModel;

    open spec fn view(&self) -> ListingModel {
        match self {
            Listing::Directory(es) => ListingModel::Directory(entries_view(es@)),
            Listing::Archive(es) => ListingModel::Archive(es@.map_values(|e: ArchiveEntryInfo| e@)),
        }
    }
}

impl Listing {
    /// Whether the listing can come from reading `node` (see
    /// [`ListingModel::fits`]).
    pub fn fits(&self, node: &Browseable) -> (r: bool)
        ensures
            r == self@.fits(node@),
    {
        match (self, node) {
            (Listing::Directory(_), Browseable::Directory(_)) => true,
            (Listing::Archive(_), Browseable::Archive(_)) => true,
            _ => false,
        }
    }

    /// Whether the listing is one that reading a directory or an archive
    /// yields (see [`ListingModel::well_formed`]).
    pub fn is_well_formed(&self) -> (r: bool)
        ensures
            r == self@.well_formed(),
    {
        match self {
            Listing::Directory(es) => {
                let ghost v = entries_view(es@);
                let mut i: usize = 0;
                while i < es.len()
                    invariant
                        i <= es.len(),
                        v == entries_view(es@),
                        self@ == ListingModel::Directory(v),
                        forall|k: int| 0 <= k < i ==> valid_entry_name(#[trigger] v[k].0),
                    decreases es.len() - i,
                {
                    assert(v[i as int] == es@[i as int]@);
                    if !is_valid_entry_name(es[i].name.as_str()) {
                        assert(!valid_entry_name(v[i as int].0));
                        assert(self@ == ListingModel::Directory(v));
                        return false;
                    }
                    i = i + 1;
                }
                true
            },
            Listing::Archive(es) => {
                let ghost v = es@.map_values(|e: ArchiveEntryInfo| e@);
                let mut i: usize = 0;
                while i < es.len()
                    invariant
                        i <= es.len(),
                        v == es@.map_values(|e: ArchiveEntryInfo| e@),
                        self@ == ListingModel::Archive(v),
                        forall|k: int| 0 <= k < i ==> (#[trigger] file_name(v[k].0)) is Some,
                    decreases es.len() - i,
                {
                    assert(v[i as int] == es@[i as int]@);
                    if path_file_name(es[i].pathname.as_str()).is_none() {
                        assert(file_name(v[i as int].0) is None);
                        assert(self@ == ListingModel::Archive(v));
                        return false;
                    }
                    i = i + 1;
                }
                true
            },
        }
    }
}

/// The last node of `nodes` named `name` (see [`last_named`]).
fn last_named_browseable(nodes: &Vec<Browseable>, name: &str) -> (r: Option<Browseable>)
    requires
        forall|k: int| 0 <= k < nodes@.len() ==> (#[trigger] nodes@[k])@.has_name(),
    ensures
        match r {
            Some(b) => last_named(nodes@.map_values(|n: Browseable| n@), name@) == Some(b@),
            None => last_named(nodes@.map_values(|n: Browseable| n@), name@) is None,
        },
{
    let ghost s = nodes@.map_values(|n: Browseable| n@);
    let mut i: usize = nodes.len();
    assert(s.take(i as int) =~= s);
    while i > 0
        invariant
            i <= nodes@.len(),
            s == nodes@.map_values(|n: Browseable| n@),
            forall|k: int| 0 <= k < nodes@.len() ==> (#[trigger] nodes@[k])@.has_name(),
            last_named(s, name@) == last_named(s.take(i as int), name@),
        decreases i,
    {
        let b = &nodes[i - 1];
        assert(s.take(i as int).last() == b@);
        assert(s.take(i as int).drop_last() =~= s.take(i - 1));
        if text_equal(b.name(), name) {
            return Some(b.clone());
        }
        i = i - 1;
    }
    None
}

/// The last node of `nodes` named `name` (see [`last_named`]).
fn last_named_readable(nodes: &Vec<Readable>, name: &str) -> (r: Option<Readable>)
    requires
        forall|k: int| 0 <= k < nodes@.len() ==> (#[trigger] nodes@[k])@.has_name(),
    ensures
        match r {
            Some(b) => last_named(nodes@.map_values(|n: Readable| n@), name@) == Some(b@),
            None => last_named(nodes@.map_values(|n: Readable| n@), name@) is None,
        },
{
    let ghost s = nodes@.map_values(|n: Readable| n@);
    let mut i: usize = nodes.len();
    assert(s.take(i as int) =~= s);
    while i > 0
        invariant
            i <= nodes@.len(),
            s == nodes@.map_values(|n: Readable| n@),
            forall|k: int| 0 <= k < nodes@.len() ==> (#[trigger] nodes@[k])@.has_name(),
            last_named(s, name@) == last_named(s.take(i as int), name@),
        decreases i,
    {
        let b = &nodes[i - 1];
        assert(s.take(i as int).last() == b@);
        assert(s.take(i as int).drop_last() =~= s.take(i - 1));
        if text_equal(b.filename(), name) {
            return Some(b.clone());
        }
        i = i - 1;
    }
    None
}

impl Browseable {
    /// The name under which the directory or archive is listed.
    pub fn name(&self) -> (r: &str)
        requires
            self@.has_name() || self is Archive,
        ensures
            self@.has_name(),
            r@ == self@.name(),
    {
        match self {
            Browseable::Directory(d) => d.name(),
            Browseable::Archive(a) => a.name(),
        }
    }

    /// The size a directory or archive reports: one block.
    pub fn size(&self) -> (r: u64)
        ensures
            r == 4096,
    {
        4096
    }

    /// The files shown when reading this directory or archive yields
    /// `listing`.
    pub(crate) fn files_in(&self, listing: &Listing) -> (r: Vec<Readable>)
        requires
            listing@.fits(self@),
        ensures
            r@.map_values(|n: Readable| n@) == listed_files(self@, listing@),
    {
        match (self, listing) {
            (Browseable::Directory(d), Listing::Directory(es)) => {
                let files = d.list_files(es);
                let mut r: Vec<Readable> = Vec::new();
                let mut i: usize = 0;
                while i < files.len()
                    invariant
                        i <= files.len(),
                        r@.map_values(|n: Readable| n@) == files@.take(i as int).map_values(|f: File| NodeModel::File(f@)),
                    decreases files.len() - i,
                {
                    let ghost before = r@;
                    r.push(Readable::File(files[i].clone()));
                    assert(files@.take(i + 1).map_values(|f: File| NodeModel::File(f@))
                        =~= files@.take(i as int).map_values(|f: File| NodeModel::File(f@)).push(NodeModel::File(files@[i as int]@)));
                    assert(r@.map_values(|n: Readable| n@) =~= before.map_values(|n: Readable| n@).push(NodeModel::File(files@[i as int]@)));
                    i = i + 1;
                }
                assert(files@.take(files.len() as int) =~= files@);
                r
            },
            (Browseable::Archive(a), Listing::Archive(es)) => {
                let files = a.list_files(es);
                let mut r: Vec<Readable> = Vec::new();
                let mut i: usize = 0;
                while i < files.len()
                    invariant
                        i <= files.len(),
                        r@.map_values(|n: Readable| n@)
                            == files@.take(i as int).map_values(|f: FSFile| NodeModel::ArchiveFile(f@.0, f@.1, f@.2)),
                    decreases files.len() - i,
                {
                    let ghost before = r@;
                    let ghost f = files@[i as int];
                    r.push(Readable::ArchiveFile(files[i].clone()));
                    assert(files@.take(i + 1).map_values(|f: FSFile| NodeModel::ArchiveFile(f@.0, f@.1, f@.2))
                        =~= files@.take(i as int).map_values(|f: FSFile| NodeModel::ArchiveFile(f@.0, f@.1, f@.2)).push(
                        NodeModel::ArchiveFile(f@.0, f@.1, f@.2)));
                    assert(r@.map_values(|n: Readable| n@)
                        =~= before.map_values(|n: Readable| n@).push(NodeModel::ArchiveFile(f@.0, f@.1, f@.2)));
                    i = i + 1;
                }
                assert(files@.take(files.len() as int) =~= files@);
                r
            },
            _ => {
                assert(false);
                Vec::new()
            },
        }
    }

    /// The subdirectories shown when reading this directory or archive
    /// yields `listing`; an archive shows none.
    pub(crate) fn subdirectories_in(&self, listing: &Listing) -> (r: Vec<Browseable>)
        requires
            listing@.fits(self@),
            listing@.well_formed(),
        ensures
            r@.map_values(|n: Browseable| n@) == listed_subdirectories(self@, listing@),
    {
        match (self, listing) {
            (Browseable::Directory(d), Listing::Directory(es)) => {
                assert(listing@ == ListingModel::Directory(entries_view(es@)));
                assert forall|k: int| 0 <= k < es@.len() implies valid_entry_name(#[trigger] es@[k].name@) by {
                    assert(entries_view(es@)[k] == es@[k]@);
                    assert(valid_entry_name(entries_view(es@)[k].0));
                }
                assert(entries_valid(es@));
                d.list_subdirectories(es)
            },
            (Browseable::Archive(_), Listing::Archive(_)) => {
                let r: Vec<Browseable> = Vec::new();
                assert(r@.map_values(|n: Browseable| n@) =~= Seq::<NodeModel>::empty());
                r
            },
            _ => {
                assert(false);
                Vec::new()
            },
        }
    }

    /// The subdirectory of `name` shown when reading this yields `listing`.
    pub(crate) fn subdirectory_in(&self, listing: &Listing, name: &str) -> (r: Option<Browseable>)
        requires
            listing@.fits(self@),
            listing@.well_formed(),
        ensures
            match r {
                Some(b) => last_named(listed_subdirectories(self@, listing@), name@) == Some(b@),
                None => last_named(listed_subdirectories(self@, listing@), name@) is None,
            },
    {
        let subdirectories = self.subdirectories_in(listing);
        proof {
            lemma_listed_nodes_named(self@, listing@);
            assert forall|k: int| 0 <= k < subdirectories@.len() implies (#[trigger] subdirectories@[k])@.has_name() by {
                assert(subdirectories@.map_values(|n: Browseable| n@)[k] == subdirectories@[k]@);
            }
        }
        last_named_browseable(&subdirectories, name)
    }

    /// The child named `name` shown when reading this yields `listing` (see
    /// [`child_named`]).
    pub(crate) fn child_in(&self, listing: &Listing, name: &str) -> (r: Option<FilesystemNode>)
        requires
            listing@.fits(self@),
            listing@.well_formed(),
        ensures
            match r {
                Some(n) => child_named(self@, listing@, name@) == Some(n@),
                None => child_named(self@, listing@, name@) is None,
            },
    {
        match self.subdirectory_in(listing, name) {
            Some(d) => Some(FilesystemNode::Browseable(d)),
            None => {
                let files = self.files_in(listing);
                proof {
                    lemma_listed_nodes_named(self@, listing@);
                    assert forall|k: int| 0 <= k < files@.len() implies (#[trigger] files@[k])@.has_name() by {
                        assert(files@.map_values(|n: Readable| n@)[k] == files@[k]@);
                    }
                }
                match last_named_readable(&files, name) {
                    Some(f) => Some(FilesystemNode::Readable(f)),
                    None => None,
                }
            },
        }
    }

    /// The files shown when reading this directory or archive yields
    /// `listing`. The naming patterns are checked first; the regex crate
    /// compiles them, so the result is always `Ok`.
    pub fn list_files(&self, listing: &Listing) -> (r: Result<Vec<Readable>, PatternError>)
        requires
            listing@.fits(self@),
        ensures
            r is Ok,
            r matches Ok(fs) ==> fs@.map_values(|n: Readable| n@) == listed_files(self@, listing@),
    {
        match check_naming_patterns() {
            Ok(()) => Ok(self.files_in(listing)),
            Err(e) => Err(e),
        }
    }

    /// The subdirectories shown when reading this directory or archive
    /// yields `listing`, after the naming patterns are checked (always `Ok`).
    pub fn list_subdirectories(&self, listing: &Listing) -> (r: Result<Vec<Browseable>, PatternError>)
        requires
            listing@.fits(self@),
            listing@.well_formed(),
        ensures
            r is Ok,
            r matches Ok(ds) ==> ds@.map_values(|n: Browseable| n@) == listed_subdirectories(self@, listing@),
    {
        match check_naming_patterns() {
            Ok(()) => Ok(self.subdirectories_in(listing)),
            Err(e) => Err(e),
        }
    }

    /// Every node shown when reading this directory or archive yields
    /// `listing`: its files, then its subdirectories.
    pub fn list_nodes(&self, listing: &Listing) -> (r: Result<Vec<FilesystemNode>, PatternError>)
        requires
            listing@.fits(self@),
            listing@.well_formed(),
        ensures
            r is Ok,
            r matches Ok(ns) ==> ns@.map_values(|n: FilesystemNode| n@) == listed_nodes(self@, listing@),
    {
        if check_naming_patterns().is_err() {
            return Err(PatternError::Rejected);
        }
        let files = self.files_in(listing);
        let subdirectories = self.subdirectories_in(listing);
        let ghost fv = files@.map_values(|n: Readable| n@);
        let ghost dv = subdirectories@.map_values(|n: Browseable| n@);
        let mut r: Vec<FilesystemNode> = Vec::new();
        let mut i: usize = 0;
        while i < files.len()
            invariant
                i <= files.len(),
                fv == files@.map_values(|n: Readable| n@),
                r@.map_values(|n: FilesystemNode| n@) == fv.take(i as int),
            decreases files.len() - i,
        {
            let ghost before = r@;
            r.push(FilesystemNode::Readable(files[i].clone()));
            assert(fv.take(i + 1) =~= fv.take(i as int).push(fv[i as int]));
            assert(r@.map_values(|n: FilesystemNode| n@) =~= before.map_values(|n: FilesystemNode| n@).push(fv[i as int]));
            i = i + 1;
        }
        assert(fv.take(files.len() as int) =~= fv);
        let mut j: usize = 0;
        while j < subdirectories.len()
            invariant
                j <= subdirectories.len(),
                dv == subdirectories@.map_values(|n: Browseable| n@),
                r@.map_values(|n: FilesystemNode| n@) == fv + dv.take(j as int),
            decreases subdirectories.len() - j,
        {
            let ghost before = r@;
            r.push(FilesystemNode::Browseable(subdirectories[j].clone()));
            assert(dv.take(j + 1) =~= dv.take(j as int).push(dv[j as int]));
            assert(r@.map_values(|n: FilesystemNode| n@) =~= before.map_values(|n: FilesystemNode| n@).push(dv[j as int]));
            j = j + 1;
        }
        assert(dv.take(subdirectories.len() as int) =~= dv);
        Ok(r)
    }

    /// The subdirectory named `name` shown when reading this yields
    /// `listing`: the last one of that name.
    pub fn get_subdirectory(&self, listing: &Listing, name: &str) -> (r: Result<Option<Browseable>, PatternError>)
        requires
            listing@.fits(self@),
            listing@.well_formed(),
        ensures
            r is Ok,
            r matches Ok(Some(b)) ==> last_named(listed_subdirectories(self@, listing@), name@) == Some(b@),
            r matches Ok(None) ==> last_named(listed_subdirectories(self@, listing@), name@) is None,
    {
        match check_naming_patterns() {
            Ok(()) => Ok(self.subdirectory_in(listing, name)),
            Err(e) => Err(e),
        }
    }

    /// The file named `filename` shown when reading this yields `listing`:
    /// the last one of that name.
    pub fn get_file(&self, listing: &Listing, filename: &str) -> (r: Result<Option<Readable>, PatternError>)
        requires
            listing@.fits(self@),
            listing@.well_formed(),
        ensures
            r is Ok,
            r matches Ok(Some(f)) ==> last_named(listed_files(self@, listing@), filename@) == Some(f@),
            r matches Ok(None) ==> last_named(listed_files(self@, listing@), filename@) is None,
    {
        if check_naming_patterns().is_err() {
            return Err(PatternError::Rejected);
        }
        let files = self.files_in(listing);
        proof {
            lemma_listed_nodes_named(self@, listing@);
            assert forall|k: int| 0 <= k < files@.len() implies (#[trigger] files@[k])@.has_name() by {
                assert(files@.map_values(|n: Readable| n@)[k] == files@[k]@);
            }
        }
        Ok(last_named_readable(&files, filename))
    }
}

} // verus!
