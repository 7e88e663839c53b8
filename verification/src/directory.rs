//! A directory on disk, and what it shows when it is read: its files, its
//! subdirectories, and the archives it holds shown as subdirectories.

use vstd::prelude::*;
use vstd::string::*;
use crate::browseable::Browseable;
use crate::file::File;
use crate::fs_archive::FSArchive;
use crate::model::{
    directory_archives, directory_directories, directory_files, directory_subdirectories,
    shown_as_archive, shown_as_file, NodeModel,
};
use crate::path::{
    extension, file_stem, join_name, join_path, lemma_file_name_of_join, path_extension,
    path_file_stem, valid_entry_name,
};
use crate::patterns::rar_volume_extension;
use crate::text::text_equal;

verus! {

/// An entry of a directory, as reading the directory yields it: its name,
/// whether it is itself a directory, and whether it is a directory that holds
/// the marker file that hides it.
#[derive(Debug)]
pub struct DirEntryInfo {
    pub name: String,
    pub is_dir: bool,
    pub ignored: bool,
}

impl View for DirEntryInfo {
    type V = (Seq<char>, bool, bool);

    open spec fn view(&self) -> (Seq<char>, bool, bool) {
        (self.name@, self.is_dir, self.ignored)
    }
}

/// The entries of a directory listing as values.
pub open spec fn entries_view(entries: Seq<DirEntryInfo>) -> Seq<(Seq<char>, bool, bool)> {
    entries.map_values(|e: DirEntryInfo| e@)
}

/// Every entry of a directory listing has a valid name.
pub open spec fn entries_valid(entries: Seq<DirEntryInfo>) -> bool {
    forall|k: int| 0 <= k < entries.len() ==> valid_entry_name(#[trigger] entries[k].name@)
}

/// A directory on disk, known by its path.
#[derive(Debug)]
pub struct Directory {
    dirpath: String,
}

impl View for Directory {
    type V = Seq<char>;

    /// The directory's path.
    closed spec fn view(&self) -> Seq<char> {
        self.dirpath@
    }
}

impl Clone for Directory {
    fn clone(&self) -> (r: Self)
        ensures
            r@ == self@,
    {
        Directory { dirpath: self.dirpath.clone() }
    }
}

fn rar_word() -> (r: &'static str)
    ensures
        r@ == seq!['r', 'a', 'r'],
{
    proof {
        reveal_strlit("rar");
    }
    "rar"
}

fn gz_word() -> (r: &'static str)
    ensures
        r@ == seq!['g', 'z'],
{
    proof {
        reveal_strlit("gz");
    }
    "gz"
}

fn zip_word() -> (r: &'static str)
    ensures
        r@ == seq!['z', 'i', 'p'],
{
    proof {
        reveal_strlit("zip");
    }
    "zip"
}

/// The name of the marker file that hides the directory holding it.
pub open spec fn ignore_marker_name() -> Seq<char> {
    seq!['.', 'a', 'r', 'c', 'h', 'i', 'v', 'e', 'f', 's', '-', 'i', 'g', 'n', 'o', 'r', 'e']
}

fn ignore_marker_literal() -> (r: &'static str)
    ensures
        r@ == ignore_marker_name(),
{
    proof {
        reveal_strlit(".archivefs-ignore");
    }
    ".archivefs-ignore"
}

impl Directory {
    /// The path of the marker file that would hide the entry `name` of the
    /// directory, when that entry is a directory.
    pub fn ignore_marker_for(&self, name: &str) -> (r: String)
        ensures
            r@ == join_name(join_name(self@, name@), ignore_marker_name()),
    {
        let entry_path = join_path(self.dirpath.as_str(), name);
        join_path(entry_path.as_str(), ignore_marker_literal())
    }

    /// The directory at `dirpath`.
    pub fn new(dirpath: &str) -> (r: Directory)
        ensures
            r@ == dirpath@,
    {
        Directory { dirpath: String::from_str(dirpath) }
    }

    /// The directory's path.
    pub fn dirpath(&self) -> (r: &str)
        ensures
            r@ == self@,
    {
        self.dirpath.as_str()
    }

    /// The directory's name: the stem of its path's final component.
    pub fn name(&self) -> (r: &str)
        requires
            file_stem(self@) is Some,
        ensures
            r@ == file_stem(self@).unwrap(),
    {
        match path_file_stem(self.dirpath.as_str()) {
            Some(s) => s,
            None => {
                assert(false);
                self.dirpath.as_str()
            }
        }
    }

    /// Whether the directory shows `entry` as a file (see [`shown_as_file`]).
    fn shows_as_file(&self, entry: &DirEntryInfo, path: &str) -> (r: bool)
        requires
            path@ == join_name(self@, entry.name@),
        ensures
            r == shown_as_file(self@, entry@),
    {
        if entry.is_dir {
            return false;
        }
        match path_extension(path) {
            Some(ex) => {
                if rar_volume_extension(ex) {
                    false
                } else {
                    !text_equal(ex, rar_word()) && !text_equal(ex, gz_word())
                }
            },
            None => true,
        }
    }

    /// Whether the directory shows `entry` as an archive (see
    /// [`shown_as_archive`]).
    fn shows_as_archive(&self, entry: &DirEntryInfo, path: &str) -> (r: bool)
        requires
            path@ == join_name(self@, entry.name@),
        ensures
            r == shown_as_archive(self@, entry@),
    {
        if entry.is_dir {
            return false;
        }
        match path_extension(path) {
            Some(ex) => text_equal(ex, rar_word()) || text_equal(ex, zip_word()) || text_equal(ex, gz_word()),
            None => false,
        }
    }

    /// The files the directory shows when reading it yields `entries`: the
    /// entries that are not directories, except archives other than zip
    /// files and later volumes of multi-part RAR archives.
    pub fn list_files(&self, entries: &Vec<DirEntryInfo>) -> (r: Vec<File>)
        ensures
            r@.map_values(|f: File| NodeModel::File(f@)) == directory_files(self@, entries_view(entries@)),
    {
        let ghost ev = entries_view(entries@);
        let mut r: Vec<File> = Vec::new();
        let mut i: usize = 0;
        assert(ev.take(0) =~= Seq::<(Seq<char>, bool, bool)>::empty());
        while i < entries.len()
            invariant
                i <= entries.len(),
                ev == entries_view(entries@),
                r@.map_values(|f: File| NodeModel::File(f@)) == directory_files(self@, ev.take(i as int)),
            decreases entries.len() - i,
        {
            let e = &entries[i];
            let path = join_path(self.dirpath.as_str(), e.name.as_str());
            let ghost before = r@;
            assert(ev.take(i + 1).drop_last() =~= ev.take(i as int));
            assert(ev.take(i + 1).last() == e@);
            if self.shows_as_file(e, path.as_str()) {
                r.push(File::new(path.as_str()));
                assert(r@.map_values(|f: File| NodeModel::File(f@))
                    =~= before.map_values(|f: File| NodeModel::File(f@)).push(NodeModel::File(path@)));
            }
            i = i + 1;
        }
        assert(ev.take(entries.len() as int) =~= ev);
        r
    }

    /// The archives the directory shows when reading it yields `entries`:
    /// the entries that are not directories and end in `.rar`, `.zip` or
    /// `.gz`.
    pub fn list_archives(&self, entries: &Vec<DirEntryInfo>) -> (r: Vec<FSArchive>)
        requires
            entries_valid(entries@),
        ensures
            r@.map_values(|a: FSArchive| NodeModel::Archive(a@)) == directory_archives(self@, entries_view(entries@)),
    {
        let ghost ev = entries_view(entries@);
        let mut r: Vec<FSArchive> = Vec::new();
        let mut i: usize = 0;
        assert(ev.take(0) =~= Seq::<(Seq<char>, bool, bool)>::empty());
        while i < entries.len()
            invariant
                i <= entries.len(),
                ev == entries_view(entries@),
                entries_valid(entries@),
                r@.map_values(|a: FSArchive| NodeModel::Archive(a@)) == directory_archives(self@, ev.take(i as int)),
            decreases entries.len() - i,
        {
            let e = &entries[i];
            let path = join_path(self.dirpath.as_str(), e.name.as_str());
            let ghost before = r@;
            assert(ev.take(i + 1).drop_last() =~= ev.take(i as int));
            assert(ev.take(i + 1).last() == e@);
            if self.shows_as_archive(e, path.as_str()) {
                proof {
                    lemma_file_name_of_join(self@, e.name@);
                }
                r.push(FSArchive::new(path.as_str()));
                assert(r@.map_values(|a: FSArchive| NodeModel::Archive(a@))
                    =~= before.map_values(|a: FSArchive| NodeModel::Archive(a@)).push(NodeModel::Archive(path@)));
            }
            i = i + 1;
        }
        assert(ev.take(entries.len() as int) =~= ev);
        r
    }

    /// The subdirectories the directory shows when reading it yields
    /// `entries`: its directories that no marker file hides, then its
    /// archives.
    pub fn list_subdirectories(&self, entries: &Vec<DirEntryInfo>) -> (r: Vec<Browseable>)
        requires
            entries_valid(entries@),
        ensures
            r@.map_values(|b: Browseable| b@) == directory_subdirectories(self@, entries_view(entries@)),
    {
        let ghost ev = entries_view(entries@);
        let mut r: Vec<Browseable> = Vec::new();
        let mut i: usize = 0;
        assert(ev.take(0) =~= Seq::<(Seq<char>, bool, bool)>::empty());
        while i < entries.len()
            invariant
                i <= entries.len(),
                ev == entries_view(entries@),
                r@.map_values(|b: Browseable| b@) == directory_directories(self@, ev.take(i as int)),
            decreases entries.len() - i,
        {
            let e = &entries[i];
            let ghost before = r@;
            assert(ev.take(i + 1).drop_last() =~= ev.take(i as int));
            assert(ev.take(i + 1).last() == e@);
            if e.is_dir && !e.ignored {
                let path = join_path(self.dirpath.as_str(), e.name.as_str());
                r.push(Browseable::Directory(Directory::new(path.as_str())));
                assert(r@.map_values(|b: Browseable| b@)
                    =~= before.map_values(|b: Browseable| b@).push(NodeModel::Directory(path@)));
            }
            i = i + 1;
        }
        assert(ev.take(entries.len() as int) =~= ev);
        let ghost dirs = r@;
        let archives = self.list_archives(entries);
        let mut j: usize = 0;
        while j < archives.len()
            invariant
                j <= archives.len(),
                dirs.len() <= r@.len(),
                r@.map_values(|b: Browseable| b@) == directory_directories(self@, ev)
                    + archives@.take(j as int).map_values(|a: FSArchive| NodeModel::Archive(a@)),
            decreases archives.len() - j,
        {
            let ghost before = r@;
            r.push(Browseable::Archive(archives[j].clone()));
            assert(archives@.take(j + 1).map_values(|a: FSArchive| NodeModel::Archive(a@))
                =~= archives@.take(j as int).map_values(|a: FSArchive| NodeModel::Archive(a@)).push(
                NodeModel::Archive(archives@[j as int]@)));
            assert(r@.map_values(|b: Browseable| b@)
                =~= before.map_values(|b: Browseable| b@).push(NodeModel::Archive(archives@[j as int]@)));
            j = j + 1;
        }
        assert(archives@.take(archives.len() as int) =~= archives@);
        r
    }
}

} // verus!
