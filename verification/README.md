# archivefs

A directory tree in which archives (RAR, zip and gzip files) show as
directories holding their entries, for mounting with FUSE.

- `src/` is the library, verified with Verus. It decides what the tree
  shows: which entries of a directory are files, archives or subdirectories
  (`directory.rs`, `fs_archive.rs`), what each is named (`path.rs`,
  `patterns.rs`), how a path is looked up one directory at a time
  (`filesystem.rs`), what the file system callbacks answer (`callbacks.rs`),
  and which files make up a multi-part RAR archive (`utils.rs`). `model.rs`
  holds the mathematical model that the contracts are stated in, and the
  laws proved of it. `archive.rs`, `node.rs` and `directory_archive.rs` index
  the entries of RAR archives by path.
- `app/` reads the disk and archives (through libarchive) for the library and
  exposes the callbacks that the C side of the file system calls.
- `tests/` runs the library on concrete directory and archive listings.
