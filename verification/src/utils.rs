//! Archive file names: stripping an extension, recognising multi-part RAR
//! archives and listing the files that make one up.

use vstd::prelude::*;
use vstd::string::*;
use crate::text::{decimal_two_digits, ends_with, has_suffix, remove_all, remove_occurrences, two_digit_string};

verus! {

/// The extension of the first volume of a RAR archive.
pub open spec fn rar_extension() -> Seq<char> {
    seq!['.', 'r', 'a', 'r']
}

/// The path of volume `index` of the multi-part archive whose first volume
/// has `base` as its name without extension: `base`, `.r` and the index as
/// two or more decimal digits.
pub open spec fn rar_part_path(base: Seq<char>, index: nat) -> Seq<char> {
    base + seq!['.', 'r'] + decimal_two_digits(index)
}

/// The name of the archive at `path` with `.rar` removed (as
/// `filename_without_extension` does), the base of its volume names.
pub open spec fn rar_base(path: Seq<char>) -> Seq<char> {
    remove_occurrences(path, rar_extension())
}

/// `filename` with every occurrence of `extension` removed.
pub fn filename_without_extension(filename: &String, extension: &str) -> (r: String)
    ensures
        r@ == remove_occurrences(filename@, extension@),
{
    remove_all(filename.as_str(), extension)
}

/// Whether a file or directory exists at `path`.
///
/// Calls `std::path::Path::exists`. Its answer depends on the file system at
/// the moment of the call, so nothing is stated of it.
#[verifier::external_body]
pub fn does_file_exist(path: &str) -> bool {
    std::path::Path::new(path).exists()
}

fn rar_literal() -> (r: &'static str)
    ensures
        r@ == rar_extension(),
{
    proof {
        reveal_strlit(".rar");
    }
    ".rar"
}

/// The path of volume `index` of the archive whose base name is `base` (see
/// [`rar_part_path`]).
pub fn rar_part_filename(base: &str, index: u32) -> (r: String)
    ensures
        r@ == rar_part_path(base@, index as nat),
{
    let mut r = String::from_str(base);
    proof {
        reveal_strlit(".r");
    }
    r.append(".r");
    let digits = two_digit_string(index);
    r.append(digits.as_str());
    r
}

/// The volume whose presence marks `path` as the first volume of a
/// multi-part RAR archive: `None` when `path` does not end in `.rar`.
pub fn multipart_marker(path: &String) -> (r: Option<String>)
    ensures
        r.is_some() == ends_with(path@, rar_extension()),
        r matches Some(m) ==> m@ == rar_part_path(rar_base(path@), 1),
{
    let ext = rar_literal();
    if !has_suffix(path.as_str(), ext) {
        return None;
    }
    let base = filename_without_extension(path, ext);
    Some(rar_part_filename(base.as_str(), 1))
}

/// Whether `check`, asked whether the file at a path with characters `path`
/// exists, may answer `b`.
pub open spec fn answers<F: Fn(String) -> bool>(check: F, path: Seq<char>, b: bool) -> bool {
    exists|s: String| s@ == path && #[trigger] check.ensures((s,), b)
}

/// Whether `path` is the first volume of a multi-part RAR archive, with
/// `check` answering whether a file exists: the path ends in `.rar` and
/// `check` says its marker volume `.r01` exists. The answer is the one
/// `check` gave for exactly that volume.
pub fn is_multipart_with<F: Fn(String) -> bool>(path: &String, check: &F) -> (r: bool)
    requires
        forall|s: String| check.requires((s,)),
    ensures
        !ends_with(path@, rar_extension()) ==> !r,
        ends_with(path@, rar_extension()) ==> answers(*check, rar_part_path(rar_base(path@), 1), r),
{
    match multipart_marker(path) {
        None => false,
        Some(marker) => {
            let ghost asked = marker;
            let b = check(marker);
            assert(check.ensures((asked,), b));
            b
        },
    }
}

/// Whether `path` is the first volume of a multi-part RAR archive: it ends in
/// `.rar` and its volume `.r01` exists (see [`is_multipart_with`]).
pub fn is_multipart_rar_file(path: &String) -> (r: bool)
    ensures
        r ==> ends_with(path@, rar_extension()),
{
    is_multipart_with(path, &|s: String| does_file_exist(s.as_str()))
}

/// The number of volumes listed from the answers `present`, which say in
/// order whether volumes `.r00`, `.r01`, ... exist: those before the first
/// missing one.
pub open spec fn leading_present(present: Seq<bool>) -> nat
    decreases present.len(),
{
    if present.len() == 0 || !present[0] {
        0
    } else {
        1 + leading_present(present.drop_first())
    }
}

/// The files that make up the archive at `path`, given whether its marker
/// volume `.r01` exists (`marker_present`) and whether volumes `.r00`,
/// `.r01`, ... exist (`present`): `path` itself, followed, when `path` ends
/// in `.rar` and the marker exists, by the volumes up to the first missing
/// one.
pub open spec fn archive_listing(path: Seq<char>, marker_present: bool, present: Seq<bool>) -> Seq<Seq<char>> {
    if ends_with(path, rar_extension()) && marker_present {
        seq![path] + Seq::new(leading_present(present), |i: int| rar_part_path(rar_base(path), i as nat))
    } else {
        seq![path]
    }
}

/// The character sequences of `names`.
pub open spec fn names_of(names: Seq<String>) -> Seq<Seq<char>> {
    names.map_values(|s: String| s@)
}

proof fn lemma_leading_present(present: Seq<bool>, n: int)
    requires
        0 <= n <= present.len(),
        forall|j: int| 0 <= j < n ==> #[trigger] present[j],
        n == present.len() || !present[n],
    ensures
        leading_present(present) == n,
    decreases n,
{
    if n > 0 {
        let rest = present.drop_first();
        assert forall|j: int| 0 <= j < n - 1 implies #[trigger] rest[j] by {
            assert(present[j + 1]);
        }
        if n < present.len() {
            assert(rest[n - 1] == present[n]);
        }
        lemma_leading_present(rest, n - 1);
    }
}

/// The files that make up the archive at `path` (see [`archive_listing`]),
/// from the answers of the existence checks: `marker_present` for the volume
/// `.r01`, and `present[i]` for volume `i`. Volume indices are `u32`, so at
/// most `u32::MAX` answers are taken.
pub fn archive_filenames_from(path: &str, marker_present: bool, present: &Vec<bool>) -> (r: Vec<String>)
    requires
        present.len() <= u32::MAX,
    ensures
        names_of(r@) == archive_listing(path@, marker_present, present@),
{
    let first = String::from_str(path);
    let mut parts: Vec<String> = Vec::new();
    let ext = rar_literal();
    if marker_present && has_suffix(path, ext) {
        let base = filename_without_extension(&first, ext);
        parts.push(first);
        let mut i: usize = 0;
        while i < present.len() && present[i]
            invariant
                i <= present.len() <= u32::MAX,
                base@ == rar_base(path@),
                forall|j: int| 0 <= j < i ==> #[trigger] present@[j],
                parts.len() == i + 1,
                parts[0]@ == path@,
                forall|k: int| 1 <= k <= i ==> (#[trigger] parts[k])@ == rar_part_path(rar_base(path@), (k - 1) as nat),
            decreases present.len() - i,
        {
            let index: u32 = i as u32;
            let part = rar_part_filename(base.as_str(), index);
            parts.push(part);
            i = i + 1;
        }
        proof {
            lemma_leading_present(present@, i as int);
            assert(names_of(parts@) =~= archive_listing(path@, marker_present, present@));
        }
    } else {
        parts.push(first);
        proof {
            assert(names_of(parts@) =~= archive_listing(path@, marker_present, present@));
        }
    }
    parts
}

/// The volume of the archive at `path` whose existence is asked next, given
/// the answers `answers` so far for `.r00`, `.r01`, ...: the volume numbered
/// by how many answers there are. `None` when `path` does not end in `.rar`,
/// when the last answer says a volume is missing, or when `u32::MAX` answers
/// are in (volume numbers are `u32`).
pub fn next_volume_probe(path: &str, answers: &Vec<bool>) -> (r: Option<String>)
    ensures
        r is Some <==> ends_with(path@, rar_extension()) && answers.len() < u32::MAX
            && (answers.len() == 0 || answers@.last()),
        r matches Some(p) ==> p@ == rar_part_path(rar_base(path@), answers.len() as nat),
{
    let ext = rar_literal();
    if !has_suffix(path, ext) || answers.len() >= 4294967295usize {
        return None;
    }
    let n = answers.len();
    if n > 0 && !answers[n - 1] {
        return None;
    }
    let first = String::from_str(path);
    let base = filename_without_extension(&first, ext);
    let index: u32 = n as u32;
    Some(rar_part_filename(base.as_str(), index))
}

/// Whether `marker_present` and `present` are the answers `check` gave while
/// the archive at `path` was scanned: `marker_present` for the marker volume
/// `.r01` (asked when `path` ends in `.rar`), `present[i]` for volume `i`;
/// volumes are asked in order from `.r00` only when the marker exists, and
/// the scan stops at the first missing one (or after `u32::MAX` answers).
pub open spec fn scan_answers<F: Fn(String) -> bool>(
    check: F,
    path: Seq<char>,
    marker_present: bool,
    present: Seq<bool>,
) -> bool {
    &&& ends_with(path, rar_extension()) ==> answers(check, rar_part_path(rar_base(path), 1), marker_present)
    &&& forall|i: int| 0 <= i < present.len()
        ==> answers(check, rar_part_path(rar_base(path), i as nat), #[trigger] present[i])
    &&& forall|i: int| 0 <= i < present.len() - 1 ==> #[trigger] present[i]
    &&& if ends_with(path, rar_extension()) && marker_present {
        present.len() == u32::MAX || (present.len() > 0 && !present.last())
    } else {
        present.len() == 0
    }
}

/// The files that make up the archive at `path`, with `check` answering
/// whether a file exists: the listing made by [`archive_filenames_from`]
/// from the answers `check` gave to the scan (see [`scan_answers`]).
pub fn archive_filenames_with<F: Fn(String) -> bool>(path: &str, check: &F) -> (r: Vec<String>)
    requires
        forall|s: String| check.requires((s,)),
    ensures
        exists|marker_present: bool, present: Seq<bool>|
            #[trigger] scan_answers(*check, path@, marker_present, present)
                && names_of(r@) == archive_listing(path@, marker_present, present),
{
    let first = String::from_str(path);
    let marker_present = is_multipart_with(&first, check);
    let mut present: Vec<bool> = Vec::new();
    if marker_present {
        loop
            invariant
                ends_with(path@, rar_extension()),
                forall|s: String| check.requires((s,)),
                present.len() <= u32::MAX,
                forall|i: int| 0 <= i < present.len()
                    ==> answers(*check, rar_part_path(rar_base(path@), i as nat), #[trigger] present@[i]),
                forall|i: int| 0 <= i < present.len() - 1 ==> #[trigger] present@[i],
            ensures
                present.len() <= u32::MAX,
                forall|i: int| 0 <= i < present.len()
                    ==> answers(*check, rar_part_path(rar_base(path@), i as nat), #[trigger] present@[i]),
                forall|i: int| 0 <= i < present.len() - 1 ==> #[trigger] present@[i],
                present.len() == u32::MAX || (present.len() > 0 && !present@.last()),
            decreases u32::MAX - present.len(),
        {
            match next_volume_probe(path, &present) {
                None => break,
                Some(part) => {
                    let ghost asked = part;
                    let ghost before = present@;
                    let found = check(part);
                    assert(check.ensures((asked,), found));
                    present.push(found);
                    assert forall|i: int| 0 <= i < present.len()
                        implies answers(*check, rar_part_path(rar_base(path@), i as nat), #[trigger] present@[i]) by {
                        if i < before.len() {
                            assert(present@[i] == before[i]);
                        }
                    }
                    assert forall|i: int| 0 <= i < present.len() - 1 implies #[trigger] present@[i] by {
                        if i < before.len() - 1 {
                            assert(present@[i] == before[i]);
                        } else {
                            assert(before.last() == before[i]);
                        }
                    }
                },
            }
        }
    }
    let r = archive_filenames_from(path, marker_present, &present);
    assert(scan_answers(*check, path@, marker_present, present@));
    r
}

/// The files that make up the archive at `path`: `path` itself and, when it
/// is the first volume of a multi-part RAR archive, the volumes `.r00`,
/// `.r01`, ... that exist, in order, up to the first missing one.
///
/// Whether a file exists is asked of the file system; the scan and the
/// listing made from its answers are [`archive_filenames_with`]'s.
pub fn get_all_archive_filenames(path: &str) -> (r: Vec<String>)
    ensures
        r.len() >= 1,
        r[0]@ == path@,
        forall|k: int| 1 <= k < r.len() ==> (#[trigger] r[k])@ == rar_part_path(rar_base(path@), (k - 1) as nat),
        r.len() > 1 ==> ends_with(path@, rar_extension()),
        exists|marker_present: bool, present: Seq<bool>|
            names_of(r@) == #[trigger] archive_listing(path@, marker_present, present),
{
    let r = archive_filenames_with(path, &|s: String| does_file_exist(s.as_str()));
    proof {
        let (marker_present, present) = choose|marker_present: bool, present: Seq<bool>|
            names_of(r@) == archive_listing(path@, marker_present, present);
        let listing = archive_listing(path@, marker_present, present);
        assert(names_of(r@) == listing);
        assert forall|k: int| 0 <= k < r.len() implies (#[trigger] r[k])@ == listing[k] by {
            assert(names_of(r@)[k] == r[k]@);
        }
        if r.len() > 1 {
            assert(ends_with(path@, rar_extension()) && marker_present);
        }
    }
    r
}

/// The listing is fixed by the answers. Without the marker volume, or for a
/// path not ending in `.rar`, only the path is listed. With it, the path
/// comes first, then volume `k` at place `k + 1` for every `k` before the
/// first missing volume, and nothing from the first missing volume on; so
/// when `.r00` and `.r01` exist both are listed, and when every answer says
/// present, every asked volume is listed.
pub proof fn law_listing_follows_answers(path: Seq<char>, marker_present: bool, present: Seq<bool>)
    ensures
        !(ends_with(path, rar_extension()) && marker_present) ==> archive_listing(path, marker_present, present) == seq![path],
        archive_listing(path, marker_present, present)[0] == path,
        ends_with(path, rar_extension()) && marker_present ==> forall|k: int|
            0 <= k < present.len() && #[trigger] present[k] && (forall|j: int| 0 <= j <= k ==> #[trigger] present[j])
                ==> k + 1 < archive_listing(path, marker_present, present).len()
                    && archive_listing(path, marker_present, present)[k + 1] == rar_part_path(rar_base(path), k as nat),
        ends_with(path, rar_extension()) && marker_present ==> forall|k: int|
            0 <= k < present.len() && !(#[trigger] present[k]) ==> archive_listing(path, marker_present, present).len() <= k + 1,
        ends_with(path, rar_extension()) && marker_present && present.len() >= 2 && present[0] && present[1]
            ==> archive_listing(path, marker_present, present).len() >= 3,
{
    if ends_with(path, rar_extension()) && marker_present {
        assert forall|k: int|
            0 <= k < present.len() && #[trigger] present[k] && (forall|j: int| 0 <= j <= k ==> #[trigger] present[j])
                implies k + 1 < archive_listing(path, marker_present, present).len()
                    && archive_listing(path, marker_present, present)[k + 1] == rar_part_path(rar_base(path), k as nat) by {
            lemma_leading_present_bounds(present, k);
        }
        assert forall|k: int| 0 <= k < present.len() && !(#[trigger] present[k])
            implies archive_listing(path, marker_present, present).len() <= k + 1 by {
            lemma_leading_present_stops(present, k);
        }
        if present.len() >= 2 && present[0] && present[1] {
            assert(forall|j: int| 0 <= j <= 1 ==> #[trigger] present[j]);
            lemma_leading_present_bounds(present, 1);
        }
    }
}

proof fn lemma_leading_present_bounds(present: Seq<bool>, k: int)
    requires
        0 <= k < present.len(),
        forall|j: int| 0 <= j <= k ==> #[trigger] present[j],
    ensures
        leading_present(present) > k,
    decreases k,
{
    if k > 0 {
        let rest = present.drop_first();
        assert forall|j: int| 0 <= j <= k - 1 implies #[trigger] rest[j] by {
            assert(present[j + 1]);
        }
        lemma_leading_present_bounds(rest, k - 1);
    }
    assert(present[0]);
}

proof fn lemma_leading_present_stops(present: Seq<bool>, k: int)
    requires
        0 <= k < present.len(),
        !present[k],
    ensures
        leading_present(present) <= k,
    decreases k,
{
    if k > 0 && present[0] {
        let rest = present.drop_first();
        assert(rest[k - 1] == present[k]);
        lemma_leading_present_stops(rest, k - 1);
    }
}

} // verus!
