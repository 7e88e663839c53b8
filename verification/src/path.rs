//! A model of the parts of Unix path syntax that the file system view relies
//! on: the final component of a path, its stem and extension, and joining a
//! directory with an entry name.

use vstd::prelude::*;
use vstd::string::*;

verus! {

/// Index of the last occurrence of `c` in `s`, or -1 when `c` does not occur.
pub open spec fn last_index_of(s: Seq<char>, c: char) -> int
    decreases s.len(),
{
    if s.len() == 0 {
        -1
    } else if s.last() == c {
        s.len() - 1
    } else {
        last_index_of(s.drop_last(), c)
    }
}

/// `s` with every trailing '/' removed.
pub open spec fn trim_trailing_slashes(s: Seq<char>) -> Seq<char>
    decreases s.len(),
{
    if s.len() > 0 && s.last() == '/' {
        trim_trailing_slashes(s.drop_last())
    } else {
        s
    }
}

pub proof fn lemma_last_index_of_bounds(s: Seq<char>, c: char)
    ensures
        -1 <= last_index_of(s, c) < s.len(),
        last_index_of(s, c) >= 0 ==> s[last_index_of(s, c)] == c,
        forall|k: int| last_index_of(s, c) < k < s.len() ==> s[k] != c,
    decreases s.len(),
{
    if s.len() > 0 && s.last() != c {
        lemma_last_index_of_bounds(s.drop_last(), c);
        assert forall|k: int| last_index_of(s, c) < k < s.len() implies s[k] != c by {
            if k < s.len() - 1 {
                assert(s[k] == s.drop_last()[k]);
            }
        }
    }
}

pub proof fn lemma_trim_trailing_slashes(s: Seq<char>)
    ensures
        trim_trailing_slashes(s).len() <= s.len(),
        trim_trailing_slashes(s) == s.subrange(0, trim_trailing_slashes(s).len() as int),
        trim_trailing_slashes(s).len() > 0 ==> trim_trailing_slashes(s).last() != '/',
        forall|k: int| trim_trailing_slashes(s).len() <= k < s.len() ==> s[k] == '/',
    decreases s.len(),
{
    if s.len() > 0 && s.last() == '/' {
        lemma_trim_trailing_slashes(s.drop_last());
        assert forall|k: int| trim_trailing_slashes(s).len() <= k < s.len() implies s[k] == '/' by {
            if k < s.len() - 1 {
                assert(s[k] == s.drop_last()[k]);
            }
        }
    }
}

/// The final component of a path, as `std::path::Path::file_name` defines
/// it on Unix: trailing separators and `.` components are skipped, and a
/// path with no final normal component (empty, `/`, `.`, or one that ends
/// in `..`) has none.
pub open spec fn file_name(p: Seq<char>) -> Option<Seq<char>>
    decreases p.len(),
{
    let t = trim_trailing_slashes(p);
    if t.len() == 0 {
        None
    } else {
        let i = last_index_of(t, '/');
        let seg = t.subrange(i + 1, t.len() as int);
        if seg =~= seq!['.'] {
            proof {
                lemma_trim_trailing_slashes(p);
                lemma_last_index_of_bounds(t, '/');
            }
            file_name(t.subrange(0, i + 1))
        } else if seg =~= seq!['.', '.'] {
            None
        } else {
            Some(seg)
        }
    }
}

/// The last occurrence of `c` is just before `i` when no `c` follows it.
pub proof fn lemma_last_index_of_at(s: Seq<char>, c: char, i: int)
    requires
        0 <= i <= s.len(),
        i == 0 || s[i - 1] == c,
        forall|k: int| i <= k < s.len() ==> s[k] != c,
    ensures
        last_index_of(s, c) == i - 1,
    decreases s.len(),
{
    if s.len() > 0 && s.last() != c {
        assert forall|k: int| i <= k < s.drop_last().len() implies s.drop_last()[k] != c by {
            assert(s.drop_last()[k] == s[k]);
        }
        if i == s.len() {
            assert(s.last() == c);
        }
        lemma_last_index_of_at(s.drop_last(), c, i);
    }
}

proof fn lemma_file_name_drop_slash(p: Seq<char>)
    requires
        p.len() > 0,
        p.last() == '/',
    ensures
        file_name(p) == file_name(p.drop_last()),
{
    assert(trim_trailing_slashes(p) == trim_trailing_slashes(p.drop_last()));
}

/// The final component of `path` (see [`file_name`]), borrowed from `path`.
pub fn path_file_name(path: &str) -> (r: Option<&str>)
    ensures
        r.is_some() == file_name(path@).is_some(),
        r matches Some(n) ==> n@ == file_name(path@).unwrap(),
{
    let n = path.unicode_len();
    let mut end: usize = n;
    assert(path@.subrange(0, n as int) =~= path@);
    loop
        invariant
            end <= n,
            n == path@.len(),
            file_name(path@) == file_name(path@.subrange(0, end as int)),
        decreases end,
    {
        let ghost end0 = end;
        while end > 0 && path.get_char(end - 1) == '/'
            invariant
                end <= n,
                end <= end0,
                n == path@.len(),
                file_name(path@) == file_name(path@.subrange(0, end as int)),
            decreases end,
        {
            proof {
                let x = path@.subrange(0, end as int);
                lemma_file_name_drop_slash(x);
                assert(x.drop_last() =~= path@.subrange(0, end - 1));
            }
            end = end - 1;
        }
        let ghost t = path@.subrange(0, end as int);
        if end == 0 {
            assert(trim_trailing_slashes(t).len() == 0);
            return None;
        }
        assert(trim_trailing_slashes(t) == t);
        let mut i: usize = end;
        while i > 0 && path.get_char(i - 1) != '/'
            invariant
                i <= end <= n,
                n == path@.len(),
                forall|k: int| i <= k < end ==> path@[k] != '/',
            decreases i,
        {
            i = i - 1;
        }
        proof {
            lemma_last_index_of_at(t, '/', i as int);
        }
        let ghost seg = t.subrange(i as int, end as int);
        if end - i == 1 && path.get_char(i) == '.' {
            assert(seg =~= seq!['.']);
            assert(t.subrange(0, i as int) =~= path@.subrange(0, i as int));
            end = i;
        } else if end - i == 2 && path.get_char(i) == '.' && path.get_char(i + 1) == '.' {
            assert(seg =~= seq!['.', '.']);
            return None;
        } else {
            assert(seg.len() == end - i);
            if end - i >= 1 {
                assert(seg[0] == path@[i as int]);
            }
            if end - i == 2 {
                assert(seg[1] == path@[i + 1]);
            }
            assert(!(seg =~= seq!['.']));
            assert(!(seg =~= seq!['.', '.']));
            let r = path.substring_char(i, end);
            assert(r@ =~= seg);
            return Some(r);
        }
    }
}

/// The stem of a file name: the part before its final `.`, or the whole name
/// when it has no `.` after its first character.
pub open spec fn stem_of(name: Seq<char>) -> Seq<char> {
    let d = last_index_of(name, '.');
    if d <= 0 {
        name
    } else {
        name.subrange(0, d)
    }
}

/// The extension of a file name: the part after its final `.`, when that `.`
/// is not its first character.
pub open spec fn extension_of(name: Seq<char>) -> Option<Seq<char>> {
    let d = last_index_of(name, '.');
    if d <= 0 {
        None
    } else {
        Some(name.subrange(d + 1, name.len() as int))
    }
}

/// `std::path::Path::file_stem`: the stem of the final component.
pub open spec fn file_stem(p: Seq<char>) -> Option<Seq<char>> {
    match file_name(p) {
        Some(n) => Some(stem_of(n)),
        None => None,
    }
}

/// `std::path::Path::extension`: the extension of the final component.
pub open spec fn extension(p: Seq<char>) -> Option<Seq<char>> {
    match file_name(p) {
        Some(n) => extension_of(n),
        None => None,
    }
}

/// A name that a directory listing can hold: not empty, without a separator,
/// and neither `.` nor `..`.
pub open spec fn valid_entry_name(name: Seq<char>) -> bool {
    &&& name.len() > 0
    &&& forall|k: int| 0 <= k < name.len() ==> name[k] != '/'
    &&& !(name =~= seq!['.'])
    &&& !(name =~= seq!['.', '.'])
}

/// Whether `name` is a valid entry name (see [`valid_entry_name`]).
pub fn is_valid_entry_name(name: &str) -> (r: bool)
    ensures
        r == valid_entry_name(name@),
{
    let n = name.unicode_len();
    if n == 0 {
        return false;
    }
    let mut i: usize = 0;
    while i < n
        invariant
            i <= n,
            n == name@.len(),
            forall|k: int| 0 <= k < i ==> name@[k] != '/',
        decreases n - i,
    {
        if name.get_char(i) == '/' {
            return false;
        }
        i = i + 1;
    }
    if n == 1 && name.get_char(0) == '.' {
        assert(name@ =~= seq!['.']);
        return false;
    }
    if n == 2 && name.get_char(0) == '.' && name.get_char(1) == '.' {
        assert(name@ =~= seq!['.', '.']);
        return false;
    }
    if n == 1 {
        assert(name@[0] != '.');
    }
    if n == 2 {
        assert(name@[0] != '.' || name@[1] != '.');
    }
    assert(!(name@ =~= seq!['.']));
    assert(!(name@ =~= seq!['.', '.']));
    true
}

/// `dir` joined with a relative entry name, with one separator between them
/// unless `dir` is empty or already ends in one.
pub open spec fn join_name(dir: Seq<char>, name: Seq<char>) -> Seq<char> {
    if dir.len() > 0 && dir.last() != '/' {
        dir + seq!['/'] + name
    } else {
        dir + name
    }
}

fn last_dot(name: &str) -> (r: Option<usize>)
    ensures
        match r {
            Some(d) => d as int == last_index_of(name@, '.'),
            None => last_index_of(name@, '.') == -1,
        },
{
    let n = name.unicode_len();
    let mut i: usize = n;
    while i > 0 && name.get_char(i - 1) != '.'
        invariant
            i <= n,
            n == name@.len(),
            forall|k: int| i <= k < n ==> name@[k] != '.',
        decreases i,
    {
        i = i - 1;
    }
    proof {
        lemma_last_index_of_at(name@, '.', i as int);
    }
    if i == 0 {
        None
    } else {
        Some(i - 1)
    }
}

/// The stem of a file name (see [`stem_of`]).
pub fn name_stem(name: &str) -> (r: &str)
    ensures
        r@ == stem_of(name@),
{
    proof {
        lemma_last_index_of_bounds(name@, '.');
    }
    match last_dot(name) {
        Some(d) if d > 0 => name.substring_char(0, d),
        _ => name,
    }
}

/// The extension of a file name (see [`extension_of`]).
pub fn name_extension(name: &str) -> (r: Option<&str>)
    ensures
        r.is_some() == extension_of(name@).is_some(),
        r matches Some(e) ==> e@ == extension_of(name@).unwrap(),
{
    proof {
        lemma_last_index_of_bounds(name@, '.');
    }
    let n = name.unicode_len();
    match last_dot(name) {
        Some(d) if d > 0 => Some(name.substring_char(d + 1, n)),
        _ => None,
    }
}

/// `std::path::Path::file_stem` on `path` (see [`file_stem`]).
pub fn path_file_stem(path: &str) -> (r: Option<&str>)
    ensures
        r.is_some() == file_stem(path@).is_some(),
        r matches Some(s) ==> s@ == file_stem(path@).unwrap(),
{
    match path_file_name(path) {
        Some(n) => Some(name_stem(n)),
        None => None,
    }
}

/// `std::path::Path::extension` on `path` (see [`extension`]).
pub fn path_extension(path: &str) -> (r: Option<&str>)
    ensures
        r.is_some() == extension(path@).is_some(),
        r matches Some(e) ==> e@ == extension(path@).unwrap(),
{
    match path_file_name(path) {
        Some(n) => name_extension(n),
        None => None,
    }
}

/// `dir` joined with the relative name `name` (see [`join_name`]).
pub fn join_path(dir: &str, name: &str) -> (r: String)
    ensures
        r@ == join_name(dir@, name@),
{
    let mut r = String::from_str(dir);
    let n = dir.unicode_len();
    if n > 0 && dir.get_char(n - 1) != '/' {
        proof {
            reveal_strlit("/");
        }
        r.append("/");
    }
    r.append(name);
    r
}

/// Joining a directory with a valid entry name gives a path whose final
/// component is that name.
pub proof fn lemma_file_name_of_join(dir: Seq<char>, name: Seq<char>)
    requires
        valid_entry_name(name),
    ensures
        file_name(join_name(dir, name)) == Some(name),
{
    let j = join_name(dir, name);
    let i = j.len() - name.len();
    assert(j.subrange(i, j.len() as int) =~= name);
    assert forall|k: int| i <= k < j.len() implies j[k] != '/' by {
        assert(j[k] == name[k - i]);
    }
    assert(j.last() == name.last());
    assert(trim_trailing_slashes(j) == j);
    lemma_last_index_of_at(j, '/', i);
}

} // verus!

verus! {

/// A file name with an extension is its stem, a `.` and its extension.
pub proof fn law_stem_dot_extension(name: Seq<char>)
    requires
        extension_of(name) is Some,
    ensures
        stem_of(name) + seq!['.'] + extension_of(name).unwrap() == name,
{
    let d = last_index_of(name, '.');
    lemma_last_index_of_bounds(name, '.');
    assert(stem_of(name) + seq!['.'] + extension_of(name).unwrap() =~= name);
}

/// A file name without an extension is its own stem.
pub proof fn law_stem_without_extension(name: Seq<char>)
    requires
        extension_of(name) is None,
    ensures
        stem_of(name) == name,
{
}

} // verus!
