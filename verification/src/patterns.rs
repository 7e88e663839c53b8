//! The two regular expressions that decide how directory entries are named
//! and classified, evaluated by the `regex` crate.

use vstd::prelude::*;
use vstd::string::*;
use crate::text::ends_with;

verus! {

/// `regex::Error`, the error of compiling a regular expression.
#[verifier::external_type_specification]
#[verifier::external_body]
pub struct ExRegexError(regex::Error);

/// Whether `regex::Regex::new` compiles `pattern`.
pub uninterp spec fn regex_accepts(pattern: Seq<char>) -> bool;

/// What `regex::Regex::is_match` answers for the regular expression compiled
/// from `pattern` on `haystack`.
pub uninterp spec fn regex_is_match(pattern: Seq<char>, haystack: Seq<char>) -> bool;

/// What `regex::Regex::replace_all` returns for the regular expression
/// compiled from `pattern`, on `haystack` with `replacement`.
pub uninterp spec fn regex_replace_all(
    pattern: Seq<char>,
    haystack: Seq<char>,
    replacement: Seq<char>,
) -> Seq<char>;

/// Whether `c` is an ASCII decimal digit.
pub open spec fn ascii_digit(c: char) -> bool {
    '0' <= c && c <= '9'
}

/// Whether every character of `s` is ASCII.
pub open spec fn all_ascii(s: Seq<char>) -> bool {
    forall|i: int| 0 <= i < s.len() ==> (s[i] as u32) < 128
}

/// An extension made of `r` and two ASCII digits.
pub open spec fn two_digit_volume(ext: Seq<char>) -> bool {
    ext.len() == 3 && ext[0] == 'r' && ascii_digit(ext[1]) && ascii_digit(ext[2])
}

/// What the regex crate's documentation gives of the answer `b` of
/// `^r\d{2}$` on `ext`: `^` and `$` anchor at the ends of the text and `\d`
/// is one Unicode decimal digit, so a match is three characters starting
/// with `r`; `r` and two ASCII digits match; on ASCII text nothing else does.
pub open spec fn volume_pattern_answer(ext: Seq<char>, b: bool) -> bool {
    &&& b ==> ext.len() == 3 && ext[0] == 'r'
    &&& two_digit_volume(ext) ==> b
    &&& all_ascii(ext) ==> (b == two_digit_volume(ext))
}

/// `stem` with one trailing `.tar` removed, if it has one.
pub open spec fn without_tar_suffix(stem: Seq<char>) -> Seq<char> {
    if ends_with(stem, seq!['.', 't', 'a', 'r']) {
        stem.subrange(0, stem.len() - 4)
    } else {
        stem
    }
}

/// Compiles `pattern` with `regex::Regex::new` and tests `haystack` with
/// `regex::Regex::is_match`.
///
/// Trusted: the result is `Ok` exactly when the pattern compiles, and then
/// holds the answer named [`regex_is_match`]. Both naming patterns compile
/// (their syntax is the documented one, and they are far below the default
/// size limit). Of the answer on other values only what
/// [`volume_pattern_answer`] says of the volume pattern is stated: on
/// non-ASCII text, which Unicode digits `\d` takes is left to the name.
#[verifier::external_body]
fn regex_match(pattern: &str, haystack: &str) -> (r: Result<bool, regex::Error>)
    ensures
        r is Ok <==> regex_accepts(pattern@),
        r matches Ok(b) ==> b == regex_is_match(pattern@, haystack@),
        pattern@ == tar_suffix_pattern() || pattern@ == rar_volume_pattern() ==> r is Ok,
        pattern@ == rar_volume_pattern() ==> (r matches Ok(b) ==> volume_pattern_answer(haystack@, b)),
{
    match regex::Regex::new(pattern) {
        Ok(re) => Ok(re.is_match(haystack)),
        Err(e) => Err(e),
    }
}

/// Compiles `pattern` with `regex::Regex::new` and rewrites `haystack` with
/// `regex::Regex::replace_all`.
///
/// Trusted: the result is `Ok` exactly when the pattern compiles, and then
/// holds the string named [`regex_replace_all`]. Both naming patterns
/// compile. With the `.tar` pattern and an empty replacement, which has no
/// `$` group reference, every match is deleted: the pattern matches only the
/// `.tar` that ends the text, so that one is removed. Other values are left
/// to the name.
#[verifier::external_body]
fn regex_substitute(pattern: &str, haystack: &str, replacement: &str) -> (r: Result<String, regex::Error>)
    ensures
        r is Ok <==> regex_accepts(pattern@),
        r matches Ok(s) ==> s@ == regex_replace_all(pattern@, haystack@, replacement@),
        pattern@ == tar_suffix_pattern() || pattern@ == rar_volume_pattern() ==> r is Ok,
        pattern@ == tar_suffix_pattern() && replacement@.len() == 0
            ==> (r matches Ok(s) ==> s@ == without_tar_suffix(haystack@)),
{
    match regex::Regex::new(pattern) {
        Ok(re) => Ok(re.replace_all(haystack, replacement).into_owned()),
        Err(e) => Err(e),
    }
}

/// The pattern of a trailing `.tar`, which an archive's name drops.
pub open spec fn tar_suffix_pattern() -> Seq<char> {
    seq!['(', '\\', '.', 't', 'a', 'r', '$', ')']
}

/// The pattern of the extension of a later RAR volume: `r` and two digits.
pub open spec fn rar_volume_pattern() -> Seq<char> {
    seq!['^', 'r', '\\', 'd', '{', '2', '}', '$']
}

/// Both naming patterns compile.
pub open spec fn naming_patterns_accepted() -> bool {
    regex_accepts(tar_suffix_pattern()) && regex_accepts(rar_volume_pattern())
}

/// The name an archive shows for a file stem: the stem with a trailing
/// `.tar` removed.
pub open spec fn archive_display_name(stem: Seq<char>) -> Seq<char> {
    without_tar_suffix(stem)
}

/// Whether an extension marks a later volume of a multi-part RAR archive:
/// `r` and two digits. On ASCII text the digits are `0` to `9`; on other
/// text it is the regex crate's answer.
pub open spec fn is_rar_volume_extension(ext: Seq<char>) -> bool {
    if all_ascii(ext) {
        two_digit_volume(ext)
    } else {
        regex_is_match(rar_volume_pattern(), ext)
    }
}

/// The regex crate rejected one of the naming patterns.
#[derive(Debug, Clone, Copy, PartialEq, Eq)]
pub enum PatternError {
    Rejected,
}

fn tar_suffix_literal() -> (r: &'static str)
    ensures
        r@ == tar_suffix_pattern(),
{
    proof {
        reveal_strlit("(\\.tar$)");
    }
    "(\\.tar$)"
}

fn rar_volume_literal() -> (r: &'static str)
    ensures
        r@ == rar_volume_pattern(),
{
    proof {
        reveal_strlit("^r\\d{2}$");
    }
    "^r\\d{2}$"
}

fn empty_literal() -> (r: &'static str)
    ensures
        r@ == Seq::<char>::empty(),
{
    proof {
        reveal_strlit("");
    }
    ""
}

/// Checks that the regex crate compiles both naming patterns, which it
/// does.
pub fn check_naming_patterns() -> (r: Result<(), PatternError>)
    ensures
        r is Ok,
        naming_patterns_accepted(),
{
    let empty = empty_literal();
    match (regex_match(tar_suffix_literal(), empty), regex_match(rar_volume_literal(), empty)) {
        (Ok(_), Ok(_)) => Ok(()),
        _ => Err(PatternError::Rejected),
    }
}

/// The name an archive shows for the file stem `stem` (see
/// [`archive_display_name`]).
pub fn display_name_for_stem(stem: &str) -> (r: String)
    ensures
        r@ == archive_display_name(stem@),
{
    match regex_substitute(tar_suffix_literal(), stem, empty_literal()) {
        Ok(name) => name,
        Err(_) => {
            assert(false);
            String::new()
        }
    }
}

/// Whether `ext` is the extension of a later RAR volume (see
/// [`is_rar_volume_extension`]).
pub fn rar_volume_extension(ext: &str) -> (r: bool)
    ensures
        r == is_rar_volume_extension(ext@),
{
    match regex_match(rar_volume_literal(), ext) {
        Ok(b) => b,
        Err(_) => {
            assert(false);
            false
        }
    }
}

} // verus!
