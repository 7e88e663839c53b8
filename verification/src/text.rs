//! Character-sequence operations on strings: removing every occurrence of a
//! pattern, suffix tests, and zero-padded decimal numerals.

use vstd::prelude::*;
use vstd::string::*;

verus! {

/// Whether `pat` occurs in `s` starting at index `i`.
pub open spec fn occurs_at(s: Seq<char>, pat: Seq<char>, i: int) -> bool {
    0 <= i && i + pat.len() <= s.len() && s.subrange(i, i + pat.len()) =~= pat
}

/// Whether `pat` occurs anywhere in `s`.
pub open spec fn occurs_in(s: Seq<char>, pat: Seq<char>) -> bool {
    exists|i: int| occurs_at(s, pat, i)
}

/// `s` with every occurrence of `pat` removed, scanning from the left and
/// taking matches that do not overlap, as `str::replace(pat, "")` does. An
/// empty pattern leaves `s` unchanged.
pub open spec fn remove_occurrences(s: Seq<char>, pat: Seq<char>) -> Seq<char>
    decreases s.len(),
{
    if pat.len() == 0 || s.len() < pat.len() {
        s
    } else if s.subrange(0, pat.len() as int) =~= pat {
        remove_occurrences(s.skip(pat.len() as int), pat)
    } else {
        seq![s[0]] + remove_occurrences(s.skip(1), pat)
    }
}

/// Whether `s` ends with `suffix`.
pub open spec fn ends_with(s: Seq<char>, suffix: Seq<char>) -> bool {
    suffix.len() <= s.len() && s.subrange(s.len() - suffix.len(), s.len() as int) =~= suffix
}

/// The character of a decimal digit.
pub open spec fn digit_char(d: nat) -> char {
    if d == 0 { '0' }
    else if d == 1 { '1' }
    else if d == 2 { '2' }
    else if d == 3 { '3' }
    else if d == 4 { '4' }
    else if d == 5 { '5' }
    else if d == 6 { '6' }
    else if d == 7 { '7' }
    else if d == 8 { '8' }
    else { '9' }
}

/// The decimal numeral of `n`, without leading zeros.
pub open spec fn decimal(n: nat) -> Seq<char>
    decreases n,
{
    if n < 10 {
        seq![digit_char(n)]
    } else {
        decimal(n / 10) + seq![digit_char(n % 10)]
    }
}

/// The decimal numeral of `n` padded with zeros to at least two digits, as
/// the format `{:02}` writes it.
pub open spec fn decimal_two_digits(n: nat) -> Seq<char> {
    if n < 10 {
        seq!['0', digit_char(n)]
    } else {
        decimal(n)
    }
}

/// Whether `pat` occurs in `s` at index `i` (see [`occurs_at`]).
fn matches_at(s: &str, n: usize, pat: &str, m: usize, i: usize) -> (r: bool)
    requires
        n == s@.len(),
        m == pat@.len(),
        i + m <= n,
    ensures
        r == occurs_at(s@, pat@, i as int),
{
    let mut k: usize = 0;
    while k < m
        invariant
            k <= m,
            n == s@.len(),
            m == pat@.len(),
            i + m <= n,
            forall|j: int| 0 <= j < k ==> s@[i + j] == pat@[j],
        decreases m - k,
    {
        if s.get_char(i + k) != pat.get_char(k) {
            assert(s@.subrange(i as int, i + m)[k as int] == s@[i + k]);
            return false;
        }
        k = k + 1;
    }
    assert(s@.subrange(i as int, i + m) =~= pat@);
    true
}

/// Removing occurrences from a sequence that has no room for the pattern
/// leaves it unchanged.
proof fn lemma_remove_short(s: Seq<char>, pat: Seq<char>)
    requires
        s.len() < pat.len(),
    ensures
        remove_occurrences(s, pat) == s,
{
}

/// `s` with every occurrence of `pat` removed (see [`remove_occurrences`]).
pub fn remove_all(s: &str, pat: &str) -> (r: String)
    ensures
        r@ == remove_occurrences(s@, pat@),
{
    let n = s.unicode_len();
    let m = pat.unicode_len();
    if m == 0 {
        return String::from_str(s);
    }
    let mut r = String::new();
    let mut seg: usize = 0;
    let mut i: usize = 0;
    assert(s@.skip(0) =~= s@);
    while i <= n && m <= n - i
        invariant
            seg <= i <= n,
            n == s@.len(),
            m == pat@.len(),
            m > 0,
            remove_occurrences(s@, pat@) == r@ + s@.subrange(seg as int, i as int)
                + remove_occurrences(s@.skip(i as int), pat@),
        decreases n - i,
    {
        let ghost rest = s@.skip(i as int);
        assert(rest.subrange(0, m as int) =~= s@.subrange(i as int, i + m));
        if matches_at(s, n, pat, m, i) {
            r.append(s.substring_char(seg, i));
            assert(rest.skip(m as int) =~= s@.skip(i + m));
            assert(s@.subrange(i + m, i + m) =~= Seq::<char>::empty());
            i = i + m;
            seg = i;
        } else {
            assert(rest.skip(1) =~= s@.skip(i + 1));
            assert(s@.subrange(seg as int, i + 1) =~= s@.subrange(seg as int, i as int) + seq![rest[0]]);
            i = i + 1;
        }
    }
    proof {
        assert(s@.skip(i as int).len() < m);
        lemma_remove_short(s@.skip(i as int), pat@);
        assert(s@.subrange(seg as int, i as int) + s@.skip(i as int) =~= s@.subrange(seg as int, n as int));
    }
    r.append(s.substring_char(seg, n));
    r
}

/// Whether `s` ends with `suffix` (see [`ends_with`]).
pub fn has_suffix(s: &str, suffix: &str) -> (r: bool)
    ensures
        r == ends_with(s@, suffix@),
{
    let n = s.unicode_len();
    let m = suffix.unicode_len();
    if m > n {
        return false;
    }
    let r = matches_at(s, n, suffix, m, n - m);
    r
}

fn digit_str(d: u32) -> (r: &'static str)
    requires
        d < 10,
    ensures
        r@ == seq![digit_char(d as nat)],
{
    proof {
        reveal_strlit("0");
        reveal_strlit("1");
        reveal_strlit("2");
        reveal_strlit("3");
        reveal_strlit("4");
        reveal_strlit("5");
        reveal_strlit("6");
        reveal_strlit("7");
        reveal_strlit("8");
        reveal_strlit("9");
    }
    if d == 0 { "0" }
    else if d == 1 { "1" }
    else if d == 2 { "2" }
    else if d == 3 { "3" }
    else if d == 4 { "4" }
    else if d == 5 { "5" }
    else if d == 6 { "6" }
    else if d == 7 { "7" }
    else if d == 8 { "8" }
    else { "9" }
}

/// The decimal numeral of `n` (see [`decimal`]).
pub fn decimal_string(n: u32) -> (r: String)
    ensures
        r@ == decimal(n as nat),
    decreases n,
{
    if n < 10 {
        String::from_str(digit_str(n))
    } else {
        let mut r = decimal_string(n / 10);
        r.append(digit_str(n % 10));
        r
    }
}

/// The decimal numeral of `n` padded to two digits (see [`decimal_two_digits`]).
pub fn two_digit_string(n: u32) -> (r: String)
    ensures
        r@ == decimal_two_digits(n as nat),
{
    if n < 10 {
        let mut r = String::from_str(digit_str(0));
        r.append(digit_str(n));
        r
    } else {
        decimal_string(n)
    }
}

} // verus!

verus! {

/// Whether `a` and `b` hold the same characters.
pub fn text_equal(a: &str, b: &str) -> (r: bool)
    ensures
        r == (a@ == b@),
{
    let n = a.unicode_len();
    let m = b.unicode_len();
    if n != m {
        return false;
    }
    let r = matches_at(a, n, b, m, 0);
    assert(a@.subrange(0, n as int) =~= a@);
    r
}

} // verus!

verus! {

/// Whether `s` starts with `prefix`.
pub open spec fn starts_with(s: Seq<char>, prefix: Seq<char>) -> bool {
    prefix.len() <= s.len() && s.subrange(0, prefix.len() as int) =~= prefix
}

/// Whether `s` starts with `prefix` (see [`starts_with`]).
pub fn has_prefix(s: &str, prefix: &str) -> (r: bool)
    ensures
        r == starts_with(s@, prefix@),
{
    let n = s.unicode_len();
    let m = prefix.unicode_len();
    if m > n {
        return false;
    }
    matches_at(s, n, prefix, m, 0)
}

/// `a` followed by `b`.
pub fn concat(a: &str, b: &str) -> (r: String)
    ensures
        r@ == a@ + b@,
{
    let mut r = String::from_str(a);
    r.append(b);
    r
}

} // verus!

verus! {

/// Removing a pattern that does not occur leaves the text unchanged.
pub proof fn law_remove_absent(s: Seq<char>, pat: Seq<char>)
    requires
        !occurs_in(s, pat),
    ensures
        remove_occurrences(s, pat) == s,
    decreases s.len(),
{
    if pat.len() == 0 || s.len() < pat.len() {
    } else {
        assert(!occurs_at(s, pat, 0));
        assert(!(s.subrange(0, pat.len() as int) =~= pat));
        assert forall|i: int| !occurs_at(s.skip(1), pat, i) by {
            if occurs_at(s.skip(1), pat, i) {
                assert(s.subrange(i + 1, i + 1 + pat.len()) =~= s.skip(1).subrange(i, i + pat.len()));
                assert(occurs_at(s, pat, i + 1));
            }
        }
        law_remove_absent(s.skip(1), pat);
        assert(seq![s[0]] + s.skip(1) =~= s);
    }
}

/// Appending a pattern whose first character does not recur in it to a text
/// in which it does not occur, and then removing every occurrence of it,
/// gives back the text: `filename_without_extension(base + ".rar", ".rar")`
/// is `base` when `base` holds no `.rar`.
pub proof fn law_remove_appended(base: Seq<char>, pat: Seq<char>)
    requires
        pat.len() > 0,
        forall|k: int| 1 <= k < pat.len() ==> #[trigger] pat[k] != pat[0],
        !occurs_in(base, pat),
    ensures
        remove_occurrences(base + pat, pat) == base,
    decreases base.len(),
{
    let s = base + pat;
    if base.len() == 0 {
        assert(s =~= pat);
        assert(s.subrange(0, pat.len() as int) =~= pat);
        assert(s.skip(pat.len() as int) =~= Seq::<char>::empty());
        assert(remove_occurrences(Seq::<char>::empty(), pat) == Seq::<char>::empty());
        assert(remove_occurrences(s, pat) == remove_occurrences(s.skip(pat.len() as int), pat));
    } else {
        if base.len() >= pat.len() {
            assert(s.subrange(0, pat.len() as int) =~= base.subrange(0, pat.len() as int));
            assert(!occurs_at(base, pat, 0));
        } else {
            if s.subrange(0, pat.len() as int) =~= pat {
                assert(s[base.len() as int] == pat[0]);
                assert(s.subrange(0, pat.len() as int)[base.len() as int] == pat[base.len() as int]);
            }
        }
        assert(!(s.subrange(0, pat.len() as int) =~= pat));
        let b1 = base.skip(1);
        assert forall|i: int| !occurs_at(b1, pat, i) by {
            if occurs_at(b1, pat, i) {
                assert(base.subrange(i + 1, i + 1 + pat.len()) =~= b1.subrange(i, i + pat.len()));
                assert(occurs_at(base, pat, i + 1));
            }
        }
        law_remove_appended(b1, pat);
        assert(s.skip(1) =~= b1 + pat);
        assert(remove_occurrences(s, pat) == seq![s[0]] + remove_occurrences(s.skip(1), pat));
        assert(s[0] == base[0]);
        assert(seq![s[0]] + b1 =~= base);
    }
}

} // verus!
