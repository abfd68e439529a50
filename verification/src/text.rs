//! Character-level helpers shared by the parsers.

use vstd::prelude::*;
use vstd::slice::slice_subrange;

verus! {

/// The character classes that the grammars of this crate are built from.
#[derive(Clone, Copy, Debug)]
pub enum Class {
    /// `0` to `9`.
    Digit,
    /// `a` to `z` and `A` to `Z`.
    Letter,
    /// A digit or a letter.
    Alnum,
    /// The space character.
    Space,
    /// Space, tab, carriage return or line feed.
    Blank,
    /// Anything but a line feed.
    Line,
    /// Anything but a line feed or a semicolon.
    Value,
    /// A line feed or a semicolon.
    Trailer,
    /// Anything but a closing square bracket.
    Label,
    /// White space, in the sense of Unicode.
    White,
    /// Anything but white space.
    Word,
}

/// Whether Unicode counts `c` for white space. The table that decides this is
/// that of the standard library.
pub uninterp spec fn unicode_whitespace(c: char) -> bool;

/// `char::is_whitespace` of the standard library. Its result is a function
/// of the character alone; the contract gives that function its name.
#[verifier::external_body]
fn is_unicode_whitespace(c: char) -> (b: bool)
    ensures
        b == unicode_whitespace(c),
{
    c.is_whitespace()
}

pub open spec fn is_digit(c: char) -> bool {
    '0' <= c <= '9'
}

pub open spec fn is_letter(c: char) -> bool {
    ('a' <= c <= 'z') || ('A' <= c <= 'Z')
}

pub open spec fn is_alnum(c: char) -> bool {
    is_digit(c) || is_letter(c)
}

/// Whether `c` belongs to the class `k`.
pub open spec fn in_class(k: Class, c: char) -> bool {
    match k {
        Class::Digit => is_digit(c),
        Class::Letter => is_letter(c),
        Class::Alnum => is_alnum(c),
        Class::Space => c == ' ',
        Class::Blank => c == ' ' || c == '\t' || c == '\r' || c == '\n',
        Class::Line => c != '\n',
        Class::Value => c != '\n' && c != ';',
        Class::Trailer => c == '\n' || c == ';',
        Class::Label => c != ']',
        Class::White => unicode_whitespace(c),
        Class::Word => !unicode_whitespace(c),
    }
}

/// Decides membership of `c` in the class `k`.
pub fn class_has(k: Class, c: char) -> (b: bool)
    ensures
        b == in_class(k, c),
{
    let n: u32 = c as u32;
    let digit = 48 <= n && n <= 57;
    let letter = (97 <= n && n <= 122) || (65 <= n && n <= 90);
    match k {
        Class::Digit => digit,
        Class::Letter => letter,
        Class::Alnum => digit || letter,
        Class::Space => c == ' ',
        Class::Blank => c == ' ' || c == '\t' || c == '\r' || c == '\n',
        Class::Line => c != '\n',
        Class::Value => c != '\n' && c != ';',
        Class::Trailer => c == '\n' || c == ';',
        Class::Label => c != ']',
        Class::White => is_unicode_whitespace(c),
        Class::Word => !is_unicode_whitespace(c),
    }
}

/// The end of the longest run of characters of class `k` that starts at
/// position `i` of `s`; `i` itself where there is none.
pub open spec fn run_end(s: Seq<char>, i: int, k: Class) -> int
    decreases s.len() - i,
{
    if 0 <= i < s.len() && in_class(k, s[i]) {
        run_end(s, i + 1, k)
    } else {
        i
    }
}

/// What `run_end` returns, without the recursion: the run `[i, j)` holds only
/// characters of the class and cannot be extended.
pub proof fn lemma_run_end(s: Seq<char>, i: int, k: Class)
    requires
        0 <= i <= s.len(),
    ensures
        i <= run_end(s, i, k) <= s.len(),
        forall|p: int| i <= p < run_end(s, i, k) ==> in_class(k, #[trigger] s[p]),
        run_end(s, i, k) < s.len() ==> !in_class(k, s[run_end(s, i, k)]),
    decreases s.len() - i,
{
    if i < s.len() && in_class(k, s[i]) {
        lemma_run_end(s, i + 1, k);
    }
}

/// Any position `j` from which the run `[i, j)` is of the class and cannot be
/// extended is the end of the run.
pub proof fn lemma_run_end_unique(s: Seq<char>, i: int, j: int, k: Class)
    requires
        0 <= i <= j <= s.len(),
        forall|p: int| i <= p < j ==> in_class(k, #[trigger] s[p]),
        j < s.len() ==> !in_class(k, s[j]),
    ensures
        run_end(s, i, k) == j,
    decreases j - i,
{
    if i < j {
        lemma_run_end_unique(s, i + 1, j, k);
    }
}

/// Scans the longest run of class `k` from position `i`.
pub fn scan(s: &[char], i: usize, k: Class) -> (j: usize)
    requires
        i <= s@.len(),
    ensures
        j == run_end(s@, i as int, k),
        i <= j <= s@.len(),
{
    let mut j: usize = i;
    while j < s.len() && class_has(k, s[j])
        invariant
            i <= j <= s@.len(),
            forall|p: int| i <= p < j ==> in_class(k, #[trigger] s@[p]),
        decreases s@.len() - j,
    {
        j = j + 1;
    }
    proof {
        lemma_run_end_unique(s@, i as int, j as int, k);
    }
    j
}

/// Collects the characters of `s` into a vector, so that the parsers can
/// index them in constant time.
pub fn chars_of(s: &str) -> (v: Vec<char>)
    ensures
        v@ == s@,
{
    let mut v: Vec<char> = Vec::new();
    for c in it: s.chars()
        invariant
            it.seq() == s@,
            v@ == s@.take(it.index()),
    {
        v.push(c);
    }
    v
}

/// The number that the decimal digit `c` stands for.
pub open spec fn digit_value(c: char) -> nat {
    (c as u32 - '0' as u32) as nat
}

/// The number that the decimal digits `s` spell, leading zeros allowed.
pub open spec fn decimal(s: Seq<char>) -> nat
    decreases s.len(),
{
    if s.len() == 0 {
        0
    } else {
        decimal(s.drop_last()) * 10 + digit_value(s.last())
    }
}

pub open spec fn all_digits(s: Seq<char>) -> bool {
    forall|p: int| 0 <= p < s.len() ==> is_digit(#[trigger] s[p])
}

/// The unsigned 64-bit number that `s` spells: `s` is a non-empty run of
/// decimal digits whose value fits.
pub open spec fn decimal_u64(s: Seq<char>) -> Option<u64> {
    if s.len() > 0 && all_digits(s) && decimal(s) <= u64::MAX {
        Some(decimal(s) as u64)
    } else {
        None
    }
}

/// A longer digit string spells a number that is at least as large as the one
/// its prefix spells.
pub proof fn lemma_decimal_prefix(s: Seq<char>, n: int)
    requires
        0 <= n <= s.len(),
    ensures
        decimal(s.take(n)) <= decimal(s),
    decreases s.len() - n,
{
    if n < s.len() {
        lemma_decimal_prefix(s, n + 1);
        assert(s.take(n + 1).drop_last() =~= s.take(n));
    } else {
        assert(s.take(n) =~= s);
    }
}

/// Reads `s` as an unsigned 64-bit decimal number.
pub fn parse_u64(s: &[char]) -> (r: Option<u64>)
    ensures
        r == decimal_u64(s@),
{
    if s.len() == 0 {
        return None;
    }
    let mut acc: u64 = 0;
    let mut i: usize = 0;
    while i < s.len()
        invariant
            i <= s@.len(),
            all_digits(s@.take(i as int)),
            acc == decimal(s@.take(i as int)),
        decreases s@.len() - i,
    {
        let c = s[i];
        if !class_has(Class::Digit, c) {
            proof {
                assert(!is_digit(s@[i as int]));
            }
            return None;
        }
        let d: u64 = (c as u32 - 48) as u64;
        proof {
            assert(s@.take(i + 1).drop_last() =~= s@.take(i as int));
            assert(s@.take(i + 1).last() == c);
            assert(decimal(s@.take(i + 1)) == acc * 10 + d);
            lemma_decimal_prefix(s@, i + 1);
        }
        if acc > (u64::MAX - d) / 10 {
            return None;
        }
        acc = acc * 10 + d;
        i = i + 1;
    }
    proof {
        assert(s@.take(i as int) =~= s@);
    }
    Some(acc)
}

/// The position of the last `c` in `s`, if there is one.
pub open spec fn last_index_of(s: Seq<char>, c: char) -> Option<int>
    decreases s.len(),
{
    if s.len() == 0 {
        None
    } else if s.last() == c {
        Some(s.len() - 1)
    } else {
        last_index_of(s.drop_last(), c)
    }
}

/// Finds the last `c` in `s`.
pub fn find_last(s: &[char], c: char) -> (r: Option<usize>)
    ensures
        match r {
            Some(p) => last_index_of(s@, c) == Some(p as int) && p < s@.len() && s@[p as int] == c,
            None => last_index_of(s@, c) is None,
        },
{
    let mut i: usize = s.len();
    proof {
        assert(s@.take(i as int) =~= s@);
    }
    while i > 0
        invariant
            i <= s@.len(),
            last_index_of(s@, c) == last_index_of(s@.take(i as int), c),
        decreases i,
    {
        if s[i - 1] == c {
            return Some(i - 1);
        }
        proof {
            assert(s@.take(i as int).drop_last() =~= s@.take(i - 1));
        }
        i = i - 1;
    }
    None
}

/// Whether two texts are the same.
pub fn same_text(a: &[char], b: &[char]) -> (r: bool)
    ensures
        r == (a@ == b@),
{
    if a.len() != b.len() {
        return false;
    }
    let mut i: usize = 0;
    while i < a.len()
        invariant
            a@.len() == b@.len(),
            i <= a@.len(),
            a@.take(i as int) == b@.take(i as int),
        decreases a@.len() - i,
    {
        if a[i] != b[i] {
            return false;
        }
        proof {
            assert(a@.take(i + 1) =~= a@.take(i as int).push(a@[i as int]));
            assert(b@.take(i + 1) =~= b@.take(i as int).push(b@[i as int]));
        }
        i = i + 1;
    }
    proof {
        assert(a@.take(i as int) =~= a@);
        assert(b@.take(i as int) =~= b@);
    }
    true
}

/// The length of `s` without the white space at its end, but at least `a`.
pub open spec fn trimmed_end(s: Seq<char>, a: int) -> int
    decreases s.len(),
{
    if s.len() > a && s.len() > 0 && unicode_whitespace(s.last()) {
        trimmed_end(s.drop_last(), a)
    } else {
        s.len() as int
    }
}

/// `s` without the white space at its start and at its end.
pub open spec fn trimmed(s: Seq<char>) -> Seq<char> {
    let a = run_end(s, 0, Class::White);
    s.subrange(a, trimmed_end(s, a))
}

/// The place of `trimmed(s)` in `s`.
pub fn trim_bounds(s: &[char]) -> (r: (usize, usize))
    ensures
        r.0 == run_end(s@, 0, Class::White),
        r.1 == trimmed_end(s@, r.0 as int),
        r.0 <= r.1 <= s@.len(),
{
    let a = scan(s, 0, Class::White);
    let mut e: usize = s.len();
    proof {
        assert(s@.take(e as int) =~= s@);
    }
    while e > a && class_has(Class::White, s[e - 1])
        invariant
            a <= e <= s@.len(),
            trimmed_end(s@, a as int) == trimmed_end(s@.take(e as int), a as int),
        decreases e,
    {
        proof {
            assert(s@.take(e as int).drop_last() =~= s@.take(e - 1));
        }
        e = e - 1;
    }
    (a, e)
}

/// The words of `s` from position `p` on: its longest runs of characters
/// that are no white space.
pub open spec fn words(s: Seq<char>, p: int) -> Seq<Seq<char>>
    decreases s.len() - p,
    via words_decreases
{
    let a = run_end(s, p, Class::White);
    if 0 <= p <= a < s.len() {
        let e = run_end(s, a, Class::Word);
        seq![s.subrange(a, e)] + words(s, e)
    } else {
        Seq::empty()
    }
}

#[via_fn]
proof fn words_decreases(s: Seq<char>, p: int) {
    let a = run_end(s, p, Class::White);
    if 0 <= p <= a < s.len() {
        lemma_run_end(s, a, Class::White);
        lemma_run_end(s, a + 1, Class::Word);
    }
}

/// `pat` stands at position `i` of `s`.
pub open spec fn stands_at(s: Seq<char>, i: int, pat: Seq<char>) -> bool {
    0 <= i && i + pat.len() <= s.len() && s.subrange(i, i + pat.len()) == pat
}

/// `s` from position `i` on, with `to` in the place of every `pat`, read
/// from the left: what stands behind a `pat` is read behind it.
pub open spec fn replaced_from(s: Seq<char>, i: int, pat: Seq<char>, to: Seq<char>) -> Seq<char>
    decreases s.len() - i,
{
    if i < 0 || i >= s.len() || pat.len() == 0 {
        Seq::empty()
    } else if stands_at(s, i, pat) {
        to + replaced_from(s, i + pat.len(), pat, to)
    } else {
        seq![s[i]] + replaced_from(s, i + 1, pat, to)
    }
}

/// `s` with `to` in the place of every `pat`, for a `pat` that is not empty.
pub open spec fn replaced(s: Seq<char>, pat: Seq<char>, to: Seq<char>) -> Seq<char> {
    replaced_from(s, 0, pat, to)
}

/// Whether `pat` stands at position `i` of `s`.
pub fn matches_at(s: &[char], i: usize, pat: &[char]) -> (r: bool)
    requires
        i <= s@.len(),
    ensures
        r == stands_at(s@, i as int, pat@),
{
    if pat.len() > s.len() - i {
        return false;
    }
    same_text(slice_subrange(s, i, i + pat.len()), pat)
}

/// The views of a list of string slices.
pub open spec fn strs_view(v: Seq<&str>) -> Seq<Seq<char>> {
    v.map_values(|x: &str| x@)
}

/// The views of a list of strings.
pub open spec fn strings_view(v: Seq<String>) -> Seq<Seq<char>> {
    v.map_values(|x: String| x@)
}

} // verus!
