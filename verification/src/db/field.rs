//! The values of a descriptor's fields: lists, numbers, digests and tags.

use crate::text::{
    chars_of, decimal_u64, parse_u64, run_end, same_text, scan, strs_view, Class,
};
use base64::prelude::{Engine, BASE64_STANDARD_NO_PAD};
use vstd::prelude::*;
use vstd::slice::slice_subrange;
use vstd::string::StrSliceExecFns;

verus! {

/// Whether two strings are the same.
pub fn same_str(a: &str, b: &str) -> (r: bool)
    ensures
        r == (a@ == b@),
{
    let x = chars_of(a);
    let y = chars_of(b);
    same_text(x.as_slice(), y.as_slice())
}

/// The lines of `s` from position `i` on: the pieces between its line feeds.
/// A text without a line feed is one line, which may be empty.
pub open spec fn lines_from(s: Seq<char>, i: int) -> Seq<Seq<char>>
    decreases s.len() - i,
    via lines_from_decreases
{
    let e = run_end(s, i, Class::Line);
    if 0 <= i <= e < s.len() {
        seq![s.subrange(i, e)] + lines_from(s, e + 1)
    } else {
        seq![s.subrange(i, s.len() as int)]
    }
}

#[via_fn]
proof fn lines_from_decreases(s: Seq<char>, i: int) {
}

/// The lines of `s`.
pub open spec fn lines(s: Seq<char>) -> Seq<Seq<char>> {
    lines_from(s, 0)
}

/// The first line of `s`.
pub open spec fn first_line(s: Seq<char>) -> Seq<char> {
    s.take(run_end(s, 0, Class::Line))
}

/// The number that a field spells: decimal digits, before which one plus
/// sign may stand.
pub open spec fn unsigned(s: Seq<char>) -> Option<u64> {
    if s.len() > 0 && s[0] == '+' {
        decimal_u64(s.skip(1))
    } else {
        decimal_u64(s)
    }
}

/// The number that a field of eight bits spells.
pub open spec fn unsigned_u8(s: Seq<char>) -> Option<u8> {
    match unsigned(s) {
        Some(n) => if n <= u8::MAX {
            Some(n as u8)
        } else {
            None
        },
        None => None,
    }
}

/// Splits `s` at its line feeds.
pub fn split_lines(s: &str) -> (v: Vec<&str>)
    ensures
        strs_view(v@) == lines(s@),
        v@.len() >= 1,
{
    let chars = chars_of(s);
    let c = chars.as_slice();
    let mut v: Vec<&str> = Vec::new();
    let mut i: usize = 0;
    loop
        invariant
            c@ == s@,
            i <= s@.len(),
            lines(s@) =~= strs_view(v@) + lines_from(s@, i as int),
        decreases s@.len() - i,
    {
        let e = scan(c, i, Class::Line);
        let ghost before = strs_view(v@);
        if e < c.len() {
            let piece = s.substring_char(i, e);
            v.push(piece);
            proof {
                assert(strs_view(v@) =~= before + seq![piece@]);
            }
            i = e + 1;
        } else {
            let piece = s.substring_char(i, c.len());
            v.push(piece);
            proof {
                assert(strs_view(v@) =~= before + seq![piece@]);
            }
            return v;
        }
    }
}

/// The first line of `s`.
pub fn take_first_line(s: &str) -> (r: &str)
    ensures
        r@ == first_line(s@),
{
    let chars = chars_of(s);
    let e = scan(chars.as_slice(), 0, Class::Line);
    s.substring_char(0, e)
}

/// Reads a field that spells a number of 64 bits.
pub fn parse_unsigned(s: &str) -> (r: Option<u64>)
    ensures
        r == unsigned(s@),
{
    let chars = chars_of(s);
    let c = chars.as_slice();
    if c.len() > 0 && c[0] == '+' {
        parse_u64(slice_subrange(c, 1, c.len()))
    } else {
        parse_u64(c)
    }
}

/// Reads a field that spells a number of eight bits.
pub fn parse_unsigned_u8(s: &str) -> (r: Option<u8>)
    ensures
        r == unsigned_u8(s@),
{
    match parse_unsigned(s) {
        Some(n) => if n <= 255 {
            Some(n as u8)
        } else {
            None
        },
        None => None,
    }
}

/// The bytes that a base64 text without padding stands for, in the standard
/// alphabet; `None` where the text is no such encoding.
pub uninterp spec fn base64_decoded(text: Seq<char>) -> Option<Seq<u8>>;

/// `Engine::decode` of the `base64` crate, on its engine for the standard
/// alphabet without padding. What comes back depends on the text alone; the
/// contract gives it its name.
#[verifier::external_body]
fn base64_decode(text: &str) -> (r: Option<Vec<u8>>)
    ensures
        match r {
            Some(v) => base64_decoded(text@) == Some(v@),
            None => base64_decoded(text@) is None,
        },
{
    match BASE64_STANDARD_NO_PAD.decode(text) {
        Ok(v) => Some(v),
        Err(_) => None,
    }
}

/// The digest of `N` bytes that decoded bytes make: they must be `N` bytes.
pub open spec fn digest_of<const N: usize>(decoded: Option<Seq<u8>>) -> Option<Seq<u8>> {
    match decoded {
        Some(b) => if b.len() == N {
            Some(b)
        } else {
            None
        },
        None => None,
    }
}

/// Takes decoded bytes for a digest of `N` bytes.
pub fn digest_from<const N: usize>(decoded: Option<Vec<u8>>) -> (r: Option<[u8; N]>)
    ensures
        match r {
            Some(a) => decoded is Some && a@ == decoded.unwrap()@ && a@.len() == N,
            None => decoded is None || decoded.unwrap()@.len() != N,
        },
{
    let bytes = match decoded {
        Some(b) => b,
        None => {
            return None;
        },
    };
    if bytes.len() != N {
        return None;
    }
    let mut a: [u8; N] = [0u8;N];
    let mut i: usize = 0;
    while i < N
        invariant
            i <= N,
            bytes@.len() == N,
            forall|j: int| 0 <= j < i ==> a@[j] == bytes@[j],
        decreases N - i,
    {
        a[i] = bytes[i];
        i = i + 1;
    }
    proof {
        assert(a@ =~= bytes@);
    }
    Some(a)
}

/// Reads a field that holds a digest of `N` bytes in base64.
pub fn parse_digest<const N: usize>(text: &str) -> (r: Option<[u8; N]>)
    ensures
        match r {
            Some(a) => digest_of::<N>(base64_decoded(text@)) == Some(a@) && a@.len() == N,
            None => digest_of::<N>(base64_decoded(text@)) is None,
        },
{
    digest_from::<N>(base64_decode(text))
}

} // verus!
