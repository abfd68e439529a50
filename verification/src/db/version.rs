//! Package versions: their decomposition into an epoch and two lists of
//! segments, and the order on them.

use crate::text::{
    chars_of, class_has, decimal_u64, find_last, is_digit, is_letter, last_index_of,
    lemma_run_end, parse_u64, run_end, scan, Class,
};
use vstd::prelude::*;
use vstd::slice::{slice_subrange, slice_to_vec};

verus! {

/// Whether Unicode counts `c` as alphabetic or numeric. The tables that decide
/// this are those of the standard library.
pub uninterp spec fn unicode_alphanumeric(c: char) -> bool;

/// `char::is_alphanumeric` of the standard library. Its result is a function
/// of the character alone; the contract gives that function its name.
#[verifier::external_body]
fn is_unicode_alphanumeric(c: char) -> (b: bool)
    ensures
        b == unicode_alphanumeric(c),
{
    c.is_alphanumeric()
}

/// One segment of a version: a run of digits that fits in 64 bits, or any
/// other run of letters or digits.
#[derive(Debug)]
pub enum Segment {
    Number(u64),
    Text(Vec<char>),
}

pub enum SegmentView {
    Number(u64),
    Text(Seq<char>),
}

impl View for Segment {
    type V = SegmentView;

    open spec fn view(&self) -> SegmentView {
        match self {
            Segment::Number(n) => SegmentView::Number(*n),
            Segment::Text(t) => SegmentView::Text(t@),
        }
    }
}

/// The views of a list of segments.
pub open spec fn segments_view(v: Seq<Segment>) -> Seq<SegmentView> {
    v.map_values(|s: Segment| s@)
}

/// A decomposed version: `[epoch:]main[-pkgrel]`.
#[derive(Debug)]
pub struct Version {
    pub epoch: Option<u64>,
    pub main: Vec<Segment>,
    pub pkgrel: Option<Vec<Segment>>,
}

pub struct VersionView {
    pub epoch: Option<u64>,
    pub main: Seq<SegmentView>,
    pub pkgrel: Option<Seq<SegmentView>>,
}

impl View for Version {
    type V = VersionView;

    open spec fn view(&self) -> VersionView {
        VersionView {
            epoch: self.epoch,
            main: segments_view(self.main@),
            pkgrel: match self.pkgrel {
                Some(r) => Some(segments_view(r@)),
                None => None,
            },
        }
    }
}

/// The segment that a run of digits stands for: its number where that fits
/// in 64 bits, the digits themselves where it does not.
pub open spec fn digits_segment(run: Seq<char>) -> SegmentView {
    match decimal_u64(run) {
        Some(n) => SegmentView::Number(n),
        None => SegmentView::Text(run),
    }
}

/// The position after the separator that may follow a run ending at `j`: one
/// character that is neither alphabetic nor numeric is passed over.
pub open spec fn after_separator(s: Seq<char>, j: int) -> int {
    if 0 <= j < s.len() && !unicode_alphanumeric(s[j]) {
        j + 1
    } else {
        j
    }
}

/// The segments of `s` from position `i` on. Each is a longest run of
/// letters or a longest run of digits, followed by at most one separator. The
/// list ends at the first position where neither a letter nor a digit stands.
pub open spec fn segments(s: Seq<char>, i: int) -> Seq<SegmentView>
    decreases s.len() - i,
    via segments_decreases
{
    if !(0 <= i < s.len()) {
        Seq::empty()
    } else if is_letter(s[i]) {
        let j = run_end(s, i, Class::Letter);
        seq![SegmentView::Text(s.subrange(i, j))] + segments(s, after_separator(s, j))
    } else if is_digit(s[i]) {
        let j = run_end(s, i, Class::Digit);
        seq![digits_segment(s.subrange(i, j))] + segments(s, after_separator(s, j))
    } else {
        Seq::empty()
    }
}

#[via_fn]
proof fn segments_decreases(s: Seq<char>, i: int) {
    if 0 <= i < s.len() {
        lemma_run_end(s, i + 1, Class::Letter);
        lemma_run_end(s, i + 1, Class::Digit);
    }
}

/// The epoch of `s` and what follows it. The epoch is there where `s` starts
/// with a run of digits that fits in 64 bits and a colon follows the run.
pub open spec fn split_epoch(s: Seq<char>) -> (Option<u64>, Seq<char>) {
    let d = run_end(s, 0, Class::Digit);
    if d < s.len() && s[d] == ':' && decimal_u64(s.take(d)) is Some {
        (decimal_u64(s.take(d)), s.skip(d + 1))
    } else {
        (None, s)
    }
}

/// What stands before the last hyphen of `s` and, where there is a hyphen,
/// what stands after it.
pub open spec fn split_pkgrel(s: Seq<char>) -> (Seq<char>, Option<Seq<char>>) {
    match last_index_of(s, '-') {
        Some(p) => (s.take(p), Some(s.skip(p + 1))),
        None => (s, None),
    }
}

/// The decomposition of the version string `s`, where it has one: both the
/// main part and, if there is a hyphen, the part after it must start with a
/// segment.
pub open spec fn parse_version(s: Seq<char>) -> Option<VersionView> {
    let (epoch, rest) = split_epoch(s);
    let (pre, post) = split_pkgrel(rest);
    let main = segments(pre, 0);
    if main.len() == 0 {
        None
    } else {
        match post {
            None => Some(VersionView { epoch, main, pkgrel: None }),
            Some(q) => {
                let rel = segments(q, 0);
                if rel.len() == 0 {
                    None
                } else {
                    Some(VersionView { epoch, main, pkgrel: Some(rel) })
                }
            },
        }
    }
}

/// Splits `s` into its segments.
pub fn segments_of(s: &[char]) -> (v: Vec<Segment>)
    ensures
        segments_view(v@) == segments(s@, 0),
{
    let mut v: Vec<Segment> = Vec::new();
    let mut i: usize = 0;
    let mut open: bool = true;
    while open && i < s.len()
        invariant
            i <= s@.len(),
            open ==> segments(s@, 0) =~= segments_view(v@) + segments(s@, i as int),
            !open ==> segments(s@, 0) =~= segments_view(v@),
        decreases s@.len() - i + if open { 1int } else { 0int },
    {
        let c = s[i];
        let letter = class_has(Class::Letter, c);
        if letter || class_has(Class::Digit, c) {
            let k = if letter { Class::Letter } else { Class::Digit };
            let j = scan(s, i, k);
            proof {
                lemma_run_end(s@, i + 1, k);
            }
            let run = slice_subrange(s, i, j);
            let seg = if letter {
                Segment::Text(slice_to_vec(run))
            } else {
                match parse_u64(run) {
                    Some(n) => Segment::Number(n),
                    None => Segment::Text(slice_to_vec(run)),
                }
            };
            let ghost before = segments_view(v@);
            v.push(seg);
            proof {
                assert(segments_view(v@) =~= before + seq![seg@]);
            }
            if j < s.len() && !is_unicode_alphanumeric(s[j]) {
                i = j + 1;
            } else {
                i = j;
            }
        } else {
            open = false;
        }
    }
    v
}

/// Decomposes the version string `i`.
pub fn versionparse(i: &str) -> (r: Result<Version, ()>)
    ensures
        match r {
            Ok(v) => parse_version(i@) == Some(v@),
            Err(_) => parse_version(i@) is None,
        },
{
    let chars = chars_of(i);
    parse_chars(chars.as_slice())
}

/// Decomposes the version that the characters `s` spell.
pub fn parse_chars(s: &[char]) -> (r: Result<Version, ()>)
    ensures
        match r {
            Ok(v) => parse_version(s@) == Some(v@),
            Err(_) => parse_version(s@) is None,
        },
{
    let d = scan(s, 0, Class::Digit);
    let mut epoch: Option<u64> = None;
    let mut rest: &[char] = s;
    if d < s.len() && s[d] == ':' {
        let n = parse_u64(slice_subrange(s, 0, d));
        if n.is_some() {
            epoch = n;
            rest = slice_subrange(s, d + 1, s.len());
        }
    }
    let (pre, post) = match find_last(rest, '-') {
        Some(p) => (slice_subrange(rest, 0, p), Some(slice_subrange(rest, p + 1, rest.len()))),
        None => (rest, None),
    };
    let main = segments_of(pre);
    if main.len() == 0 {
        return Err(());
    }
    match post {
        None => Ok(Version { epoch, main, pkgrel: None }),
        Some(q) => {
            let rel = segments_of(q);
            if rel.len() == 0 {
                Err(())
            } else {
                Ok(Version { epoch, main, pkgrel: Some(rel) })
            }
        },
    }
}

} // verus!
