//! The descriptor format: a text of `%KEY%` headers, each followed by its
//! value and an empty line.

use crate::text::{chars_of, lemma_run_end, run_end, same_text, scan, Class};
use vstd::prelude::*;
use vstd::slice::slice_subrange;
use vstd::string::StrSliceExecFns;

verus! {

/// Where one entry stands in a descriptor: its key in `[key_start, key_end)`,
/// its value in `[value_start, value_end)`.
#[derive(Clone, Copy, Debug)]
pub struct Span {
    pub key_start: usize,
    pub key_end: usize,
    pub value_start: usize,
    pub value_end: usize,
}

/// One entry of a descriptor.
pub struct EntryView {
    pub key: Seq<char>,
    pub value: Seq<char>,
}

/// Two line feeds stand at position `e` of `s`.
pub open spec fn blank_at(s: Seq<char>, e: int) -> bool {
    0 <= e && e + 1 < s.len() && s[e] == '\n' && s[e + 1] == '\n'
}

/// The first position from `i` on at which two line feeds stand.
pub open spec fn find_blank(s: Seq<char>, i: int) -> Option<int>
    decreases s.len() - i,
{
    if i < 0 || i + 1 >= s.len() {
        None
    } else if blank_at(s, i) {
        Some(i)
    } else {
        find_blank(s, i + 1)
    }
}

/// What `find_blank` returns, without the recursion.
pub proof fn lemma_find_blank(s: Seq<char>, i: int)
    requires
        0 <= i,
    ensures
        match find_blank(s, i) {
            Some(e) => i <= e && blank_at(s, e) && forall|p: int| i <= p < e ==> !blank_at(s, p),
            None => forall|p: int| i <= p ==> !blank_at(s, p),
        },
    decreases s.len() - i,
{
    if i + 1 < s.len() && !blank_at(s, i) {
        lemma_find_blank(s, i + 1);
    }
}

/// The entry that starts at position `i` of `s`: a percent sign, a key of
/// letters and digits, a percent sign, a line feed, and the value, which runs
/// up to the next two line feeds. An entry needs a key of at least one
/// character and those two line feeds.
pub open spec fn entry_at(s: Seq<char>, i: int) -> Option<(int, int, int, int)> {
    if 0 <= i < s.len() && s[i] == '%' {
        let k = run_end(s, i + 1, Class::Alnum);
        if k > i + 1 && k + 1 < s.len() && s[k] == '%' && s[k + 1] == '\n' {
            match find_blank(s, k + 2) {
                Some(e) => Some((i + 1, k, k + 2, e)),
                None => None,
            }
        } else {
            None
        }
    } else {
        None
    }
}

/// The entry of `s` that a span points at.
pub open spec fn entry_of(s: Seq<char>, sp: (int, int, int, int)) -> EntryView {
    EntryView { key: s.subrange(sp.0, sp.1), value: s.subrange(sp.2, sp.3) }
}

/// The entries that follow an entry which ends at position `p`: each stands
/// behind two line feeds. The list ends where no further entry follows.
pub open spec fn entries_after(s: Seq<char>, p: int) -> Seq<(int, int, int, int)>
    decreases s.len() - p,
    via entries_after_decreases
{
    if blank_at(s, p) {
        match entry_at(s, p + 2) {
            Some(sp) => seq![sp] + entries_after(s, sp.3),
            None => Seq::empty(),
        }
    } else {
        Seq::empty()
    }
}

#[via_fn]
proof fn entries_after_decreases(s: Seq<char>, p: int) {
    if blank_at(s, p) {
        lemma_entry_at(s, p + 2);
    }
}

/// The bounds of an entry lie in order within the text.
pub proof fn lemma_entry_at(s: Seq<char>, i: int)
    ensures
        match entry_at(s, i) {
            Some(sp) => 0 <= i < sp.0 < sp.1 < sp.2 <= sp.3 && blank_at(s, sp.3),
            None => true,
        },
{
    if 0 <= i < s.len() && s[i] == '%' {
        let k = run_end(s, i + 1, Class::Alnum);
        lemma_run_end(s, i + 1, Class::Alnum);
        lemma_find_blank(s, k + 2);
    }
}

/// The position at which the list of entries ends, for a list whose last
/// entry so far ends at `p`.
pub open spec fn rest_after(s: Seq<char>, p: int) -> int
    decreases s.len() - p,
    via rest_after_decreases
{
    if blank_at(s, p) {
        match entry_at(s, p + 2) {
            Some(sp) => rest_after(s, sp.3),
            None => p,
        }
    } else {
        p
    }
}

#[via_fn]
proof fn rest_after_decreases(s: Seq<char>, p: int) {
    if blank_at(s, p) {
        lemma_entry_at(s, p + 2);
    }
}

/// The spans of the entries of the descriptor `s`, where `s` is one: a list
/// of entries, two line feeds between each two of them, and two line feeds at
/// the end, with nothing behind.
pub open spec fn descriptor_spans(s: Seq<char>) -> Option<Seq<(int, int, int, int)>> {
    match entry_at(s, 0) {
        None => if s.len() == 2 && blank_at(s, 0) {
            Some(Seq::empty())
        } else {
            None
        },
        Some(sp) => if rest_after(s, sp.3) + 2 == s.len() {
            Some(seq![sp] + entries_after(s, sp.3))
        } else {
            None
        },
    }
}

/// The entries of the descriptor `s`, in the order of the text.
pub open spec fn descriptor(s: Seq<char>) -> Option<Seq<EntryView>> {
    match descriptor_spans(s) {
        Some(spans) => Some(spans.map_values(|sp: (int, int, int, int)| entry_of(s, sp))),
        None => None,
    }
}

/// The value that a list of entries gives to `key`: that of the last entry
/// with this key.
pub open spec fn lookup(entries: Seq<EntryView>, key: Seq<char>) -> Option<Seq<char>>
    decreases entries.len(),
{
    if entries.len() == 0 {
        None
    } else if entries.last().key == key {
        Some(entries.last().value)
    } else {
        lookup(entries.drop_last(), key)
    }
}

impl Span {
    pub open spec fn bounds(&self) -> (int, int, int, int) {
        (self.key_start as int, self.key_end as int, self.value_start as int, self.value_end as int)
    }
}

/// Finds the first two line feeds from position `i` on.
pub fn scan_blank(s: &[char], i: usize) -> (r: Option<usize>)
    ensures
        match r {
            Some(e) => find_blank(s@, i as int) == Some(e as int) && e + 1 < s@.len(),
            None => find_blank(s@, i as int) is None,
        },
{
    let mut e: usize = i;
    while e < s.len() && s.len() - e >= 2
        invariant
            i <= e,
            find_blank(s@, i as int) == find_blank(s@, e as int),
        decreases s@.len() - e,
    {
        if s[e] == '\n' && s[e + 1] == '\n' {
            return Some(e);
        }
        e = e + 1;
    }
    None
}

/// Reads the entry that starts at position `i`.
pub fn read_entry(s: &[char], i: usize) -> (r: Option<Span>)
    ensures
        match r {
            Some(sp) => entry_at(s@, i as int) == Some(sp.bounds()) && sp.value_end + 1 < s@.len(),
            None => entry_at(s@, i as int) is None,
        },
{
    if i >= s.len() || s[i] != '%' {
        return None;
    }
    let k = scan(s, i + 1, Class::Alnum);
    if k == i + 1 || k >= s.len() || s.len() - k < 2 || s[k] != '%' || s[k + 1] != '\n' {
        return None;
    }
    match scan_blank(s, k + 2) {
        Some(e) => Some(Span { key_start: i + 1, key_end: k, value_start: k + 2, value_end: e }),
        None => None,
    }
}

/// The bounds of a list of spans.
pub open spec fn spans_bounds(v: Seq<Span>) -> Seq<(int, int, int, int)> {
    v.map_values(|sp: Span| sp.bounds())
}

/// The bounds of a span lie in order within a text of `n` characters.
pub open spec fn span_within(sp: Span, n: nat) -> bool {
    sp.key_start <= sp.key_end <= sp.value_start <= sp.value_end <= n
}

/// Reads the spans of the entries of the descriptor `s`.
pub fn read_spans(s: &[char]) -> (r: Option<Vec<Span>>)
    ensures
        match r {
            Some(v) => descriptor_spans(s@) == Some(spans_bounds(v@)) && forall|j: int|
                0 <= j < v@.len() ==> span_within(#[trigger] v@[j], s@.len()),
            None => descriptor_spans(s@) is None,
        },
{
    let mut v: Vec<Span> = Vec::new();
    let first = match read_entry(s, 0) {
        Some(sp) => sp,
        None => {
            if s.len() == 2 && s[0] == '\n' && s[1] == '\n' {
                assert(spans_bounds(v@) =~= Seq::empty());
                return Some(v);
            } else {
                return None;
            }
        },
    };
    v.push(first);
    let n = s.len();
    let mut p: usize = first.value_end;
    proof {
        lemma_entry_at(s@, 0);
        assert(spans_bounds(v@) =~= seq![first.bounds()]);
    }
    loop
        invariant
            p + 1 < n == s@.len(),
            entry_at(s@, 0) == Some(first.bounds()),
            forall|j: int| 0 <= j < v@.len() ==> span_within(#[trigger] v@[j], s@.len()),
            blank_at(s@, p as int),
            seq![first.bounds()] + entries_after(s@, first.value_end as int) =~= spans_bounds(v@)
                + entries_after(s@, p as int),
            rest_after(s@, first.value_end as int) == rest_after(s@, p as int),
        decreases s@.len() - p,
    {
        match read_entry(s, p + 2) {
            Some(sp) => {
                proof {
                    lemma_entry_at(s@, p + 2);
                }
                let ghost before = spans_bounds(v@);
                v.push(sp);
                proof {
                    assert(spans_bounds(v@) =~= before + seq![sp.bounds()]);
                }
                p = sp.value_end;
            },
            None => {
                proof {
                    assert(entries_after(s@, p as int) =~= Seq::empty());
                    assert(rest_after(s@, p as int) == p);
                    assert(spans_bounds(v@) + entries_after(s@, p as int) =~= spans_bounds(v@));
                }
                if p + 2 == n {
                    return Some(v);
                } else {
                    return None;
                }
            },
        }
    }
}

/// A parsed descriptor: the text and the places of its entries.
#[derive(Debug)]
pub struct Descriptor<'a> {
    text: &'a str,
    chars: Vec<char>,
    spans: Vec<Span>,
}

impl<'a> View for Descriptor<'a> {
    type V = Seq<EntryView>;

    closed spec fn view(&self) -> Seq<EntryView> {
        spans_bounds(self.spans@).map_values(|sp: (int, int, int, int)| entry_of(self.text@, sp))
    }
}

impl<'a> Descriptor<'a> {
    #[verifier::type_invariant]
    spec fn inv(&self) -> bool {
        &&& self.chars@ == self.text@
        &&& forall|j: int|
            0 <= j < self.spans@.len() ==> span_within(#[trigger] self.spans@[j], self.text@.len())
    }

    /// Whether the key of the entry at position `j` is `key`.
    fn key_is(&self, j: usize, key: &[char]) -> (r: bool)
        requires
            j < self@.len(),
        ensures
            r == (self@[j as int].key == key@),
    {
        proof {
            use_type_invariant(self);
        }
        let sp = self.spans[j];
        same_text(slice_subrange(self.chars.as_slice(), sp.key_start, sp.key_end), key)
    }

    /// The number of entries.
    pub fn len(&self) -> (n: usize)
        ensures
            n == self@.len(),
    {
        self.spans.len()
    }

    /// The key of the entry at position `j`.
    pub fn key(&self, j: usize) -> (k: &'a str)
        requires
            j < self@.len(),
        ensures
            k@ == self@[j as int].key,
    {
        proof {
            use_type_invariant(self);
        }
        let sp = self.spans[j];
        self.text.substring_char(sp.key_start, sp.key_end)
    }

    /// The value of the entry at position `j`.
    pub fn value(&self, j: usize) -> (v: &'a str)
        requires
            j < self@.len(),
        ensures
            v@ == self@[j as int].value,
    {
        proof {
            use_type_invariant(self);
        }
        let sp = self.spans[j];
        self.text.substring_char(sp.value_start, sp.value_end)
    }

    /// The value of `key`: that of the last entry with this key.
    pub fn get(&self, key: &str) -> (r: Option<&'a str>)
        ensures
            match r {
                Some(v) => lookup(self@, key@) == Some(v@),
                None => lookup(self@, key@) is None,
            },
    {
        let wanted = chars_of(key);
        let mut j: usize = self.len();
        proof {
            assert(self@.take(j as int) =~= self@);
        }
        while j > 0
            invariant
                j <= self@.len(),
                wanted@ == key@,
                lookup(self@, key@) == lookup(self@.take(j as int), key@),
            decreases j,
        {
            if self.key_is(j - 1, wanted.as_slice()) {
                let v = self.value(j - 1);
                return Some(v);
            }
            proof {
                assert(self@.take(j as int).drop_last() =~= self@.take(j - 1));
            }
            j = j - 1;
        }
        None
    }
}

/// Parses the descriptor `i`.
pub fn parse_to_map(i: &str) -> (r: Result<Descriptor<'_>, ()>)
    ensures
        match r {
            Ok(d) => descriptor(i@) == Some(d@),
            Err(_) => descriptor(i@) is None,
        },
{
    let chars = chars_of(i);
    match read_spans(chars.as_slice()) {
        Some(spans) => Ok(Descriptor { text: i, chars, spans }),
        None => Err(()),
    }
}

} // verus!
