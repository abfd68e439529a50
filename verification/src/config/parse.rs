//! The grammar of the configuration file: sections, keys and values.

use crate::text::{chars_of, is_alnum, lemma_run_end, run_end, scan, Class};
use vstd::prelude::*;
use vstd::string::StrSliceExecFns;

verus! {

/// The section header that starts at position `i` of `s`: an opening square
/// bracket and the first closing one behind it. The result is the position
/// of the closing bracket; the name stands between the two.
pub open spec fn section_at(s: Seq<char>, i: int) -> Option<int> {
    if 0 <= i < s.len() && s[i] == '[' {
        let e = run_end(s, i + 1, Class::Label);
        if e < s.len() {
            Some(e)
        } else {
            None
        }
    } else {
        None
    }
}

/// One key with its value, or one comment, and where the text goes on.
pub struct Token {
    /// The key, or the whole comment, stands in `[start, key_end)`.
    pub start: int,
    pub key_end: int,
    /// The value, where the key has one.
    pub value: Option<(int, int)>,
    /// The position behind the token.
    pub next: int,
}

/// The value that follows a key which ends at position `k`: an equals sign,
/// with any number of spaces on both sides, and at least one character that
/// is neither a line feed nor a semicolon. The result is the value's place
/// and the position behind the line feeds and semicolons that follow it.
pub open spec fn value_at(s: Seq<char>, k: int) -> Option<(int, int, int)> {
    let a = run_end(s, k, Class::Space);
    if 0 <= a < s.len() && s[a] == '=' {
        let b = run_end(s, a + 1, Class::Space);
        let v = run_end(s, b, Class::Value);
        if v > b {
            Some((b, v, run_end(s, v, Class::Trailer)))
        } else {
            None
        }
    } else {
        None
    }
}

/// The token that starts at position `i` of `s`. A key is a run of letters
/// and digits; a key without a value ends where its run ends. A comment runs
/// from a hash sign to the next line feed, which it needs.
pub open spec fn token_at(s: Seq<char>, i: int) -> Option<Token> {
    if 0 <= i < s.len() && is_alnum(s[i]) {
        let k = run_end(s, i, Class::Alnum);
        match value_at(s, k) {
            Some((b, v, next)) => Some(Token { start: i, key_end: k, value: Some((b, v)), next }),
            None => Some(Token { start: i, key_end: k, value: None, next: k }),
        }
    } else if 0 <= i < s.len() && s[i] == '#' {
        let e = run_end(s, i + 1, Class::Line);
        if e < s.len() {
            Some(Token { start: i, key_end: e + 1, value: None, next: e + 1 })
        } else {
            None
        }
    } else {
        None
    }
}

/// The token at `i` is a comment.
pub open spec fn is_comment(s: Seq<char>, t: Token) -> bool {
    s[t.start] == '#'
}

/// A token lies within the text, in order, and is not empty.
pub proof fn lemma_token_at(s: Seq<char>, i: int)
    ensures
        match token_at(s, i) {
            Some(t) => {
                &&& 0 <= i == t.start < t.key_end <= t.next <= s.len()
                &&& t.value matches Some((b, v)) ==> t.key_end <= b < v <= t.next
            },
            None => true,
        },
{
    if 0 <= i < s.len() {
        lemma_run_end(s, i + 1, Class::Alnum);
        lemma_run_end(s, i + 1, Class::Line);
        if is_alnum(s[i]) {
            let k = run_end(s, i, Class::Alnum);
            lemma_run_end(s, k, Class::Space);
            let a = run_end(s, k, Class::Space);
            if a < s.len() {
                lemma_run_end(s, a + 1, Class::Space);
                let b = run_end(s, a + 1, Class::Space);
                lemma_run_end(s, b, Class::Value);
                let v = run_end(s, b, Class::Value);
                lemma_run_end(s, v, Class::Trailer);
            }
        }
    }
}

/// The position from which the next token is read: blanks behind a token are
/// passed over.
pub open spec fn after_token(s: Seq<char>, t: Token) -> int {
    run_end(s, t.next, Class::Blank)
}

/// The tokens of `s` from position `p` on, up to the first position at which
/// no token starts.
pub open spec fn tokens(s: Seq<char>, p: int) -> Seq<Token>
    decreases s.len() - p,
    via tokens_decreases
{
    match token_at(s, p) {
        Some(t) => seq![t] + tokens(s, after_token(s, t)),
        None => Seq::empty(),
    }
}

#[via_fn]
proof fn tokens_decreases(s: Seq<char>, p: int) {
    lemma_token_at(s, p);
    if let Some(t) = token_at(s, p) {
        lemma_run_end(s, t.next, Class::Blank);
    }
}

/// The position at which the tokens from `p` on end.
pub open spec fn tokens_end(s: Seq<char>, p: int) -> int
    decreases s.len() - p,
    via tokens_end_decreases
{
    match token_at(s, p) {
        Some(t) => tokens_end(s, after_token(s, t)),
        None => p,
    }
}

#[via_fn]
proof fn tokens_end_decreases(s: Seq<char>, p: int) {
    lemma_token_at(s, p);
    if let Some(t) = token_at(s, p) {
        lemma_run_end(s, t.next, Class::Blank);
    }
}

/// The tokens lie within the text.
pub proof fn lemma_tokens_end(s: Seq<char>, p: int)
    requires
        0 <= p <= s.len(),
    ensures
        p <= tokens_end(s, p) <= s.len(),
        token_at(s, tokens_end(s, p)) is None,
    decreases s.len() - p,
{
    lemma_token_at(s, p);
    if let Some(t) = token_at(s, p) {
        lemma_run_end(s, t.next, Class::Blank);
        lemma_tokens_end(s, after_token(s, t));
    }
}

/// A key and, where it has one, its value.
pub struct Pair {
    pub key: Seq<char>,
    pub value: Option<Seq<char>>,
}

/// The key and value that a token which is no comment stands for.
pub open spec fn pair_of(s: Seq<char>, t: Token) -> Pair {
    Pair {
        key: s.subrange(t.start, t.key_end),
        value: match t.value {
            Some((b, v)) => Some(s.subrange(b, v)),
            None => None,
        },
    }
}

/// The keys and values of `s` from position `p` on, comments left out.
pub open spec fn pairs(s: Seq<char>, p: int) -> Seq<Pair>
    decreases s.len() - p,
    via pairs_decreases
{
    match token_at(s, p) {
        Some(t) => if is_comment(s, t) {
            pairs(s, after_token(s, t))
        } else {
            seq![pair_of(s, t)] + pairs(s, after_token(s, t))
        },
        None => Seq::empty(),
    }
}

#[via_fn]
proof fn pairs_decreases(s: Seq<char>, p: int) {
    lemma_token_at(s, p);
    if let Some(t) = token_at(s, p) {
        lemma_run_end(s, t.next, Class::Blank);
    }
}

/// A section: its name, and its keys and values.
pub struct Section {
    pub name: Seq<char>,
    pub pairs: Seq<Pair>,
}

/// The sections of `s` from position `p` on: each a header, blanks, and the
/// keys and values up to the next header. The list ends at the first position
/// at which no header starts.
pub open spec fn sections(s: Seq<char>, p: int) -> Seq<Section>
    decreases s.len() - p,
    via sections_decreases
{
    match section_at(s, p) {
        Some(e) => {
            let q = run_end(s, e + 1, Class::Blank);
            seq![Section { name: s.subrange(p + 1, e), pairs: pairs(s, q) }] + sections(
                s,
                tokens_end(s, q),
            )
        },
        None => Seq::empty(),
    }
}

#[via_fn]
proof fn sections_decreases(s: Seq<char>, p: int) {
    if let Some(e) = section_at(s, p) {
        lemma_run_end(s, p + 1, Class::Label);
        lemma_run_end(s, e + 1, Class::Blank);
        lemma_tokens_end(s, run_end(s, e + 1, Class::Blank));
    }
}

/// The position at which the sections from `p` on end.
pub open spec fn sections_end(s: Seq<char>, p: int) -> int
    decreases s.len() - p,
    via sections_end_decreases
{
    match section_at(s, p) {
        Some(e) => sections_end(s, tokens_end(s, run_end(s, e + 1, Class::Blank))),
        None => p,
    }
}

#[via_fn]
proof fn sections_end_decreases(s: Seq<char>, p: int) {
    if let Some(e) = section_at(s, p) {
        lemma_run_end(s, p + 1, Class::Label);
        lemma_run_end(s, e + 1, Class::Blank);
        lemma_tokens_end(s, run_end(s, e + 1, Class::Blank));
    }
}

/// The content of a configuration text: what stands before the first header,
/// under the empty name, and then the sections.
pub open spec fn config(s: Seq<char>) -> Seq<Section> {
    seq![Section { name: Seq::empty(), pairs: pairs(s, 0) }] + sections(s, tokens_end(s, 0))
}

/// The position at which the reading of a configuration text ends.
pub open spec fn config_end(s: Seq<char>) -> int {
    sections_end(s, tokens_end(s, 0))
}

/// The place of a token in a text.
#[derive(Clone, Copy, Debug)]
pub struct TokenSpan {
    pub start: usize,
    pub key_end: usize,
    pub value: Option<(usize, usize)>,
    pub next: usize,
}

impl View for TokenSpan {
    type V = Token;

    open spec fn view(&self) -> Token {
        Token {
            start: self.start as int,
            key_end: self.key_end as int,
            value: match self.value {
                Some((b, v)) => Some((b as int, v as int)),
                None => None,
            },
            next: self.next as int,
        }
    }
}

/// Reads the section header that starts at position `i`.
pub fn read_section(s: &[char], i: usize) -> (r: Option<usize>)
    ensures
        match r {
            Some(e) => section_at(s@, i as int) == Some(e as int) && i < e < s@.len(),
            None => section_at(s@, i as int) is None,
        },
{
    if i >= s.len() || s[i] != '[' {
        return None;
    }
    let e = scan(s, i + 1, Class::Label);
    if e < s.len() {
        Some(e)
    } else {
        None
    }
}

/// Reads the token that starts at position `i`.
pub fn read_token(s: &[char], i: usize) -> (r: Option<TokenSpan>)
    ensures
        match r {
            Some(t) => token_at(s@, i as int) == Some(t@),
            None => token_at(s@, i as int) is None,
        },
{
    if i >= s.len() {
        return None;
    }
    let c = s[i];
    if crate::text::class_has(Class::Alnum, c) {
        let k = scan(s, i, Class::Alnum);
        let a = scan(s, k, Class::Space);
        if a < s.len() && s[a] == '=' {
            let b = scan(s, a + 1, Class::Space);
            let v = scan(s, b, Class::Value);
            if v > b {
                let next = scan(s, v, Class::Trailer);
                return Some(TokenSpan { start: i, key_end: k, value: Some((b, v)), next });
            }
        }
        Some(TokenSpan { start: i, key_end: k, value: None, next: k })
    } else if c == '#' {
        let e = scan(s, i + 1, Class::Line);
        if e < s.len() {
            Some(TokenSpan { start: i, key_end: e + 1, value: None, next: e + 1 })
        } else {
            None
        }
    } else {
        None
    }
}

/// Reads the name of the section header at the start of `i`; the first part
/// of the result is what follows the header.
pub fn section(i: &str) -> (r: Result<(&str, &str), ()>)
    ensures
        match r {
            Ok((rest, name)) => section_at(i@, 0) matches Some(e) && name@ == i@.subrange(1, e)
                && rest@ == i@.skip(e + 1),
            Err(_) => section_at(i@, 0) is None,
        },
{
    let chars = chars_of(i);
    let s = chars.as_slice();
    match read_section(s, 0) {
        Some(e) => {
            let name = i.substring_char(1, e);
            let rest = i.substring_char(e + 1, s.len());
            proof {
                assert(i@.skip(e + 1) =~= i@.subrange(e + 1, i@.len() as int));
            }
            Ok((rest, name))
        },
        None => Err(()),
    }
}

/// Reads the key and value, or the comment, at the start of `i`; the first
/// part of the result is what follows.
pub fn kv(i: &str) -> (r: Result<(&str, (&str, Option<&str>)), ()>)
    ensures
        match r {
            Ok((rest, (name, value))) => token_at(i@, 0) matches Some(t) && rest@ == i@.skip(
                t.next,
            ) && name@ == pair_of(i@, t).key && match value {
                Some(v) => pair_of(i@, t).value == Some(v@),
                None => pair_of(i@, t).value is None,
            },
            Err(_) => token_at(i@, 0) is None,
        },
{
    let chars = chars_of(i);
    let s = chars.as_slice();
    proof {
        lemma_token_at(i@, 0);
    }
    match read_token(s, 0) {
        Some(t) => {
            let name = i.substring_char(t.start, t.key_end);
            let rest = i.substring_char(t.next, s.len());
            proof {
                assert(i@.skip(t.next as int) =~= i@.subrange(t.next as int, i@.len() as int));
            }
            let value = match t.value {
                Some((b, v)) => Some(i.substring_char(b, v)),
                None => None,
            };
            Ok((rest, (name, value)))
        },
        None => Err(()),
    }
}

/// The keys and values that a list of string pairs stands for.
pub open spec fn pairs_view(v: Seq<(&str, Option<&str>)>) -> Seq<Pair> {
    v.map_values(
        |e: (&str, Option<&str>)|
            Pair {
                key: e.0@,
                value: match e.1 {
                    Some(x) => Some(x@),
                    None => None,
                },
            },
    )
}

/// The values that `pairs` give to `key`, in their order. A key that stands
/// without a value adds nothing to its list; a key that does not stand in
/// `pairs` has no list.
pub open spec fn values_of(pairs: Seq<Pair>, key: Seq<char>) -> Option<Seq<Seq<char>>>
    decreases pairs.len(),
{
    if pairs.len() == 0 {
        None
    } else {
        let before = values_of(pairs.drop_last(), key);
        if pairs.last().key == key {
            let list = match before {
                Some(l) => l,
                None => Seq::empty(),
            };
            match pairs.last().value {
                Some(v) => Some(list.push(v)),
                None => Some(list),
            }
        } else {
            before
        }
    }
}

/// The keys and values of one section, in the order of the text.
#[derive(Debug)]
pub struct KeyValues<'a> {
    pub entries: Vec<(&'a str, Option<&'a str>)>,
}

impl<'a> View for KeyValues<'a> {
    type V = Seq<Pair>;

    open spec fn view(&self) -> Seq<Pair> {
        pairs_view(self.entries@)
    }
}

/// The views of a list of strings that may be missing.
pub open spec fn opt_list_view(l: Option<Vec<&str>>) -> Option<Seq<Seq<char>>> {
    match l {
        Some(v) => Some(v@.map_values(|x: &str| x@)),
        None => None,
    }
}

/// Adds to `found` the values that `entries` give to `key`.
fn collect_values<'a>(
    entries: &Vec<(&'a str, Option<&'a str>)>,
    key: &str,
    found: Option<Vec<&'a str>>,
    Ghost(before): Ghost<Seq<Pair>>,
) -> (r: Option<Vec<&'a str>>)
    requires
        opt_list_view(found) == values_of(before, key@),
    ensures
        opt_list_view(r) == values_of(before + pairs_view(entries@), key@),
{
    let wanted = chars_of(key);
    let mut found = found;
    let mut i: usize = 0;
    proof {
        assert(before + pairs_view(entries@).take(0) =~= before);
    }
    while i < entries.len()
        invariant
            i <= entries@.len(),
            wanted@ == key@,
            opt_list_view(found) == values_of(before + pairs_view(entries@).take(i as int), key@),
        decreases entries@.len() - i,
    {
        let (k, v) = entries[i];
        let ghost so_far = before + pairs_view(entries@).take(i as int);
        let ghost next = before + pairs_view(entries@).take(i + 1);
        proof {
            assert(next.drop_last() =~= so_far);
            assert(next.last() == pairs_view(entries@)[i as int]);
        }
        let kc = chars_of(k);
        if crate::text::same_text(kc.as_slice(), wanted.as_slice()) {
            let mut list = match found {
                Some(l) => l,
                None => Vec::new(),
            };
            let ghost old_list = list@.map_values(|x: &str| x@);
            if let Some(x) = v {
                list.push(x);
                proof {
                    assert(list@.map_values(|x: &str| x@) =~= old_list.push(x@));
                }
            }
            proof {
                if values_of(so_far, key@) is None {
                    assert(old_list =~= Seq::empty());
                }
            }
            found = Some(list);
        }
        i = i + 1;
    }
    proof {
        assert(pairs_view(entries@).take(i as int) =~= pairs_view(entries@));
    }
    found
}

impl<'a> KeyValues<'a> {
    /// The values of `key`, where the section holds the key.
    pub fn get(&self, key: &str) -> (r: Option<Vec<&'a str>>)
        ensures
            opt_list_view(r) == values_of(self@, key@),
    {
        proof {
            assert(Seq::<Pair>::empty() + self@ =~= self@);
        }
        collect_values(&self.entries, key, None, Ghost(Seq::empty()))
    }
}

/// Reads the keys and values of `text` from position `p` on; the second part
/// of the result is the position at which they end.
pub fn read_pairs<'a>(text: &'a str, s: &[char], p: usize) -> (r: (KeyValues<'a>, usize))
    requires
        s@ == text@,
        p <= s@.len(),
    ensures
        r.0@ == pairs(s@, p as int),
        r.1 == tokens_end(s@, p as int),
        p <= r.1 <= s@.len(),
{
    let mut entries: Vec<(&'a str, Option<&'a str>)> = Vec::new();
    let mut q: usize = p;
    proof {
        assert(pairs_view(entries@) + pairs(s@, q as int) =~= pairs(s@, p as int));
    }
    loop
        invariant
            s@ == text@,
            p <= q <= s@.len(),
            pairs(s@, p as int) == pairs_view(entries@) + pairs(s@, q as int),
            tokens_end(s@, p as int) == tokens_end(s@, q as int),
        decreases s@.len() - q,
    {
        proof {
            lemma_token_at(s@, q as int);
            lemma_tokens_end(s@, q as int);
        }
        match read_token(s, q) {
            Some(t) => {
                let ghost before = pairs_view(entries@);
                if s[t.start] != '#' {
                    let key = text.substring_char(t.start, t.key_end);
                    let value = match t.value {
                        Some((b, v)) => Some(text.substring_char(b, v)),
                        None => None,
                    };
                    entries.push((key, value));
                    proof {
                        assert(pairs_view(entries@) =~= before + seq![pair_of(s@, t@)]);
                    }
                }
                let next = scan(s, t.next, Class::Blank);
                proof {
                    assert(pairs(s@, p as int) =~= pairs_view(entries@) + pairs(s@, next as int));
                }
                q = next;
            },
            None => {
                proof {
                    assert(pairs(s@, p as int) =~= pairs_view(entries@));
                }
                return (KeyValues { entries }, q);
            },
        }
    }
}

/// Reads the keys and values at the start of `i`; the first part of the
/// result is what follows them.
pub fn key_value_map(i: &str) -> (r: (&str, KeyValues<'_>))
    ensures
        r.1@ == pairs(i@, 0),
        r.0@ == i@.skip(tokens_end(i@, 0)),
{
    let chars = chars_of(i);
    let s = chars.as_slice();
    let (map, end) = read_pairs(i, s, 0);
    let rest = i.substring_char(end, s.len());
    proof {
        assert(i@.skip(end as int) =~= i@.subrange(end as int, i@.len() as int));
    }
    (rest, map)
}

/// The keys and values of all the sections called `name`, in the order of
/// the text: sections of one name are one section.
pub open spec fn merged(cfg: Seq<Section>, name: Seq<char>) -> Seq<Pair>
    decreases cfg.len(),
{
    if cfg.len() == 0 {
        Seq::empty()
    } else if cfg.last().name == name {
        merged(cfg.drop_last(), name) + cfg.last().pairs
    } else {
        merged(cfg.drop_last(), name)
    }
}

/// The sections that a list of named key-value lists stands for.
pub open spec fn sections_view(v: Seq<(&str, KeyValues<'_>)>) -> Seq<Section> {
    v.map_values(|e: (&str, KeyValues<'_>)| Section { name: e.0@, pairs: e.1@ })
}

/// A configuration: its sections in the order of the text. What stands
/// before the first header is the first section, under the empty name.
#[derive(Debug)]
pub struct Config<'a> {
    pub sections: Vec<(&'a str, KeyValues<'a>)>,
}

impl<'a> View for Config<'a> {
    type V = Seq<Section>;

    open spec fn view(&self) -> Seq<Section> {
        sections_view(self.sections@)
    }
}

impl<'a> Config<'a> {
    /// The values that the sections called `section` give to `key`.
    pub fn get(&self, section: &str, key: &str) -> (r: Option<Vec<&'a str>>)
        ensures
            opt_list_view(r) == values_of(merged(self@, section@), key@),
    {
        let wanted = chars_of(section);
        let mut found: Option<Vec<&'a str>> = None;
        let mut i: usize = 0;
        proof {
            assert(self@.take(0) =~= Seq::empty());
        }
        while i < self.sections.len()
            invariant
                i <= self.sections@.len(),
                wanted@ == section@,
                opt_list_view(found) == values_of(merged(self@.take(i as int), section@), key@),
            decreases self.sections@.len() - i,
        {
            proof {
                assert(self@.take(i + 1).drop_last() =~= self@.take(i as int));
                assert(self@.take(i + 1).last() == self@[i as int]);
            }
            let name = chars_of(self.sections[i].0);
            if crate::text::same_text(name.as_slice(), wanted.as_slice()) {
                found = collect_values(
                    &self.sections[i].1.entries,
                    key,
                    found,
                    Ghost(merged(self@.take(i as int), section@)),
                );
            }
            i = i + 1;
        }
        proof {
            assert(self@.take(i as int) =~= self@);
        }
        found
    }
}

/// Reads a configuration text; the first part of the result is what follows
/// the last section.
pub fn sec_kv_map(i: &str) -> (r: (&str, Config<'_>))
    ensures
        r.1@ == config(i@),
        r.0@ == i@.skip(config_end(i@)),
{
    let chars = chars_of(i);
    let s = chars.as_slice();
    let (prelude, end) = read_pairs(i, s, 0);
    let mut list: Vec<(&str, KeyValues<'_>)> = Vec::new();
    let unnamed = i.substring_char(0, 0);
    list.push((unnamed, prelude));
    let mut p: usize = end;
    proof {
        assert(unnamed@ =~= Seq::empty());
        assert(sections_view(list@) =~= seq![
            Section { name: Seq::empty(), pairs: pairs(s@, 0) },
        ]);
    }
    loop
        invariant
            s@ == i@,
            p <= s@.len(),
            s@.len() <= usize::MAX,
            config(s@) == sections_view(list@) + sections(s@, p as int),
            config_end(s@) == sections_end(s@, p as int),
        decreases s@.len() - p,
    {
        match read_section(s, p) {
            Some(e) => {
                let name = i.substring_char(p + 1, e);
                let q = scan(s, e + 1, Class::Blank);
                let (map, end) = read_pairs(i, s, q);
                let ghost before = sections_view(list@);
                list.push((name, map));
                proof {
                    assert(sections_view(list@) =~= before + seq![
                        Section { name: s@.subrange(p + 1, e as int), pairs: pairs(s@, q as int) },
                    ]);
                    assert(config(s@) =~= sections_view(list@) + sections(s@, end as int));
                }
                p = end;
            },
            None => {
                proof {
                    assert(config(s@) =~= sections_view(list@));
                    assert(i@.skip(p as int) =~= i@.subrange(p as int, i@.len() as int));
                }
                let rest = i.substring_char(p, s.len());
                return (rest, Config { sections: list });
            },
        }
    }
}

} // verus!
