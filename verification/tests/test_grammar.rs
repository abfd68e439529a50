use libalpm_rs::config::parse::{key_value_map, kv, sec_kv_map, section};
use libalpm_rs::db::desc::parse_to_map;
use libalpm_rs::db::{versionparse, Segment};
use nom::branch::alt;
use nom::bytes::complete::{tag, take_until, take_while, take_while1};
use nom::character::complete::{
    alpha1, alphanumeric1, char, digit1, multispace0, newline, satisfy,
};
use nom::combinator::{iterator, opt, recognize};
use nom::multi::{many0, many1, separated_list0};
use nom::sequence::{delimited, pair, terminated};
use nom::{IResult, Parser};
use std::str::FromStr;

// The grammars of the library, written once more with parser combinators.
// The tests below hold the two against each other on every short text over
// a small alphabet.

fn c_section(i: &str) -> IResult<&str, &str> {
    delimited(char('['), take_until("]"), char(']')).parse(i)
}

fn c_kv(i: &str) -> IResult<&str, (&str, Option<&str>)> {
    let (i, name) = recognize(alt((
        alphanumeric1,
        delimited(char('#'), take_while(|c| c != '\n'), char('\n')),
    )))
    .parse(i)?;
    if name.starts_with('#') {
        return Ok((i, (name, None)));
    }
    let eq = (many0(char(' ')), char('='), many0(char(' ')));
    let value = take_while1(|c| c != '\n' && c != ';');
    let trailer = take_while(|c| c == '\n' || c == ';');
    let (i, val) = opt((eq, value, trailer)).parse(i)?;
    Ok((i, (name, val.map(|(_, v, _)| v))))
}

fn c_pairs(i: &str) -> (&str, Vec<(&str, Option<&str>)>) {
    let mut it = iterator(i, terminated(c_kv, opt(multispace0)));
    let pairs: Vec<_> = it.by_ref().filter(|(n, _)| !n.starts_with('#')).collect();
    let (rest, ()) = it.finish().unwrap();
    (rest, pairs)
}

fn c_sections(i: &str) -> (&str, Vec<(&str, Vec<(&str, Option<&str>)>)>) {
    let (mut rest, prelude) = c_pairs(i);
    let mut all = vec![("", prelude)];
    while let Ok((after, name)) = terminated(c_section, opt(multispace0)).parse(rest) {
        let (after, pairs) = c_pairs(after);
        all.push((name, pairs));
        rest = after;
    }
    (rest, all)
}

fn c_entry(i: &str) -> IResult<&str, (&str, &str)> {
    let header = delimited(char('%'), alphanumeric1, pair(char('%'), newline));
    (header, take_until("\n\n")).parse(i)
}

fn c_descriptor(i: &str) -> Option<Vec<(&str, &str)>> {
    let (rest, entries) = separated_list0(tag("\n\n"), c_entry).parse(i).ok()?;
    if rest == "\n\n" {
        Some(entries)
    } else {
        None
    }
}

type Parts<'v> = (Option<u64>, Vec<Result<&'v str, u64>>, Option<Vec<Result<&'v str, u64>>>);

fn c_segments(i: &str) -> IResult<&str, Vec<Result<&str, u64>>, ()> {
    many1(
        terminated(alt((alpha1, digit1)), opt(satisfy(|c| !c.is_alphanumeric()))).map(
            |segment| match u64::from_str(segment) {
                Ok(n) => Err(n),
                Err(_) => Ok(segment),
            },
        ),
    )
    .parse(i)
}

fn c_epoch(i: &str) -> IResult<&str, Option<u64>, ()> {
    let epoch = (take_while(|c: char| c.is_numeric()), char(':'))
        .map(|i: (&str, char)| i.0)
        .map_res(u64::from_str);
    opt(epoch).parse(i)
}

fn c_version(i: &str) -> Option<Parts<'_>> {
    let (i, epoch) = c_epoch(i).ok()?;
    let (pre, post) = match i.rsplit_once('-') {
        Some((pre, post)) => (pre, Some(post)),
        None => (i, None),
    };
    let (_, version) = c_segments(pre).ok()?;
    let release = match post {
        Some(p) => Some(c_segments(p).ok()?.1),
        None => None,
    };
    Some((epoch, version, release))
}

fn texts(alphabet: &[char], longest: usize) -> Vec<String> {
    let mut all = vec![String::new()];
    let mut last = vec![String::new()];
    for _ in 0..longest {
        let mut next = Vec::new();
        for s in &last {
            for c in alphabet {
                let mut t = s.clone();
                t.push(*c);
                next.push(t);
            }
        }
        all.extend(next.iter().cloned());
        last = next;
    }
    all
}

#[test]
fn section_agrees_with_the_combinators() {
    for t in texts(&['[', ']', 'a', '\n', ' '], 6) {
        assert_eq!(section(&t).ok(), c_section(&t).ok(), "{t:?}");
    }
}

#[test]
fn kv_agrees_with_the_combinators() {
    for t in texts(&['a', '1', '=', ' ', ';', '\n', '#'], 6) {
        assert_eq!(kv(&t).ok(), c_kv(&t).ok(), "{t:?}");
    }
}

#[test]
fn key_value_map_agrees_with_the_combinators() {
    for t in texts(&['a', 'b', '=', ' ', ';', '\n', '#', '\t'], 6) {
        let (rest, map) = key_value_map(&t);
        assert_eq!((rest, map.entries), c_pairs(&t), "{t:?}");
    }
}

#[test]
fn sec_kv_map_agrees_with_the_combinators() {
    for t in texts(&['a', '=', ';', '\n', '#', '[', ']'], 7) {
        let (rest, cfg) = sec_kv_map(&t);
        let sections: Vec<_> = cfg.sections.into_iter().map(|(n, m)| (n, m.entries)).collect();
        assert_eq!((rest, sections), c_sections(&t), "{t:?}");
    }
}

#[test]
fn descriptor_agrees_with_the_combinators() {
    for t in texts(&['%', 'A', '\n', 'x'], 10) {
        let entries = parse_to_map(&t)
            .ok()
            .map(|d| (0..d.len()).map(|k| (d.key(k), d.value(k))).collect::<Vec<_>>());
        assert_eq!(entries, c_descriptor(&t), "{t:?}");
    }
}

fn plain(v: &[Segment]) -> Vec<Result<String, u64>> {
    v.iter()
        .map(|s| match s {
            Segment::Number(n) => Err(*n),
            Segment::Text(t) => Ok(t.iter().collect()),
        })
        .collect()
}

fn owned(v: &[Result<&str, u64>]) -> Vec<Result<String, u64>> {
    v.iter().map(|s| s.map(|t| t.to_string())).collect()
}

fn same_parts(t: &str) {
    let ours = versionparse(t).ok().map(|v| (v.epoch, plain(&v.main), v.pkgrel.map(|r| plain(&r))));
    let theirs = c_version(t).map(|(e, m, r)| (e, owned(&m), r.map(|r| owned(&r))));
    assert_eq!(ours, theirs, "{t:?}");
}

#[test]
fn versionparse_agrees_with_the_combinators() {
    for t in texts(&['1', '0', 'a', 'B', ':', '-', '.', 'é', '٣'], 6) {
        same_parts(&t);
    }
    for t in [
        "18446744073709551615:18446744073709551615-18446744073709551615",
        "18446744073709551616:18446744073709551616-18446744073709551616",
        "000000000000000000000000000001:0",
        "2025.Q1.2-1",
        "1.0.r5.gabcdef+dfsg~rc1-2.1",
        "1:2:3-4-5",
        "１２３",
        "1\u{a0}2\u{2013}3",
    ] {
        same_parts(t);
    }
}
