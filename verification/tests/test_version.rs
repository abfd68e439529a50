use libalpm_rs::db::compare::compare;
use libalpm_rs::db::order::{segment_less, text_less, version_less};
use libalpm_rs::db::version::segments_of;
use libalpm_rs::db::{versioncmp, versionparse, Segment, Version};
use libalpm_rs::text::{chars_of, find_last, parse_u64, scan, trim_bounds, Class};
use std::cmp::Ordering;

fn shape(s: &[Segment]) -> Vec<String> {
    s.iter()
        .map(|seg| match seg {
            Segment::Number(n) => format!("#{n}"),
            Segment::Text(t) => t.iter().collect::<String>(),
        })
        .collect()
}

fn parts(v: &str) -> (Option<u64>, Vec<String>, Option<Vec<String>>) {
    let Version { epoch, main, pkgrel } = versionparse(v).unwrap();
    (epoch, shape(&main), pkgrel.map(|r| shape(&r)))
}

fn strs(v: &[&str]) -> Vec<String> {
    v.iter().map(|s| s.to_string()).collect()
}

#[test]
fn version_is_decomposed() {
    assert_eq!(parts("1:2.0-3"), (Some(1), strs(&["#2", "#0"]), Some(strs(&["#3"]))));
    assert_eq!(parts("2025.Q1.2-1"), (None, strs(&["#2025", "Q", "#1", "#2"]), Some(strs(&["#1"]))));
    assert_eq!(parts("1.1b"), (None, strs(&["#1", "#1", "b"]), None));
    assert_eq!(parts("007"), (None, strs(&["#7"]), None));
    assert_eq!(parts("1-2-3"), (None, strs(&["#1", "#2"]), Some(strs(&["#3"]))));
    assert_eq!(parts("1.0+r5.gabc"), (None, strs(&["#1", "#0", "r", "#5", "gabc"]), None));
}

#[test]
fn epoch_needs_digits_that_fit() {
    assert_eq!(parts("18446744073709551615:1").0, Some(18446744073709551615));
    assert_eq!(
        parts("18446744073709551616:1"),
        (None, strs(&["18446744073709551616", "#1"]), None)
    );
    assert_eq!(parts("a:1"), (None, strs(&["a", "#1"]), None));
    assert_eq!(parts("1a:2"), (None, strs(&["#1", "a", "#2"]), None));
    assert_eq!(parts("0:1"), (Some(0), strs(&["#1"]), None));
    assert!(versionparse(":1").is_err());
}

#[test]
fn reading_stops_where_no_segment_starts() {
    assert_eq!(parts("1..2"), (None, strs(&["#1"]), None));
    assert_eq!(parts("1.0 beta"), (None, strs(&["#1", "#0", "beta"]), None));
    assert_eq!(parts("1é2"), (None, strs(&["#1"]), None));
    assert_eq!(parts("1–2"), (None, strs(&["#1", "#2"]), None));
    assert_eq!(parts("1٣2"), (None, strs(&["#1"]), None));
}

#[test]
fn versions_without_a_first_segment_are_rejected() {
    for v in ["", "-", "-1", "1-", "1.0-", ".1", "1:", "1:-2", "+", "é"] {
        assert!(versionparse(v).is_err(), "{v}");
    }
}

#[test]
fn numbers_stand_before_texts() {
    assert_eq!(versioncmp("1.1", "1.a"), Ordering::Less);
    assert_eq!(versioncmp("1.a", "1.1"), Ordering::Greater);
    assert_eq!(versioncmp("18446744073709551615", "18446744073709551616"), Ordering::Less);
    assert_eq!(versioncmp("a", "1"), Ordering::Greater);
}

#[test]
fn numbers_compare_by_value_and_texts_by_character() {
    assert_eq!(versioncmp("1.10", "1.9"), Ordering::Greater);
    assert_eq!(versioncmp("01", "1"), Ordering::Equal);
    assert_eq!(versioncmp("1.0a", "1.0b"), Ordering::Less);
    assert_eq!(versioncmp("a", "ab"), Ordering::Less);
    assert_eq!(versioncmp("B", "a"), Ordering::Less);
    assert_eq!(versioncmp("1.0", "1_0"), Ordering::Equal);
}

#[test]
fn shorter_list_stands_before_its_extension() {
    assert_eq!(versioncmp("1.0", "1.0.0"), Ordering::Less);
    assert_eq!(versioncmp("1.0.1", "1.0"), Ordering::Greater);
}

#[test]
fn epoch_comes_first_and_counts_zero_when_missing() {
    assert_eq!(versioncmp("1:0.1", "9.9"), Ordering::Greater);
    assert_eq!(versioncmp("0:1.0", "1.0"), Ordering::Equal);
    assert_eq!(versioncmp("1.0", "0:1.1"), Ordering::Less);
    assert_eq!(versioncmp("2:1", "10:0"), Ordering::Less);
}

#[test]
fn missing_pkgrel_stands_before_any() {
    assert_eq!(versioncmp("1.0", "1.0-1"), Ordering::Less);
    assert_eq!(versioncmp("1.0-1", "1.0"), Ordering::Greater);
    assert_eq!(versioncmp("1.0", "1.0"), Ordering::Equal);
    assert_eq!(versioncmp("1.0-2", "1.1-1"), Ordering::Less);
}

const SAMPLE: [&str; 16] = [
    "1", "1.0", "1.0-1", "1.0-2", "0:1.0", "1:0", "1.a", "1.1", "1.1b", "1.1b.1", "1.4", "a",
    "ab", "2025.Q1.2-1", "2025.Q1.2-2", "01.00",
];

#[test]
fn order_is_total_on_a_sample() {
    for a in SAMPLE {
        assert_eq!(versioncmp(a, a), Ordering::Equal);
        for b in SAMPLE {
            let ab = versioncmp(a, b);
            assert_eq!(ab, versioncmp(b, a).reverse(), "{a} {b}");
            for c in SAMPLE {
                let bc = versioncmp(b, c);
                if ab != Ordering::Greater && bc != Ordering::Greater {
                    assert_ne!(versioncmp(a, c), Ordering::Greater, "{a} {b} {c}");
                }
                if ab == Ordering::Equal {
                    assert_eq!(versioncmp(a, c), bc, "{a} {b} {c}");
                }
            }
        }
    }
}

#[test]
fn decomposed_versions_compare_like_their_texts() {
    for a in SAMPLE {
        for b in SAMPLE {
            let (va, vb) = (versionparse(a).unwrap(), versionparse(b).unwrap());
            assert_eq!(compare(&va, &vb), versioncmp(a, b));
            assert_eq!(version_less(&va, &vb), versioncmp(a, b) == Ordering::Less);
        }
    }
}

#[test]
fn segments_and_texts_are_ordered() {
    let a: Vec<char> = "abc".chars().collect();
    let b: Vec<char> = "abd".chars().collect();
    assert!(text_less(&a, &b));
    assert!(!text_less(&b, &a));
    assert!(!text_less(&a, &a));
    assert!(text_less(&[], &a));
    assert!(segment_less(&Segment::Number(u64::MAX), &Segment::Text(vec!['0'])));
    assert!(!segment_less(&Segment::Text(vec!['0']), &Segment::Number(0)));
    assert!(segment_less(&Segment::Number(3), &Segment::Number(4)));
    assert_eq!(shape(&segments_of(&chars_of("12ab.3"))), strs(&["#12", "ab", "#3"]));
}

#[test]
fn characters_are_scanned() {
    let s = chars_of("ab12 \t\n;=x");
    assert_eq!(s.len(), 10);
    assert_eq!(scan(&s, 0, Class::Letter), 2);
    assert_eq!(scan(&s, 0, Class::Digit), 0);
    assert_eq!(scan(&s, 2, Class::Digit), 4);
    assert_eq!(scan(&s, 0, Class::Alnum), 4);
    assert_eq!(scan(&s, 4, Class::Space), 5);
    assert_eq!(scan(&s, 4, Class::Blank), 7);
    assert_eq!(scan(&s, 4, Class::White), 7);
    assert_eq!(scan(&s, 0, Class::Word), 4);
    assert_eq!(scan(&s, 0, Class::Line), 6);
    assert_eq!(scan(&s, 0, Class::Value), 6);
    assert_eq!(scan(&s, 6, Class::Trailer), 8);
    assert_eq!(scan(&s, 0, Class::Label), 10);
    assert_eq!(scan(&s, 10, Class::Label), 10);
    assert_eq!(chars_of("é–"), vec!['é', '–']);
}

#[test]
fn numbers_are_read() {
    assert_eq!(parse_u64(&chars_of("0")), Some(0));
    assert_eq!(parse_u64(&chars_of("0042")), Some(42));
    assert_eq!(parse_u64(&chars_of("18446744073709551615")), Some(u64::MAX));
    assert_eq!(parse_u64(&chars_of("18446744073709551616")), None);
    assert_eq!(parse_u64(&chars_of("99999999999999999999999")), None);
    assert_eq!(parse_u64(&chars_of("")), None);
    assert_eq!(parse_u64(&chars_of("1a")), None);
    assert_eq!(parse_u64(&chars_of("+1")), None);
    assert_eq!(parse_u64(&chars_of("٣")), None);
}

#[test]
fn text_is_searched_and_trimmed() {
    assert_eq!(find_last(&chars_of("a-b-c"), '-'), Some(3));
    assert_eq!(find_last(&chars_of("abc"), '-'), None);
    assert_eq!(trim_bounds(&chars_of("  a b \n")), (2, 5));
    assert_eq!(trim_bounds(&chars_of(" \u{a0} ")), (3, 3));
    assert_eq!(trim_bounds(&chars_of("")), (0, 0));
    assert_eq!(trim_bounds(&chars_of("x")), (0, 1));
}
