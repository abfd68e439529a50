use libalpm_rs::db::{versioncmp, versionparse, Segment, Version};
use std::cmp::Ordering;

#[test]
fn test_basic() {
    assert_eq!(versioncmp("1.4", "1.1b"), Ordering::Greater);

    assert_eq!(versioncmp("1.4", "1.1b.1"), Ordering::Greater);

    assert_eq!(vec![0, 0, 0].cmp(&vec![0, 0]), Ordering::Greater);

    assert_eq!(versioncmp("0.15.1-2", "0.15.1b-10"), Ordering::Less);
}

#[test]
fn test_version() {
    let v1 = "2025.Q1.2-1";
    let Version { epoch, main: version, pkgrel: release } = versionparse(v1).unwrap();
    println!("{epoch:?} {version:?} {release:?}");
    assert!(epoch.is_none());
    assert_eq!(version.len(), 4);
    println!("{version:?}");
    assert!(release.is_some());
}

#[test]
fn pkgrel_decides_between_equal_main_parts() {
    assert_eq!(versioncmp("2025.Q1.2-1", "2025.Q1.2-2"), Ordering::Less);
    assert_eq!(versioncmp("2025.Q1.2-2", "2025.Q1.2-1"), Ordering::Greater);
    assert_eq!(versioncmp("2025.Q1.2-1", "2025.Q1.2-1"), Ordering::Equal);
}

fn spelled(v: &[Segment]) -> String {
    v.iter()
        .map(|s| match s {
            Segment::Number(n) => n.to_string(),
            Segment::Text(t) => t.iter().collect(),
        })
        .collect()
}

#[test]
fn segments_keep_the_letters_and_digits() {
    for v in ["2025.Q1.2-1", "1:1.0.r5.gabcdef-2", "0.15.1b-10", "6.12.arch1-1", "20240101-3"] {
        let Version { epoch, main, pkgrel } = versionparse(v).unwrap();
        let mut s = epoch.map(|e| format!("{e}:")).unwrap_or_default();
        s.push_str(&spelled(&main));
        if let Some(r) = pkgrel {
            s.push_str(&spelled(&r));
        }
        // leading zeros are not kept, nor are the separators
        let kept: String = s.chars().filter(|c| c.is_alphanumeric() && *c != '0').collect();
        let given: String = v.chars().filter(|c| c.is_alphanumeric() && *c != '0').collect();
        assert_eq!(kept, given);
    }
}
