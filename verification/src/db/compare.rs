//! Three-way comparison of versions.

use crate::db::order::{lemma_version_trichotomy, version_eq, version_less, version_lt};
use crate::db::version::{parse_version, versionparse, Version};
use std::cmp::Ordering;
use vstd::prelude::*;

verus! {

/// Compares two decomposed versions.
pub fn compare(a: &Version, b: &Version) -> (r: Ordering)
    ensures
        r == Ordering::Less <==> version_lt(a@, b@),
        r == Ordering::Equal <==> version_eq(a@, b@),
        r == Ordering::Greater <==> version_lt(b@, a@),
{
    proof {
        lemma_version_trichotomy(a@, b@);
    }
    if version_less(a, b) {
        Ordering::Less
    } else if version_less(b, a) {
        Ordering::Greater
    } else {
        Ordering::Equal
    }
}

/// Compares two version strings that both decompose.
pub fn versioncmp(a: &str, b: &str) -> (r: Ordering)
    requires
        parse_version(a@) is Some,
        parse_version(b@) is Some,
    ensures
        r == Ordering::Less <==> version_lt(parse_version(a@).unwrap(), parse_version(b@).unwrap()),
        r == Ordering::Equal <==> version_eq(
            parse_version(a@).unwrap(),
            parse_version(b@).unwrap(),
        ),
        r == Ordering::Greater <==> version_lt(
            parse_version(b@).unwrap(),
            parse_version(a@).unwrap(),
        ),
{
    match (versionparse(a), versionparse(b)) {
        (Ok(va), Ok(vb)) => compare(&va, &vb),
        _ => Ordering::Equal,
    }
}

} // verus!
