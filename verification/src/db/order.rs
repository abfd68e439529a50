//! The order on decomposed versions, and its laws.

use crate::db::version::{segments_view, Segment, SegmentView, Version, VersionView};
use vstd::prelude::*;

verus! {

/// The strict lexicographic order on texts, character by character; a text
/// stands before every longer text that starts with it.
pub open spec fn text_lt(a: Seq<char>, b: Seq<char>) -> bool
    decreases a.len(),
{
    if b.len() == 0 {
        false
    } else if a.len() == 0 {
        true
    } else if a[0] != b[0] {
        a[0] < b[0]
    } else {
        text_lt(a.skip(1), b.skip(1))
    }
}

/// The strict order on segments: numbers among themselves by value, texts
/// among themselves by `text_lt`, and every number before every text.
pub open spec fn segment_lt(a: SegmentView, b: SegmentView) -> bool {
    match (a, b) {
        (SegmentView::Number(x), SegmentView::Number(y)) => x < y,
        (SegmentView::Number(_), SegmentView::Text(_)) => true,
        (SegmentView::Text(_), SegmentView::Number(_)) => false,
        (SegmentView::Text(s), SegmentView::Text(t)) => text_lt(s, t),
    }
}

/// The strict lexicographic order on lists of segments; a list stands before
/// every longer list that starts with it.
pub open spec fn segments_lt(a: Seq<SegmentView>, b: Seq<SegmentView>) -> bool
    decreases a.len(),
{
    if b.len() == 0 {
        false
    } else if a.len() == 0 {
        true
    } else if a[0] != b[0] {
        segment_lt(a[0], b[0])
    } else {
        segments_lt(a.skip(1), b.skip(1))
    }
}

/// The strict order on the parts after the hyphen: a version without one
/// stands before every version with one.
pub open spec fn pkgrel_lt(a: Option<Seq<SegmentView>>, b: Option<Seq<SegmentView>>) -> bool {
    match (a, b) {
        (None, Some(_)) => true,
        (Some(x), Some(y)) => segments_lt(x, y),
        _ => false,
    }
}

/// The number an epoch counts for: a missing epoch counts for zero.
pub open spec fn epoch_value(e: Option<u64>) -> u64 {
    match e {
        Some(n) => n,
        None => 0,
    }
}

/// The strict order on versions: by epoch, then by the main part, then by the
/// part after the hyphen.
pub open spec fn version_lt(a: VersionView, b: VersionView) -> bool {
    let ea = epoch_value(a.epoch);
    let eb = epoch_value(b.epoch);
    ea < eb || (ea == eb && (segments_lt(a.main, b.main) || (a.main == b.main && pkgrel_lt(
        a.pkgrel,
        b.pkgrel,
    ))))
}

/// Two versions hold the same place in the order.
pub open spec fn version_eq(a: VersionView, b: VersionView) -> bool {
    epoch_value(a.epoch) == epoch_value(b.epoch) && a.main == b.main && a.pkgrel == b.pkgrel
}

/// `a` stands before `b` or in its place.
pub open spec fn version_le(a: VersionView, b: VersionView) -> bool {
    !version_lt(b, a)
}

pub proof fn lemma_text_lt_irreflexive(a: Seq<char>)
    ensures
        !text_lt(a, a),
    decreases a.len(),
{
    if a.len() > 0 {
        lemma_text_lt_irreflexive(a.skip(1));
    }
}

pub proof fn lemma_text_lt_transitive(a: Seq<char>, b: Seq<char>, c: Seq<char>)
    requires
        text_lt(a, b),
        text_lt(b, c),
    ensures
        text_lt(a, c),
    decreases a.len(),
{
    if a.len() > 0 && a[0] == b[0] && b[0] == c[0] {
        lemma_text_lt_transitive(a.skip(1), b.skip(1), c.skip(1));
    }
}

/// Of two different texts one stands before the other.
pub proof fn lemma_text_lt_connected(a: Seq<char>, b: Seq<char>)
    requires
        !text_lt(a, b),
        !text_lt(b, a),
    ensures
        a == b,
    decreases a.len(),
{
    if a.len() > 0 && b.len() > 0 {
        lemma_text_lt_connected(a.skip(1), b.skip(1));
        assert(a =~= seq![a[0]] + a.skip(1));
        assert(b =~= seq![b[0]] + b.skip(1));
    } else {
        assert(a =~= b);
    }
}

pub proof fn lemma_segment_lt_irreflexive(a: SegmentView)
    ensures
        !segment_lt(a, a),
{
    if let SegmentView::Text(s) = a {
        lemma_text_lt_irreflexive(s);
    }
}

pub proof fn lemma_segment_lt_transitive(a: SegmentView, b: SegmentView, c: SegmentView)
    requires
        segment_lt(a, b),
        segment_lt(b, c),
    ensures
        segment_lt(a, c),
{
    match (a, b, c) {
        (SegmentView::Text(s), SegmentView::Text(t), SegmentView::Text(u)) => {
            lemma_text_lt_transitive(s, t, u);
        },
        _ => {},
    }
}

/// Of two different segments one stands before the other.
pub proof fn lemma_segment_lt_connected(a: SegmentView, b: SegmentView)
    requires
        !segment_lt(a, b),
        !segment_lt(b, a),
    ensures
        a == b,
{
    match (a, b) {
        (SegmentView::Text(s), SegmentView::Text(t)) => {
            lemma_text_lt_connected(s, t);
        },
        _ => {},
    }
}

pub proof fn lemma_segments_lt_irreflexive(a: Seq<SegmentView>)
    ensures
        !segments_lt(a, a),
    decreases a.len(),
{
    if a.len() > 0 {
        lemma_segments_lt_irreflexive(a.skip(1));
    }
}

pub proof fn lemma_segments_lt_transitive(
    a: Seq<SegmentView>,
    b: Seq<SegmentView>,
    c: Seq<SegmentView>,
)
    requires
        segments_lt(a, b),
        segments_lt(b, c),
    ensures
        segments_lt(a, c),
    decreases a.len(),
{
    if a.len() > 0 {
        if a[0] == b[0] && b[0] == c[0] {
            lemma_segments_lt_transitive(a.skip(1), b.skip(1), c.skip(1));
        } else if a[0] != b[0] && b[0] != c[0] {
            lemma_segment_lt_transitive(a[0], b[0], c[0]);
            lemma_segment_lt_irreflexive(a[0]);
        }
    }
}

/// Of two different lists of segments one stands before the other.
pub proof fn lemma_segments_lt_connected(a: Seq<SegmentView>, b: Seq<SegmentView>)
    requires
        !segments_lt(a, b),
        !segments_lt(b, a),
    ensures
        a == b,
    decreases a.len(),
{
    if a.len() > 0 && b.len() > 0 {
        if a[0] != b[0] {
            lemma_segment_lt_connected(a[0], b[0]);
        }
        lemma_segments_lt_connected(a.skip(1), b.skip(1));
        assert(a =~= seq![a[0]] + a.skip(1));
        assert(b =~= seq![b[0]] + b.skip(1));
    } else {
        assert(a =~= b);
    }
}

/// No version stands before itself.
pub proof fn lemma_version_lt_irreflexive(a: VersionView)
    ensures
        !version_lt(a, a),
{
    lemma_segments_lt_irreflexive(a.main);
    if let Some(r) = a.pkgrel {
        lemma_segments_lt_irreflexive(r);
    }
}

/// Where `a` stands before `b` and `b` before `c`, `a` stands before `c`.
pub proof fn lemma_version_lt_transitive(a: VersionView, b: VersionView, c: VersionView)
    requires
        version_lt(a, b),
        version_lt(b, c),
    ensures
        version_lt(a, c),
{
    if epoch_value(a.epoch) == epoch_value(b.epoch) && epoch_value(b.epoch) == epoch_value(
        c.epoch,
    ) {
        if segments_lt(a.main, b.main) && segments_lt(b.main, c.main) {
            lemma_segments_lt_transitive(a.main, b.main, c.main);
        } else if a.main == b.main && b.main == c.main {
            match (a.pkgrel, b.pkgrel, c.pkgrel) {
                (Some(x), Some(y), Some(z)) => {
                    lemma_segments_lt_transitive(x, y, z);
                },
                _ => {},
            }
        }
    }
}

/// Of two versions exactly one of these holds: the first stands before the
/// second, the two hold the same place, the second stands before the first.
pub proof fn lemma_version_trichotomy(a: VersionView, b: VersionView)
    ensures
        version_lt(a, b) || version_eq(a, b) || version_lt(b, a),
        !(version_lt(a, b) && version_eq(a, b)),
        !(version_lt(b, a) && version_eq(a, b)),
        !(version_lt(a, b) && version_lt(b, a)),
{
    lemma_version_lt_irreflexive(a);
    lemma_version_lt_irreflexive(b);
    if version_lt(a, b) && version_lt(b, a) {
        lemma_version_lt_transitive(a, b, a);
    }
    if !version_lt(a, b) && !version_lt(b, a) {
        lemma_segments_lt_connected(a.main, b.main);
        match (a.pkgrel, b.pkgrel) {
            (Some(x), Some(y)) => {
                lemma_segments_lt_connected(x, y);
            },
            _ => {},
        }
    }
    if version_eq(a, b) {
        lemma_segments_lt_irreflexive(a.main);
        if let Some(r) = a.pkgrel {
            lemma_segments_lt_irreflexive(r);
        }
    }
}

/// The order is reflexive: every version stands in its own place.
pub proof fn lemma_version_le_reflexive(a: VersionView)
    ensures
        version_le(a, a),
{
    lemma_version_lt_irreflexive(a);
}

/// The order is antisymmetric: two versions of which each stands before the
/// other or in its place hold the same place.
pub proof fn lemma_version_le_antisymmetric(a: VersionView, b: VersionView)
    requires
        version_le(a, b),
        version_le(b, a),
    ensures
        version_eq(a, b),
{
    lemma_version_trichotomy(a, b);
}

/// The order is transitive.
pub proof fn lemma_version_le_transitive(a: VersionView, b: VersionView, c: VersionView)
    requires
        version_le(a, b),
        version_le(b, c),
    ensures
        version_le(a, c),
{
    lemma_version_trichotomy(a, b);
    lemma_version_trichotomy(b, c);
    if version_lt(c, a) {
        if version_lt(a, b) {
            lemma_version_lt_transitive(c, a, b);
        } else if version_lt(b, c) {
            lemma_version_lt_transitive(b, c, a);
        }
    }
}

/// The order is total: of two versions one stands before the other or in
/// its place.
pub proof fn lemma_version_le_total(a: VersionView, b: VersionView)
    ensures
        version_le(a, b) || version_le(b, a),
{
    lemma_version_trichotomy(a, b);
}

/// Decides `text_lt`.
pub fn text_less(a: &[char], b: &[char]) -> (r: bool)
    ensures
        r == text_lt(a@, b@),
{
    let mut i: usize = 0;
    proof {
        assert(a@.skip(0) =~= a@);
        assert(b@.skip(0) =~= b@);
    }
    while i < a.len() && i < b.len()
        invariant
            i <= a@.len(),
            i <= b@.len(),
            text_lt(a@, b@) == text_lt(a@.skip(i as int), b@.skip(i as int)),
        decreases a@.len() - i,
    {
        let x = a[i];
        let y = b[i];
        proof {
            assert(a@.skip(i as int)[0] == x);
            assert(b@.skip(i as int)[0] == y);
        }
        if x != y {
            return x < y;
        }
        proof {
            assert(a@.skip(i as int).skip(1) =~= a@.skip(i + 1));
            assert(b@.skip(i as int).skip(1) =~= b@.skip(i + 1));
        }
        i = i + 1;
    }
    i < b.len()
}

/// Decides `segment_lt`.
pub fn segment_less(a: &Segment, b: &Segment) -> (r: bool)
    ensures
        r == segment_lt(a@, b@),
{
    match (a, b) {
        (Segment::Number(x), Segment::Number(y)) => *x < *y,
        (Segment::Number(_), Segment::Text(_)) => true,
        (Segment::Text(_), Segment::Number(_)) => false,
        (Segment::Text(s), Segment::Text(t)) => text_less(s.as_slice(), t.as_slice()),
    }
}

/// Decides `segments_lt`.
pub fn segments_less(a: &[Segment], b: &[Segment]) -> (r: bool)
    ensures
        r == segments_lt(segments_view(a@), segments_view(b@)),
{
    let ghost va = segments_view(a@);
    let ghost vb = segments_view(b@);
    let mut i: usize = 0;
    proof {
        assert(va.skip(0) =~= va);
        assert(vb.skip(0) =~= vb);
    }
    while i < a.len() && i < b.len()
        invariant
            va == segments_view(a@),
            vb == segments_view(b@),
            i <= a@.len(),
            i <= b@.len(),
            segments_lt(va, vb) == segments_lt(va.skip(i as int), vb.skip(i as int)),
        decreases a@.len() - i,
    {
        if segment_less(&a[i], &b[i]) {
            proof {
                lemma_segment_lt_irreflexive(a@[i as int]@);
            }
            return true;
        }
        if segment_less(&b[i], &a[i]) {
            proof {
                lemma_segment_lt_irreflexive(a@[i as int]@);
            }
            return false;
        }
        proof {
            lemma_segment_lt_connected(a@[i as int]@, b@[i as int]@);
            assert(va.skip(i as int).skip(1) =~= va.skip(i + 1));
            assert(vb.skip(i as int).skip(1) =~= vb.skip(i + 1));
        }
        i = i + 1;
    }
    i < b.len()
}

/// Decides `version_lt`.
pub fn version_less(a: &Version, b: &Version) -> (r: bool)
    ensures
        r == version_lt(a@, b@),
{
    let ea: u64 = match a.epoch {
        Some(n) => n,
        None => 0,
    };
    let eb: u64 = match b.epoch {
        Some(n) => n,
        None => 0,
    };
    if ea != eb {
        return ea < eb;
    }
    if segments_less(a.main.as_slice(), b.main.as_slice()) {
        return true;
    }
    if segments_less(b.main.as_slice(), a.main.as_slice()) {
        proof {
            lemma_segments_lt_irreflexive(a@.main);
        }
        return false;
    }
    proof {
        lemma_segments_lt_connected(a@.main, b@.main);
    }
    match (&a.pkgrel, &b.pkgrel) {
        (None, Some(_)) => true,
        (Some(x), Some(y)) => segments_less(x.as_slice(), y.as_slice()),
        _ => false,
    }
}

} // verus!
