//! Ordering of PEP 440 style versions, and the laws it obeys.
use vstd::prelude::*;
use std::cmp::Ordering;
use crate::pypi_key::{
    comparable_pypi_version, public_part, pypi_key, pypi_version_ok, release_of, PypiKeyModel,
    PypiReleasePhase,
    PypiVersionKey,
};

verus! {

/// -1, 0 or 1 as `a` is below, equal to or above `b`.
pub open spec fn order_u64(a: u64, b: u64) -> int {
    if a < b {
        -1
    } else if a > b {
        1
    } else {
        0
    }
}

/// Lexicographic order of release segments (a proper prefix is smaller).
pub open spec fn order_release(a: Seq<u64>, b: Seq<u64>) -> int
    decreases a.len(),
{
    if a.len() == 0 {
        if b.len() == 0 {
            0
        } else {
            -1
        }
    } else if b.len() == 0 {
        1
    } else if a[0] != b[0] {
        order_u64(a[0], b[0])
    } else {
        order_release(a.drop_first(), b.drop_first())
    }
}

pub open spec fn phase_rank(p: PypiReleasePhase) -> int {
    match p {
        PypiReleasePhase::Dev(_) => 0,
        PypiReleasePhase::Alpha(_) => 1,
        PypiReleasePhase::Beta(_) => 2,
        PypiReleasePhase::Rc(_) => 3,
        PypiReleasePhase::Final => 4,
    }
}

pub open spec fn phase_number(p: PypiReleasePhase) -> u64 {
    match p {
        PypiReleasePhase::Dev(n) => n,
        PypiReleasePhase::Alpha(n) => n,
        PypiReleasePhase::Beta(n) => n,
        PypiReleasePhase::Rc(n) => n,
        PypiReleasePhase::Final => 0,
    }
}

/// dev < alpha < beta < rc < final, then by number.
pub open spec fn order_phase(a: PypiReleasePhase, b: PypiReleasePhase) -> int {
    if phase_rank(a) < phase_rank(b) {
        -1
    } else if phase_rank(a) > phase_rank(b) {
        1
    } else {
        order_u64(phase_number(a), phase_number(b))
    }
}

/// No post release is below any post release.
pub open spec fn order_post(a: Option<u64>, b: Option<u64>) -> int {
    match (a, b) {
        (None, None) => 0,
        (None, Some(_)) => -1,
        (Some(_), None) => 1,
        (Some(x), Some(y)) => order_u64(x, y),
    }
}

/// The order of keys: epoch, then release, then phase, then post release.
pub open spec fn key_order(a: PypiKeyModel, b: PypiKeyModel) -> int {
    if a.epoch != b.epoch {
        order_u64(a.epoch, b.epoch)
    } else if order_release(a.release, b.release) != 0 {
        order_release(a.release, b.release)
    } else if order_phase(a.phase, b.phase) != 0 {
        order_phase(a.phase, b.phase)
    } else {
        order_post(a.post, b.post)
    }
}

/// The order of two version strings whose keys can be computed.
pub open spec fn version_order(a: Seq<char>, b: Seq<char>) -> int {
    key_order(pypi_key(a).unwrap(), pypi_key(b).unwrap())
}

pub open spec fn ordering_value(o: Ordering) -> int {
    match o {
        Ordering::Less => -1,
        Ordering::Equal => 0,
        Ordering::Greater => 1,
    }
}

// ---------------------------------------------------------------------------
// Laws
// ---------------------------------------------------------------------------

proof fn lemma_release_antisymmetric(a: Seq<u64>, b: Seq<u64>)
    ensures
        order_release(a, b) == -order_release(b, a),
        order_release(a, b) == 0 <==> a == b,
        -1 <= order_release(a, b) <= 1,
    decreases a.len(),
{
    if a.len() > 0 && b.len() > 0 {
        if a[0] == b[0] {
            lemma_release_antisymmetric(a.drop_first(), b.drop_first());
            if a.drop_first() == b.drop_first() {
                assert(a =~= seq![a[0]] + a.drop_first());
                assert(b =~= seq![b[0]] + b.drop_first());
            }
        }
    } else if a.len() == 0 && b.len() == 0 {
        assert(a =~= b);
    }
}

proof fn lemma_release_transitive(a: Seq<u64>, b: Seq<u64>, c: Seq<u64>)
    ensures
        order_release(a, b) < 0 && order_release(b, c) < 0 ==> order_release(a, c) < 0,
        order_release(a, b) <= 0 && order_release(b, c) <= 0 ==> order_release(a, c) <= 0,
    decreases a.len(),
{
    lemma_release_antisymmetric(a, b);
    lemma_release_antisymmetric(b, c);
    lemma_release_antisymmetric(a, c);
    if a.len() > 0 && b.len() > 0 && c.len() > 0 {
        lemma_release_transitive(a.drop_first(), b.drop_first(), c.drop_first());
    }
}

/// Comparing two keys one way gives the reverse of comparing them the other
/// way, and keys compare equal exactly when they are the same key.
pub proof fn lemma_key_order_antisymmetric(a: PypiKeyModel, b: PypiKeyModel)
    ensures
        key_order(a, b) == -key_order(b, a),
        key_order(a, b) == 0 <==> a == b,
        -1 <= key_order(a, b) <= 1,
{
    lemma_release_antisymmetric(a.release, b.release);
    if key_order(a, b) == 0 {
        assert(a.phase == b.phase) by {
            match a.phase {
                PypiReleasePhase::Dev(_) => {},
                PypiReleasePhase::Alpha(_) => {},
                PypiReleasePhase::Beta(_) => {},
                PypiReleasePhase::Rc(_) => {},
                PypiReleasePhase::Final => {
                    assert(b.phase is Final);
                },
            }
        }
    }
}

/// The order of keys is transitive.
pub proof fn lemma_key_order_transitive(a: PypiKeyModel, b: PypiKeyModel, c: PypiKeyModel)
    ensures
        key_order(a, b) < 0 && key_order(b, c) < 0 ==> key_order(a, c) < 0,
        key_order(a, b) <= 0 && key_order(b, c) <= 0 ==> key_order(a, c) <= 0,
{
    lemma_release_transitive(a.release, b.release, c.release);
    lemma_release_antisymmetric(a.release, b.release);
    lemma_release_antisymmetric(b.release, c.release);
    lemma_release_antisymmetric(a.release, c.release);
    lemma_key_order_antisymmetric(a, b);
    lemma_key_order_antisymmetric(b, c);
    lemma_key_order_antisymmetric(a, c);
}

/// `compare_pypi_versions(a, b)` is the reverse of `compare_pypi_versions(b, a)`,
/// and a version compares equal to itself.
pub proof fn compare_pypi_versions_antisymmetric(a: Seq<char>, b: Seq<char>)
    requires
        pypi_version_ok(a),
        pypi_version_ok(b),
    ensures
        version_order(a, b) == -version_order(b, a),
        version_order(a, a) == 0,
{
    lemma_key_order_antisymmetric(pypi_key(a).unwrap(), pypi_key(b).unwrap());
    lemma_key_order_antisymmetric(pypi_key(a).unwrap(), pypi_key(a).unwrap());
}

/// `compare_pypi_versions` orders versions transitively: below-below is below,
/// and at-most-at-most is at most.
pub proof fn compare_pypi_versions_transitive(a: Seq<char>, b: Seq<char>, c: Seq<char>)
    requires
        pypi_version_ok(a),
        pypi_version_ok(b),
        pypi_version_ok(c),
    ensures
        version_order(a, b) < 0 && version_order(b, c) < 0 ==> version_order(a, c) < 0,
        version_order(a, b) <= 0 && version_order(b, c) <= 0 ==> version_order(a, c) <= 0,
        version_order(a, b) == 0 && version_order(b, c) == 0 ==> version_order(a, c) == 0,
{
    let (x, y, z) = (pypi_key(a).unwrap(), pypi_key(b).unwrap(), pypi_key(c).unwrap());
    lemma_key_order_transitive(x, y, z);
    lemma_key_order_antisymmetric(x, y);
    lemma_key_order_antisymmetric(y, z);
    lemma_key_order_antisymmetric(x, z);
}

/// Two versions compare equal exactly when their keys are the same.
pub proof fn compare_pypi_versions_equal_iff_same_key(a: Seq<char>, b: Seq<char>)
    requires
        pypi_version_ok(a),
        pypi_version_ok(b),
    ensures
        version_order(a, b) == 0 <==> pypi_key(a) == pypi_key(b),
{
    lemma_key_order_antisymmetric(pypi_key(a).unwrap(), pypi_key(b).unwrap());
}

/// The number of a pre-release phase decides between two keys that agree
/// on epoch, release, phase and post release: within one phase (dev,
/// alpha, beta or rc), a larger number is the later version, so `1.0rc2`
/// is above `1.0rc1` and `1.0a1` below `1.0a3`.
pub proof fn prerelease_number_orders_within_a_phase(a: PypiKeyModel, b: PypiKeyModel)
    requires
        a.epoch == b.epoch,
        a.release == b.release,
        a.post == b.post,
        phase_rank(a.phase) == phase_rank(b.phase),
        !(a.phase is Final),
    ensures
        phase_number(a.phase) < phase_number(b.phase) ==> key_order(a, b) < 0,
        phase_number(a.phase) > phase_number(b.phase) ==> key_order(a, b) > 0,
        phase_number(a.phase) == phase_number(b.phase) ==> key_order(a, b) == 0,
{
    lemma_release_antisymmetric(a.release, b.release);
    lemma_key_order_antisymmetric(a, b);
}

/// The same, for version strings: two readable versions whose keys differ
/// only in the number of a shared pre-release phase compare as the numbers
/// do.
pub proof fn prerelease_numbers_order_versions(a: Seq<char>, b: Seq<char>)
    requires
        pypi_version_ok(a),
        pypi_version_ok(b),
        pypi_key(a)->0.epoch == pypi_key(b)->0.epoch,
        pypi_key(a)->0.release == pypi_key(b)->0.release,
        pypi_key(a)->0.post == pypi_key(b)->0.post,
        phase_rank(pypi_key(a)->0.phase) == phase_rank(pypi_key(b)->0.phase),
        !(pypi_key(a)->0.phase is Final),
    ensures
        phase_number(pypi_key(a)->0.phase) < phase_number(pypi_key(b)->0.phase) ==> version_order(a, b) < 0,
        phase_number(pypi_key(a)->0.phase) > phase_number(pypi_key(b)->0.phase) ==> version_order(a, b) > 0,
{
    prerelease_number_orders_within_a_phase(pypi_key(a)->0, pypi_key(b)->0);
}

/// Phases order a release's versions: with epoch, release and post release
/// the same, a dev release is below an alpha, an alpha below a beta, a beta
/// below a release candidate and that below the final release, whatever
/// their numbers.
pub proof fn phases_order_a_release(a: PypiKeyModel, b: PypiKeyModel)
    requires
        a.epoch == b.epoch,
        a.release == b.release,
    ensures
        phase_rank(a.phase) < phase_rank(b.phase) ==> key_order(a, b) < 0,
        (a.phase is Dev && b.phase is Alpha) ==> key_order(a, b) < 0,
        (a.phase is Alpha && b.phase is Beta) ==> key_order(a, b) < 0,
        (a.phase is Beta && b.phase is Rc) ==> key_order(a, b) < 0,
        (a.phase is Rc && b.phase is Final) ==> key_order(a, b) < 0,
{
    lemma_release_antisymmetric(a.release, b.release);
}

/// Post releases follow their release: with epoch, release and phase the
/// same, a version without a post release is below any with one, and post
/// releases order by their numbers.
pub proof fn post_releases_follow(a: PypiKeyModel, b: PypiKeyModel)
    requires
        a.epoch == b.epoch,
        a.release == b.release,
        a.phase == b.phase,
    ensures
        (a.post is None && b.post is Some) ==> key_order(a, b) < 0,
        (a.post matches Some(m) && b.post matches Some(n) && m < n) ==> key_order(a, b) < 0,
{
    lemma_release_antisymmetric(a.release, b.release);
}

/// Release segments compare as numbers, segment by segment: after a shared
/// prefix, the release with the smaller next segment is the earlier one,
/// so `1.2` is below `1.10`.
pub proof fn release_segments_compare_as_numbers(prefix: Seq<u64>, m: u64, n: u64)
    ensures
        m < n ==> order_release(prefix.push(m), prefix.push(n)) < 0,
        m > n ==> order_release(prefix.push(m), prefix.push(n)) > 0,
    decreases prefix.len(),
{
    if prefix.len() > 0 {
        assert(prefix.push(m).drop_first() =~= prefix.drop_first().push(m));
        assert(prefix.push(n).drop_first() =~= prefix.drop_first().push(n));
        release_segments_compare_as_numbers(prefix.drop_first(), m, n);
    }
}

/// The epoch decides first: a key with a larger epoch is the later version,
/// whatever its release, phase and post release.
pub proof fn epoch_decides_first(a: PypiKeyModel, b: PypiKeyModel)
    ensures
        a.epoch < b.epoch ==> key_order(a, b) < 0,
        a.epoch > b.epoch ==> key_order(a, b) > 0,
{
}

/// A pre-release sorts below its release: a key in a dev, alpha, beta or rc
/// phase is below the same key in the final phase, and the final phase is
/// above every other phase of the same release.
pub proof fn prerelease_below_its_release(a: PypiKeyModel)
    ensures
        !(a.phase is Final) ==> key_order(a, PypiKeyModel { phase: PypiReleasePhase::Final, ..a }) < 0,
        a.phase is Final ==> key_order(a, PypiKeyModel { phase: PypiReleasePhase::Final, ..a }) == 0,
{
    lemma_release_antisymmetric(a.release, a.release);
    lemma_key_order_antisymmetric(a, PypiKeyModel { phase: PypiReleasePhase::Final, ..a });
}

/// Versions that read the same once trimmed, stripped of leading `v`s,
/// lower-cased and cut at a `+` local label compare equal, and compare
/// alike against every other version.
pub proof fn same_public_part_compare_equal(a: Seq<char>, b: Seq<char>, c: Seq<char>)
    requires
        public_part(a) == public_part(b),
        pypi_version_ok(a),
        pypi_version_ok(c),
    ensures
        pypi_key(a) == pypi_key(b),
        pypi_version_ok(b),
        version_order(a, b) == 0,
        version_order(a, c) == version_order(b, c),
{
    compare_pypi_versions_equal_iff_same_key(a, b);
}

/// A trailing zero release segment does not change the release as
/// compared, so `1.0` and `1.0.0` have the same release.
pub proof fn trailing_zero_segment_is_ignored(r: Seq<u64>)
    ensures
        release_of(r.push(0u64)) == release_of(r),
{
    assert(r.push(0u64).drop_last() =~= r);
}

// ---------------------------------------------------------------------------
// Implementation
// ---------------------------------------------------------------------------

fn order_of_u64(a: u64, b: u64) -> (r: i8)
    ensures
        r == order_u64(a, b),
{
    if a < b {
        -1
    } else if a > b {
        1
    } else {
        0
    }
}

fn order_of_release(a: &Vec<u64>, b: &Vec<u64>) -> (r: i8)
    ensures
        r == order_release(a@, b@),
{
    let mut i: usize = 0;
    assert(a@.skip(0) =~= a@ && b@.skip(0) =~= b@);
    while i < a.len() && i < b.len() && a[i] == b[i]
        invariant
            i <= a@.len(),
            i <= b@.len(),
            order_release(a@, b@) == order_release(a@.skip(i as int), b@.skip(i as int)),
        decreases a.len() - i,
    {
        proof {
            assert(a@.skip(i as int).drop_first() =~= a@.skip(i + 1));
            assert(b@.skip(i as int).drop_first() =~= b@.skip(i + 1));
        }
        i = i + 1;
    }
    if i == a.len() {
        if i == b.len() {
            0
        } else {
            -1
        }
    } else if i == b.len() {
        1
    } else {
        order_of_u64(a[i], b[i])
    }
}

fn phase_rank_of(p: PypiReleasePhase) -> (r: (u8, u64))
    ensures
        r.0 == phase_rank(p),
        r.1 == phase_number(p),
{
    match p {
        PypiReleasePhase::Dev(n) => (0, n),
        PypiReleasePhase::Alpha(n) => (1, n),
        PypiReleasePhase::Beta(n) => (2, n),
        PypiReleasePhase::Rc(n) => (3, n),
        PypiReleasePhase::Final => (4, 0),
    }
}

fn order_of_keys(a: &PypiVersionKey, b: &PypiVersionKey) -> (r: i8)
    ensures
        r == key_order(a@, b@),
{
    if a.epoch != b.epoch {
        return order_of_u64(a.epoch, b.epoch);
    }
    let rel = order_of_release(&a.release, &b.release);
    if rel != 0 {
        return rel;
    }
    let (ra, na) = phase_rank_of(a.phase);
    let (rb, nb) = phase_rank_of(b.phase);
    if ra < rb {
        return -1;
    }
    if ra > rb {
        return 1;
    }
    let ph = order_of_u64(na, nb);
    if ph != 0 {
        return ph;
    }
    match (a.post, b.post) {
        (None, None) => 0,
        (None, Some(_)) => -1,
        (Some(_), None) => 1,
        (Some(x), Some(y)) => order_of_u64(x, y),
    }
}

/// The order of two readable versions as a sign: below zero when `left`
/// is lower, zero when they are equal, above zero when it is higher.
pub fn pypi_version_order(left: &str, right: &str) -> (r: i8)
    requires
        pypi_version_ok(left@),
        pypi_version_ok(right@),
    ensures
        r == version_order(left@, right@),
{
    let l = comparable_pypi_version(left);
    let r = comparable_pypi_version(right);
    order_of_keys(&l, &r)
}

/// Compares two PEP 440 style versions by epoch, release segments (trailing
/// zeros ignored), pre-release phase and post release; local labels are
/// ignored.
pub fn compare_pypi_versions(left: &str, right: &str) -> (o: Ordering)
    requires
        pypi_version_ok(left@),
        pypi_version_ok(right@),
    ensures
        ordering_value(o) == version_order(left@, right@),
{
    let l = comparable_pypi_version(left);
    let r = comparable_pypi_version(right);
    let c = order_of_keys(&l, &r);
    proof {
        lemma_key_order_antisymmetric(l@, r@);
    }
    if c < 0 {
        Ordering::Less
    } else if c > 0 {
        Ordering::Greater
    } else {
        Ordering::Equal
    }
}

} // verus!
