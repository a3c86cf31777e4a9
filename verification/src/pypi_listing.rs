//! The versions of a PyPI package offered to a user: the pre-release policy
//! that applies to the package, and the listing, newest first.
use vstd::prelude::*;
use std::cmp::Ordering;
use crate::error::OmcRegistryError;
use crate::pypi_key::pypi_version_ok;
use crate::pypi_files::{
    compat_opt, pypi_target_python, pypi_wheel_compatibility, str_opt, target_compatibility,
    target_python_text, target_readable, target_version_splits_char, PythonWheelCompatibility,
};
use crate::pypi_release::{normalize_pypi_name, normalized_name, PypiReleaseControls};
use crate::pypi_requirement::{is_prerelease, pypi_version_is_prerelease};
use crate::pypi_version::{
    compare_pypi_versions, compare_pypi_versions_antisymmetric, compare_pypi_versions_transitive,
    ordering_value, version_order,
};
use crate::set_map::string_set;
use crate::text::{chars_of, eq_chars};

verus! {

// ---------------------------------------------------------------------------
// Pre-release policy
// ---------------------------------------------------------------------------

/// Whether pre-releases of a package are offered.
#[derive(Clone, Copy, Debug, PartialEq, Eq, Structural)]
pub enum PypiPrereleasePolicy {
    /// Only when no final release is offered.
    Default,
    /// Always.
    Allow,
    /// Never.
    OnlyFinal,
}

/// The policy of a package: `--only-final` for it (or for all) wins, then
/// `--pre` or `--all-releases` for it (or for all).
pub open spec fn prerelease_policy(
    allow_prereleases: bool,
    all_releases: (bool, Set<Seq<char>>),
    only_final: (bool, Set<Seq<char>>),
    package: Seq<char>,
) -> PypiPrereleasePolicy {
    let name = normalized_name(package);
    if only_final.0 || only_final.1.contains(name) {
        PypiPrereleasePolicy::OnlyFinal
    } else if allow_prereleases || all_releases.0 || all_releases.1.contains(name) {
        PypiPrereleasePolicy::Allow
    } else {
        PypiPrereleasePolicy::Default
    }
}

fn contains_name(values: &Vec<String>, name: &[char]) -> (b: bool)
    ensures
        b == string_set(values@).contains(name@),
{
    let mut i: usize = 0;
    while i < values.len()
        invariant
            i <= values@.len(),
            forall|j: int| 0 <= j < i ==> values@[j]@ != name@,
        decreases values.len() - i,
    {
        let v = chars_of(values[i].as_str());
        if eq_chars(v.as_slice(), name) {
            return true;
        }
        i = i + 1;
    }
    false
}

/// The pre-release policy of a package under the release selections.
pub fn pypi_prerelease_policy_for_name(
    allow_prereleases: bool,
    controls: &PypiReleaseControls,
    package: &str,
) -> (p: PypiPrereleasePolicy)
    ensures
        p == prerelease_policy(
            allow_prereleases,
            controls.all_releases.model(),
            controls.only_final.model(),
            package@,
        ),
{
    let raw = chars_of(package);
    let name = normalize_pypi_name(raw.as_slice());
    if controls.only_final.all || contains_name(&controls.only_final.packages, name.as_slice()) {
        PypiPrereleasePolicy::OnlyFinal
    } else if allow_prereleases || controls.all_releases.all || contains_name(
        &controls.all_releases.packages,
        name.as_slice(),
    ) {
        PypiPrereleasePolicy::Allow
    } else {
        PypiPrereleasePolicy::Default
    }
}

// ---------------------------------------------------------------------------
// Listing order
// ---------------------------------------------------------------------------

/// `a` sorts before `b` as text.
pub open spec fn text_less(a: Seq<char>, b: Seq<char>) -> bool
    decreases a.len(),
{
    if a.len() == 0 {
        b.len() > 0
    } else if b.len() == 0 {
        false
    } else if a[0] != b[0] {
        a[0] < b[0]
    } else {
        text_less(a.skip(1), b.skip(1))
    }
}

/// `a` is listed before `b`: it is the newer version, or the versions are
/// equal and `a` sorts first as text.
pub open spec fn listed_before(a: Seq<char>, b: Seq<char>) -> bool {
    version_order(a, b) > 0 || (version_order(a, b) == 0 && text_less(a, b))
}

pub proof fn lemma_text_less_strict(a: Seq<char>, b: Seq<char>)
    ensures
        !(text_less(a, b) && text_less(b, a)),
        a != b ==> text_less(a, b) || text_less(b, a),
        !text_less(a, a),
    decreases a.len(),
{
    if a.len() > 0 && b.len() > 0 {
        lemma_text_less_strict(a.skip(1), b.skip(1));
        if a[0] == b[0] && a != b {
            assert(a.skip(1) != b.skip(1)) by {
                if a.skip(1) == b.skip(1) {
                    assert(a =~= seq![a[0]] + a.skip(1));
                    assert(b =~= seq![b[0]] + b.skip(1));
                }
            }
        }
    }
    if a.len() > 0 {
        lemma_text_less_strict(a.skip(1), a.skip(1));
    }
    if a.len() == 0 && b.len() == 0 {
        assert(a =~= b);
    }
}

pub proof fn lemma_text_less_transitive(a: Seq<char>, b: Seq<char>, c: Seq<char>)
    requires
        text_less(a, b),
        text_less(b, c),
    ensures
        text_less(a, c),
    decreases a.len(),
{
    if a.len() > 0 && b.len() > 0 && c.len() > 0 && a[0] == b[0] && b[0] == c[0] {
        lemma_text_less_transitive(a.skip(1), b.skip(1), c.skip(1));
    }
}

proof fn lemma_listed_order(a: Seq<char>, b: Seq<char>, c: Seq<char>)
    requires
        pypi_version_ok(a),
        pypi_version_ok(b),
        pypi_version_ok(c),
    ensures
        listed_before(a, b) && listed_before(b, c) ==> listed_before(a, c),
        !(listed_before(a, b) && listed_before(b, a)),
        a != b ==> listed_before(a, b) || listed_before(b, a),
        !listed_before(a, a),
{
    compare_pypi_versions_antisymmetric(a, b);
    compare_pypi_versions_antisymmetric(b, c);
    compare_pypi_versions_antisymmetric(a, c);
    compare_pypi_versions_transitive(a, b, c);
    compare_pypi_versions_transitive(a, c, b);
    compare_pypi_versions_transitive(b, a, c);
    compare_pypi_versions_transitive(b, c, a);
    compare_pypi_versions_transitive(c, a, b);
    compare_pypi_versions_transitive(c, b, a);
    lemma_text_less_strict(a, b);
    if text_less(a, b) && text_less(b, c) {
        lemma_text_less_transitive(a, b, c);
    }
}

pub fn text_less_exec(a: &[char], b: &[char]) -> (r: bool)
    ensures
        r == text_less(a@, b@),
{
    let mut i: usize = 0;
    assert(a@.skip(0) =~= a@);
    assert(b@.skip(0) =~= b@);
    while i < a.len() && i < b.len() && a[i] == b[i]
        invariant
            i <= a@.len(),
            i <= b@.len(),
            text_less(a@, b@) == text_less(a@.skip(i as int), b@.skip(i as int)),
        decreases a.len() - i,
    {
        proof {
            assert(a@.skip(i as int).skip(1) =~= a@.skip(i + 1));
            assert(b@.skip(i as int).skip(1) =~= b@.skip(i + 1));
        }
        i = i + 1;
    }
    if i == a.len() {
        i < b.len()
    } else if i == b.len() {
        false
    } else {
        a[i] < b[i]
    }
}

/// Whether `a` is listed before `b`.
fn listed_before_exec(a: &str, b: &str) -> (r: bool)
    requires
        pypi_version_ok(a@),
        pypi_version_ok(b@),
    ensures
        r == listed_before(a@, b@),
{
    match compare_pypi_versions(a, b) {
        Ordering::Greater => true,
        Ordering::Less => false,
        Ordering::Equal => {
            let ac = chars_of(a);
            let bc = chars_of(b);
            text_less_exec(ac.as_slice(), bc.as_slice())
        },
    }
}

// ---------------------------------------------------------------------------
// Listing
// ---------------------------------------------------------------------------

/// The versions offered for a package, newest first.
pub struct PypiVersionListing {
    pub name: String,
    pub versions: Vec<String>,
}

/// Some version is a final release.
pub open spec fn has_final(vs: Seq<String>) -> bool {
    exists|i: int| 0 <= i < vs.len() && !is_prerelease(#[trigger] vs[i]@)
}

/// Whether the policy offers `v`, `any_final` telling whether a final
/// release is offered at all.
pub open spec fn offered(policy: PypiPrereleasePolicy, any_final: bool, v: Seq<char>) -> bool {
    match policy {
        PypiPrereleasePolicy::Allow => true,
        PypiPrereleasePolicy::OnlyFinal => !is_prerelease(v),
        PypiPrereleasePolicy::Default => !any_final || !is_prerelease(v),
    }
}

/// The listing is strictly in listing order.
pub open spec fn listed_in_order(vs: Seq<String>) -> bool {
    forall|i: int, j: int| 0 <= i < j < vs.len() ==> listed_before(#[trigger] vs[i]@, #[trigger] vs[j]@)
}

fn any_final_release(versions: &Vec<String>) -> (b: bool)
    requires
        forall|i: int| 0 <= i < versions@.len() ==> pypi_version_ok(#[trigger] versions@[i]@),
    ensures
        b == has_final(versions@),
{
    let mut i: usize = 0;
    while i < versions.len()
        invariant
            i <= versions@.len(),
            forall|k: int| 0 <= k < versions@.len() ==> pypi_version_ok(#[trigger] versions@[k]@),
            forall|k: int| 0 <= k < i ==> is_prerelease(#[trigger] versions@[k]@),
        decreases versions.len() - i,
    {
        if !pypi_version_is_prerelease(versions[i].as_str()) {
            return true;
        }
        i = i + 1;
    }
    false
}

/// Inserts `v` at its place in a list kept in listing order, unless it is
/// there.
fn insert_listed(out: &mut Vec<String>, v: &str)
    requires
        pypi_version_ok(v@),
        forall|i: int| 0 <= i < old(out)@.len() ==> pypi_version_ok(#[trigger] old(out)@[i]@),
        listed_in_order(old(out)@),
    ensures
        forall|i: int| 0 <= i < final(out)@.len() ==> pypi_version_ok(#[trigger] final(out)@[i]@),
        listed_in_order(final(out)@),
        string_set(final(out)@) == string_set(old(out)@).insert(v@),
{
    let mut p: usize = 0;
    while p < out.len() && !listed_before_exec(v, out[p].as_str())
        invariant
            pypi_version_ok(v@),
            forall|i: int| 0 <= i < out@.len() ==> pypi_version_ok(#[trigger] out@[i]@),
            out@ == old(out)@,
            listed_in_order(out@),
            p <= out@.len(),
            forall|k: int| 0 <= k < p ==> !listed_before(v@, #[trigger] out@[k]@),
        decreases out.len() - p,
    {
        p = p + 1;
    }
    if p > 0 {
        let prev = out[p - 1].as_str();
        let vc = chars_of(v);
        let pc = chars_of(prev);
        if eq_chars(vc.as_slice(), pc.as_slice()) {
            proof {
                assert(string_set(out@) =~= string_set(out@).insert(v@)) by {
                    assert(out@[p - 1]@ == v@);
                }
            }
            return;
        }
    }
    let ghost before = out@;
    proof {
        assert forall|k: int| 0 <= k < p implies listed_before(#[trigger] before[k]@, v@) by {
            if before[k]@ == v@ {
                assert(k < p - 1);
                assert(listed_before(before[k]@, before[p - 1]@));
                assert(!listed_before(v@, before[p - 1]@));
                assert(false);
            }
            lemma_listed_order(before[k]@, v@, v@);
        }
    }
    out.insert(p, string_from_str(v));
    proof {
        assert(out@ =~= before.take(p as int).push(out@[p as int]) + before.skip(p as int));
        assert(out@[p as int]@ == v@);
        assert forall|i: int| 0 <= i < out@.len() implies pypi_version_ok(#[trigger] out@[i]@) by {
            if i < p {
                assert(out@[i] == before[i]);
            } else if i > p {
                assert(out@[i] == before[i - 1]);
            }
        }
        assert forall|i: int, j: int| 0 <= i < j < out@.len() implies listed_before(
            #[trigger] out@[i]@,
            #[trigger] out@[j]@,
        ) by {
            if j < p {
                assert(out@[i] == before[i] && out@[j] == before[j]);
            } else if j == p {
                assert(out@[i] == before[i]);
            } else if i > p {
                assert(out@[i] == before[i - 1] && out@[j] == before[j - 1]);
            } else if i == p {
                assert(out@[j] == before[j - 1]);
                if j - 1 > p {
                    lemma_listed_order(v@, before[p as int]@, before[j - 1]@);
                }
            } else {
                assert(out@[i] == before[i] && out@[j] == before[j - 1]);
            }
        }
        assert forall|x: Seq<char>| #[trigger] string_set(out@).contains(x) == string_set(before).insert(
            v@,
        ).contains(x) by {
            if string_set(out@).contains(x) {
                let k = choose|k: int| 0 <= k < out@.len() && out@[k]@ == x;
                if k < p {
                    assert(before[k]@ == x);
                } else if k > p {
                    assert(before[k - 1]@ == x);
                }
            }
            if string_set(before).contains(x) {
                let k = choose|k: int| 0 <= k < before.len() && before[k]@ == x;
                if k < p {
                    assert(out@[k]@ == x);
                } else {
                    assert(out@[k + 1]@ == x);
                }
            }
        }
        assert(string_set(out@) =~= string_set(before).insert(v@));
    }
}

/// Copies a string slice into a new `String`.
fn string_from_str(s: &str) -> (r: String)
    ensures
        r@ == s@,
{
    let c = chars_of(s);
    crate::text::string_from_chars(c.as_slice())
}

/// The listing of the versions offered by the indexes: each offered
/// version once, newest first (equal versions in text order).  Refused
/// with `PackageNotFound` when no version is offered at all.
pub fn pypi_version_listing(
    name: &str,
    requested: &str,
    versions: &Vec<String>,
    policy: PypiPrereleasePolicy,
) -> (r: Result<PypiVersionListing, OmcRegistryError>)
    requires
        forall|i: int| 0 <= i < versions@.len() ==> pypi_version_ok(#[trigger] versions@[i]@),
    ensures
        versions@.len() == 0 ==> (r matches Err(OmcRegistryError::PackageNotFound(m)) && m@
            == requested@),
        versions@.len() > 0 ==> (r matches Ok(listing) && listing.name@ == name@ && listed_in_order(
            listing.versions@,
        ) && string_set(listing.versions@) == string_set(versions@).filter(
            |v: Seq<char>| offered(policy, has_final(versions@), v),
        )),
{
    if versions.len() == 0 {
        return Err(OmcRegistryError::PackageNotFound(string_from_str(requested)));
    }
    let any_final = any_final_release(versions);
    let mut out: Vec<String> = Vec::new();
    let ghost keep = |v: Seq<char>| offered(policy, has_final(versions@), v);
    let mut i: usize = 0;
    assert(string_set(out@) =~= string_set(versions@.take(0)).filter(keep));
    while i < versions.len()
        invariant
            i <= versions@.len(),
            any_final == has_final(versions@),
            keep == (|v: Seq<char>| offered(policy, has_final(versions@), v)),
            forall|k: int| 0 <= k < versions@.len() ==> pypi_version_ok(#[trigger] versions@[k]@),
            forall|k: int| 0 <= k < out@.len() ==> pypi_version_ok(#[trigger] out@[k]@),
            listed_in_order(out@),
            string_set(out@) == string_set(versions@.take(i as int)).filter(keep),
        decreases versions.len() - i,
    {
        let v = versions[i].as_str();
        let pre = pypi_version_is_prerelease(v);
        let take = match policy {
            PypiPrereleasePolicy::Allow => true,
            PypiPrereleasePolicy::OnlyFinal => !pre,
            PypiPrereleasePolicy::Default => !any_final || !pre,
        };
        let ghost before = string_set(out@);
        if take {
            insert_listed(&mut out, v);
        }
        proof {
            let prefix = versions@.take(i as int);
            let next = versions@.take(i + 1);
            assert(take == keep(v@));
            assert forall|x: Seq<char>| #[trigger] string_set(next).filter(keep).contains(x) == (
            string_set(prefix).filter(keep).contains(x) || (x == v@ && take)) by {
                if string_set(next).contains(x) {
                    let k = choose|k: int| 0 <= k < next.len() && next[k]@ == x;
                    if k < i {
                        assert(prefix[k]@ == x);
                    }
                }
                if string_set(prefix).contains(x) {
                    let k = choose|k: int| 0 <= k < prefix.len() && prefix[k]@ == x;
                    assert(next[k]@ == x);
                }
                if x == v@ {
                    assert(next[i as int]@ == x);
                }
            }
            if take {
                assert(string_set(out@) =~= string_set(next).filter(keep));
            } else {
                assert(string_set(out@) =~= string_set(next).filter(keep));
            }
        }
        i = i + 1;
    }
    assert(versions@.take(versions@.len() as int) =~= versions@);
    Ok(PypiVersionListing { name: string_from_str(name), versions: out })
}

// ---------------------------------------------------------------------------
// Listing targets
// ---------------------------------------------------------------------------

/// What a listing of a package's available versions is narrowed by: the
/// indexes and find-links to ask, the release selections, an upload cutoff
/// and the target interpreter.
#[derive(Clone, Debug, Default)]
pub struct PypiAvailableVersionsOptions {
    pub index_url: Option<String>,
    pub extra_index_urls: Vec<String>,
    pub find_links: Vec<String>,
    pub no_index: bool,
    pub allow_prereleases: bool,
    pub release_controls: PypiReleaseControls,
    pub uploaded_prior_to: Option<String>,
    pub target_python: Option<String>,
    pub target_implementation: Option<String>,
    pub target_platforms: Vec<String>,
    pub target_abis: Vec<String>,
}

pub open spec fn string_opt(o: Option<String>) -> Option<Seq<char>> {
    match o {
        Some(s) => Some(s@),
        None => None,
    }
}

/// The Python version and the wheel tags a listing checks files against:
/// those of the options' target (see `target_python_text` and
/// `target_compatibility`), else the running interpreter's, which
/// `current` and `current_python` describe as far as it could be asked.
pub fn available_versions_targets(
    query: &PypiAvailableVersionsOptions,
    current: Option<&PythonWheelCompatibility>,
    current_python: Option<&str>,
) -> (r: (Option<String>, Option<PythonWheelCompatibility>))
    requires
        query.target_python matches Some(t) ==> !target_version_splits_char(t@),
        target_readable(string_opt(query.target_python), str_opt(current_python)),
    ensures
        match target_python_text(string_opt(query.target_python), str_opt(current_python)) {
            Some(v) => r.0 matches Some(s) && s@ == v,
            None => r.0 is None,
        },
        match target_compatibility(
            string_opt(query.target_python),
            string_opt(query.target_implementation),
            query.target_abis@,
            query.target_platforms@,
            compat_opt(current),
            str_opt(current_python),
        ) {
            Some((p, a, f)) => r.1 matches Some(c) && c.wf() && c.pythons() == p && c.abis() == a
                && c.platforms() == f,
            None => match current {
                Some(c) => r.1 matches Some(x) && x.pythons() == c.pythons() && x.abis() == c.abis()
                    && x.platforms() == c.platforms(),
                None => r.1 is None,
            },
        },
{
    let target = match &query.target_python {
        Some(t) => Some(t.as_str()),
        None => None,
    };
    let implementation = match &query.target_implementation {
        Some(t) => Some(t.as_str()),
        None => None,
    };
    let text = pypi_target_python(target, current_python);
    let tags = pypi_wheel_compatibility(
        target,
        implementation,
        query.target_abis.as_slice(),
        query.target_platforms.as_slice(),
        current,
        current_python,
    );
    (text, tags)
}

} // verus!
