//! What the project's lock decides: the dependencies a PyPI lock leaves
//! unmet, which entries a new lock keeps, which locked packages an install
//! takes, and when an install refuses a package.
use vstd::prelude::*;
use crate::entry_source::{
    archive_sha256, hex_text, locked_package_key, package_key, sha256_of, Ecosystem, LockedPackage,
    PackageSpec,
};
use crate::npm_arguments::message;
use crate::error::OmcRegistryError;
use crate::pypi_key::pypi_version_ok;
use crate::pypi_release::{normalize_pypi_name, normalized_name};
use crate::pypi_requirement::{exact_requirement, is_exact_pypi_requirement, pypi_version_satisfies, version_satisfies};
use crate::npm_semver::{compare_npm_versions, fits_at, npm_satisfies, npm_version_order, npm_version_satisfies};
use crate::pypi_version::{pypi_version_order, version_order};
use std::cmp::Ordering;
use crate::script_metadata::{inline_script_metadata, multiple_blocks_message, script_scan};
use crate::requirements::lines;
use crate::text::{chars_of, concat_chars, eq_chars, lower_chars, lower_seq, string_from_chars};

verus! {

// ---------------------------------------------------------------------------
// Requirement labels
// ---------------------------------------------------------------------------

/// Texts joined with commas.
pub open spec fn comma_joined(xs: Seq<Seq<char>>) -> Seq<char>
    decreases xs.len(),
{
    if xs.len() == 0 {
        Seq::empty()
    } else if xs.len() == 1 {
        xs[0]
    } else {
        comma_joined(xs.drop_last()) + ","@ + xs.last()
    }
}

/// The character sequences of a list of strings.
pub open spec fn texts_view(v: Seq<String>) -> Seq<Seq<char>> {
    Seq::new(v.len(), |i: int| v[i]@)
}

/// How a PyPI requirement is shown: the name, the extras in brackets when
/// there are any, then ` @ ` and the direct URL, or else the version
/// requirement.
pub open spec fn requirement_label(spec: PackageSpec) -> Seq<char> {
    let name = if spec.extras@.len() == 0 {
        spec.name@
    } else {
        spec.name@ + "["@ + comma_joined(texts_view(spec.extras@)) + "]"@
    };
    match spec.direct_url {
        Some(url) => name + " @ "@ + url@,
        None => match spec.version {
            Some(v) => name + v@,
            None => name,
        },
    }
}

/// Joins texts with commas.
fn join_commas(xs: &Vec<String>) -> (r: Vec<char>)
    ensures
        r@ == comma_joined(texts_view(xs@)),
{
    let comma = chars_of(",");
    let mut out: Vec<char> = Vec::new();
    let mut i: usize = 0;
    while i < xs.len()
        invariant
            i <= xs@.len(),
            comma@ == ","@,
            out@ == comma_joined(texts_view(xs@).take(i as int)),
        decreases xs.len() - i,
    {
        let x = chars_of(xs[i].as_str());
        proof {
            assert(texts_view(xs@).take(i + 1).drop_last() =~= texts_view(xs@).take(i as int));
        }
        if i == 0 {
            out = x;
        } else {
            let with_comma = concat_chars(out.as_slice(), comma.as_slice());
            out = concat_chars(with_comma.as_slice(), x.as_slice());
        }
        i = i + 1;
    }
    assert(texts_view(xs@).take(xs@.len() as int) =~= texts_view(xs@));
    out
}

/// How a PyPI requirement is shown in a check report.
pub fn pypi_requirement_label(spec: &PackageSpec) -> (r: String)
    ensures
        r@ == requirement_label(*spec),
{
    proof {
        reveal_strlit(",");
    }
    let mut name = chars_of(spec.name.as_str());
    if spec.extras.len() > 0 {
        let extras = join_commas(&spec.extras);
        let open = concat_chars(name.as_slice(), chars_of("[").as_slice());
        let inner = concat_chars(open.as_slice(), extras.as_slice());
        name = concat_chars(inner.as_slice(), chars_of("]").as_slice());
    }
    match &spec.direct_url {
        Some(url) => {
            let at = concat_chars(name.as_slice(), chars_of(" @ ").as_slice());
            string_from_chars(concat_chars(at.as_slice(), chars_of(url.as_str()).as_slice()).as_slice())
        },
        None => match &spec.version {
            Some(v) => string_from_chars(
                concat_chars(name.as_slice(), chars_of(v.as_str()).as_slice()).as_slice(),
            ),
            None => string_from_chars(name.as_slice()),
        },
    }
}

// ---------------------------------------------------------------------------
// Checking a PyPI lock
// ---------------------------------------------------------------------------

/// A dependency of a locked PyPI package that the lock does not meet: a
/// locked package of the name is there at another version, or none is.
#[derive(Debug, PartialEq, Eq)]
pub enum PypiCheckIssue {
    Incompatible {
        package: String,
        version: String,
        requirement: String,
        installed_name: String,
        installed_version: String,
    },
    Missing { package: String, version: String, requirement: String },
}

/// An issue as plain values: the package, its version, the requirement,
/// and the locked package of that name, if any.
pub struct IssueModel {
    pub package: Seq<char>,
    pub version: Seq<char>,
    pub requirement: Seq<char>,
    pub installed: Option<(Seq<char>, Seq<char>)>,
}

pub open spec fn issue_view(i: PypiCheckIssue) -> IssueModel {
    match i {
        PypiCheckIssue::Incompatible { package, version, requirement, installed_name, installed_version } =>
            IssueModel {
            package: package@,
            version: version@,
            requirement: requirement@,
            installed: Some((installed_name@, installed_version@)),
        },
        PypiCheckIssue::Missing { package, version, requirement } => IssueModel {
            package: package@,
            version: version@,
            requirement: requirement@,
            installed: None,
        },
    }
}

pub open spec fn issues_view(v: Seq<PypiCheckIssue>) -> Seq<IssueModel> {
    Seq::new(v.len(), |i: int| issue_view(v[i]))
}

/// A locked PyPI package of the requirement's name, from its direct URL
/// where it names one.
pub open spec fn name_url_match(q: LockedPackage, s: PackageSpec) -> bool {
    &&& q.ecosystem == Ecosystem::Pypi
    &&& normalized_name(q.name@) == s.name@
    &&& match s.direct_url {
        Some(u) => q.source_url@ == u@,
        None => true,
    }
}

/// A locked package meets a PyPI requirement: the name and URL match and
/// the version satisfies the version requirement, if there is one.
pub open spec fn locked_match(q: LockedPackage, s: PackageSpec) -> bool {
    name_url_match(q, s) && match s.version {
        Some(r) => version_satisfies(q.version@, r@) == Some(true),
        None => true,
    }
}

/// Some locked package meets the requirement.
pub open spec fn has_match(lock: Seq<LockedPackage>, s: PackageSpec) -> bool
    decreases lock.len(),
{
    if lock.len() == 0 {
        false
    } else {
        has_match(lock.drop_last(), s) || locked_match(lock.last(), s)
    }
}

/// The first locked PyPI package whose normalized name is `name`.
pub open spec fn first_named(lock: Seq<LockedPackage>, name: Seq<char>) -> Option<LockedPackage>
    decreases lock.len(),
{
    if lock.len() == 0 {
        None
    } else {
        match first_named(lock.drop_last(), name) {
            Some(q) => Some(q),
            None => if lock.last().ecosystem == Ecosystem::Pypi && normalized_name(lock.last().name@)
                == name {
                Some(lock.last())
            } else {
                None
            },
        }
    }
}

/// The issue of an unmet requirement `s` of package `p`.
pub open spec fn unmet_issue(lock: Seq<LockedPackage>, p: LockedPackage, s: PackageSpec) -> IssueModel {
    IssueModel {
        package: p.name@,
        version: p.version@,
        requirement: requirement_label(s),
        installed: match first_named(lock, s.name@) {
            Some(q) => Some((q.name@, q.version@)),
            None => None,
        },
    }
}

/// The issues of the PyPI requirements `ds` of package `p`, in order.
pub open spec fn dependency_issues(lock: Seq<LockedPackage>, p: LockedPackage, ds: Seq<PackageSpec>) -> Seq<
    IssueModel,
>
    decreases ds.len(),
{
    if ds.len() == 0 {
        Seq::empty()
    } else {
        let before = dependency_issues(lock, p, ds.drop_last());
        let s = ds.last();
        if s.ecosystem == Ecosystem::Pypi && !has_match(lock, s) {
            before.push(unmet_issue(lock, p, s))
        } else {
            before
        }
    }
}

/// The issues of the PyPI packages among `ps`, package by package.
pub open spec fn package_issues(lock: Seq<LockedPackage>, ps: Seq<LockedPackage>) -> Seq<IssueModel>
    decreases ps.len(),
{
    if ps.len() == 0 {
        Seq::empty()
    } else {
        let before = package_issues(lock, ps.drop_last());
        let p = ps.last();
        if p.ecosystem == Ecosystem::Pypi {
            before + dependency_issues(lock, p, p.dependencies@)
        } else {
            before
        }
    }
}

/// Every unmet PyPI requirement of every locked PyPI package, in lock then
/// dependency order.
pub open spec fn lock_issues(lock: Seq<LockedPackage>) -> Seq<IssueModel> {
    package_issues(lock, lock)
}

/// Locked packages that meet the name and URL of a requirement can be
/// read as the check reads them: each version against the version
/// requirement, and, where two or more of them satisfy it, each version
/// on its own (they are compared to pick the highest).
pub open spec fn requirement_readable(lock: Seq<LockedPackage>, s: PackageSpec) -> bool {
    &&& forall|k: int|
        0 <= k < lock.len() && name_url_match(#[trigger] lock[k], s) ==> match s.version {
            Some(r) => version_satisfies(lock[k].version@, r@) is Some,
            None => true,
        }
    &&& forall|k1: int, k2: int|
        0 <= k1 < lock.len() && 0 <= k2 < lock.len() && k1 != k2 && locked_match(#[trigger] lock[k1], s)
            && locked_match(#[trigger] lock[k2], s) ==> pypi_version_ok(lock[k1].version@)
            && pypi_version_ok(lock[k2].version@)
}

/// The lock can be checked: every PyPI requirement of a locked PyPI
/// package is readable against it.
pub open spec fn lock_readable(lock: Seq<LockedPackage>) -> bool {
    forall|i: int, j: int|
        0 <= i < lock.len() && lock[i].ecosystem == Ecosystem::Pypi && 0 <= j
            < lock[i].dependencies@.len() && (#[trigger] lock[i].dependencies@[j]).ecosystem
            == Ecosystem::Pypi ==> requirement_readable(lock, lock[i].dependencies@[j])
}

/// Whether some locked package meets a PyPI requirement.
fn lock_meets(lock: &Vec<LockedPackage>, s: &PackageSpec) -> (b: bool)
    requires
        requirement_readable(lock@, *s),
    ensures
        b == has_match(lock@, *s),
{
    let name = chars_of(s.name.as_str());
    let mut i: usize = 0;
    let mut found = false;
    while i < lock.len()
        invariant
            i <= lock@.len(),
            name@ == s.name@,
            requirement_readable(lock@, *s),
            found == has_match(lock@.take(i as int), *s),
        decreases lock.len() - i,
    {
        proof {
            assert(lock@.take(i + 1).drop_last() =~= lock@.take(i as int));
        }
        let q = &lock[i];
        let mut hit = false;
        if q.ecosystem == Ecosystem::Pypi {
            let n = normalize_pypi_name(chars_of(q.name.as_str()).as_slice());
            if eq_chars(n.as_slice(), name.as_slice()) {
                let url_ok = match &s.direct_url {
                    Some(u) => eq_chars(chars_of(q.source_url.as_str()).as_slice(), chars_of(u.as_str()).as_slice()),
                    None => true,
                };
                if url_ok {
                    assert(name_url_match(lock@[i as int], *s));
                    hit = match &s.version {
                        Some(r) => pypi_version_satisfies(q.version.as_str(), r.as_str()),
                        None => true,
                    };
                }
            }
        }
        assert(hit == locked_match(lock@.take(i + 1).last(), *s));
        found = found || hit;
        i = i + 1;
    }
    assert(lock@.take(lock@.len() as int) =~= lock@);
    found
}

/// The first locked PyPI package whose normalized name is `name`.
fn first_locked_named(lock: &Vec<LockedPackage>, name: &[char]) -> (r: Option<usize>)
    ensures
        match r {
            Some(k) => k < lock@.len() && first_named(lock@, name@) == Some(lock@[k as int]),
            None => first_named(lock@, name@) is None,
        },
{
    let mut i: usize = 0;
    while i < lock.len()
        invariant
            i <= lock@.len(),
            first_named(lock@.take(i as int), name@) is None,
        decreases lock.len() - i,
    {
        proof {
            assert(lock@.take(i + 1).drop_last() =~= lock@.take(i as int));
        }
        let q = &lock[i];
        if q.ecosystem == Ecosystem::Pypi {
            let n = normalize_pypi_name(chars_of(q.name.as_str()).as_slice());
            if eq_chars(n.as_slice(), name) {
                proof {
                    lemma_first_named_prefix(lock@, name@, i as int + 1);
                }
                return Some(i);
            }
        }
        i = i + 1;
    }
    assert(lock@.take(lock@.len() as int) =~= lock@);
    None
}

/// Once found in a prefix, the first package of a name stays found.
proof fn lemma_first_named_prefix(lock: Seq<LockedPackage>, name: Seq<char>, n: int)
    requires
        0 <= n <= lock.len(),
        first_named(lock.take(n), name) is Some,
    ensures
        first_named(lock, name) == first_named(lock.take(n), name),
    decreases lock.len() - n,
{
    if n < lock.len() {
        assert(lock.take(n + 1).drop_last() =~= lock.take(n));
        lemma_first_named_prefix(lock, name, n + 1);
    } else {
        assert(lock.take(n) =~= lock);
    }
}

/// The issue of an unmet requirement.
fn unmet_issue_of(lock: &Vec<LockedPackage>, p: &LockedPackage, s: &PackageSpec) -> (r: PypiCheckIssue)
    ensures
        issue_view(r) == unmet_issue(lock@, *p, *s),
{
    let requirement = pypi_requirement_label(s);
    let name = chars_of(s.name.as_str());
    match first_locked_named(lock, name.as_slice()) {
        Some(k) => PypiCheckIssue::Incompatible {
            package: p.name.clone(),
            version: p.version.clone(),
            requirement,
            installed_name: lock[k].name.clone(),
            installed_version: lock[k].version.clone(),
        },
        None => PypiCheckIssue::Missing {
            package: p.name.clone(),
            version: p.version.clone(),
            requirement,
        },
    }
}

/// Checks a PyPI lock: for each locked PyPI package, in lock order, and
/// each of its PyPI requirements, in order, that no locked package meets,
/// an issue naming the package, its version and the requirement, and the
/// first locked PyPI package of the requirement's name (`Incompatible`),
/// or `Missing` when there is none.  Requirements of other ecosystems are
/// passed over.
pub fn check_pypi_lock(lock: &Vec<LockedPackage>) -> (r: Vec<PypiCheckIssue>)
    requires
        lock_readable(lock@),
    ensures
        issues_view(r@) == lock_issues(lock@),
{
    let mut issues: Vec<PypiCheckIssue> = Vec::new();
    let mut i: usize = 0;
    while i < lock.len()
        invariant
            i <= lock@.len(),
            lock_readable(lock@),
            issues_view(issues@) == package_issues(lock@, lock@.take(i as int)),
        decreases lock.len() - i,
    {
        proof {
            assert(lock@.take(i + 1).drop_last() =~= lock@.take(i as int));
        }
        let p = &lock[i];
        if p.ecosystem == Ecosystem::Pypi {
            let ghost before = issues_view(issues@);
            let mut j: usize = 0;
            while j < p.dependencies.len()
                invariant
                    i < lock@.len(),
                    *p == lock@[i as int],
                    p.ecosystem == Ecosystem::Pypi,
                    j <= p.dependencies@.len(),
                    lock_readable(lock@),
                    issues_view(issues@) == before + dependency_issues(
                        lock@,
                        *p,
                        p.dependencies@.take(j as int),
                    ),
                decreases p.dependencies.len() - j,
            {
                proof {
                    assert(p.dependencies@.take(j + 1).drop_last() =~= p.dependencies@.take(j as int));
                }
                let s = &p.dependencies[j];
                let ghost prev = issues_view(issues@);
                let ghost dj = dependency_issues(lock@, *p, p.dependencies@.take(j as int));
                if s.ecosystem == Ecosystem::Pypi {
                    proof {
                        assert(lock@[i as int].dependencies@[j as int] == *s);
                    }
                    if !lock_meets(lock, s) {
                        let issue = unmet_issue_of(lock, p, s);
                        issues.push(issue);
                        proof {
                            assert(issues_view(issues@) =~= issues_view(issues@.drop_last()).push(
                                issue_view(issue),
                            ));
                        }
                    }
                }
                proof {
                    let ds1 = p.dependencies@.take(j as int + 1);
                    assert(ds1.last() == *s);
                    assert(ds1.drop_last() =~= p.dependencies@.take(j as int));
                    if s.ecosystem == Ecosystem::Pypi && !has_match(lock@, *s) {
                        assert(dependency_issues(lock@, *p, ds1) == dj.push(unmet_issue(lock@, *p, *s)));
                        assert(issues_view(issues@) == prev.push(unmet_issue(lock@, *p, *s)));
                        assert(prev.push(unmet_issue(lock@, *p, *s)) =~= before + dj.push(unmet_issue(lock@, *p, *s)));
                    } else {
                        assert(dependency_issues(lock@, *p, ds1) == dj);
                    }
                    assert(issues_view(issues@) =~= before + dependency_issues(lock@, *p, ds1));
                }
                j = j + 1;
            }
            proof {
                assert(p.dependencies@.take(p.dependencies@.len() as int) =~= p.dependencies@);
            }
        }
        i = i + 1;
    }
    assert(lock@.take(lock@.len() as int) =~= lock@);
    issues
}

/// The PyPI packages of a lock, in lock order.
pub open spec fn pypi_packages(lock: Seq<LockedPackage>) -> Seq<LockedPackage>
    decreases lock.len(),
{
    if lock.len() == 0 {
        Seq::empty()
    } else if lock.last().ecosystem == Ecosystem::Pypi {
        pypi_packages(lock.drop_last()).push(lock.last())
    } else {
        pypi_packages(lock.drop_last())
    }
}

proof fn lemma_has_match_pypi(lock: Seq<LockedPackage>, s: PackageSpec)
    ensures
        has_match(lock, s) == has_match(pypi_packages(lock), s),
    decreases lock.len(),
{
    if lock.len() > 0 {
        lemma_has_match_pypi(lock.drop_last(), s);
        let p = pypi_packages(lock.drop_last());
        assert(p.push(lock.last()).drop_last() =~= p);
    }
}

proof fn lemma_first_named_pypi(lock: Seq<LockedPackage>, name: Seq<char>)
    ensures
        first_named(lock, name) == first_named(pypi_packages(lock), name),
    decreases lock.len(),
{
    if lock.len() > 0 {
        lemma_first_named_pypi(lock.drop_last(), name);
        let p = pypi_packages(lock.drop_last());
        assert(p.push(lock.last()).drop_last() =~= p);
    }
}

proof fn lemma_dependency_issues_pypi(lock: Seq<LockedPackage>, p: LockedPackage, ds: Seq<PackageSpec>)
    ensures
        dependency_issues(lock, p, ds) == dependency_issues(pypi_packages(lock), p, ds),
    decreases ds.len(),
{
    if ds.len() > 0 {
        lemma_dependency_issues_pypi(lock, p, ds.drop_last());
        lemma_has_match_pypi(lock, ds.last());
        lemma_first_named_pypi(lock, ds.last().name@);
    }
}

proof fn lemma_package_issues_lock_pypi(lock: Seq<LockedPackage>, ps: Seq<LockedPackage>)
    ensures
        package_issues(lock, ps) == package_issues(pypi_packages(lock), ps),
    decreases ps.len(),
{
    if ps.len() > 0 {
        lemma_package_issues_lock_pypi(lock, ps.drop_last());
        lemma_dependency_issues_pypi(lock, ps.last(), ps.last().dependencies@);
    }
}

proof fn lemma_package_issues_packages_pypi(lock: Seq<LockedPackage>, ps: Seq<LockedPackage>)
    ensures
        package_issues(lock, ps) == package_issues(lock, pypi_packages(ps)),
    decreases ps.len(),
{
    if ps.len() > 0 {
        lemma_package_issues_packages_pypi(lock, ps.drop_last());
        let q = pypi_packages(ps.drop_last());
        assert(q.push(ps.last()).drop_last() =~= q);
    }
}

/// The check reads a lock's PyPI packages alone: two locks whose PyPI
/// packages are the same, in the same order, have the same issues, however
/// their packages of other ecosystems differ.
pub proof fn lock_issues_ignore_other_ecosystems(lock: Seq<LockedPackage>, other: Seq<LockedPackage>)
    requires
        pypi_packages(lock) == pypi_packages(other),
    ensures
        lock_issues(lock) == lock_issues(other),
{
    lemma_package_issues_lock_pypi(lock, lock);
    lemma_package_issues_packages_pypi(pypi_packages(lock), lock);
    lemma_package_issues_lock_pypi(other, other);
    lemma_package_issues_packages_pypi(pypi_packages(other), other);
}

/// Every PyPI requirement of every PyPI package among `ps` is met by `lock`.
pub open spec fn requirements_met(lock: Seq<LockedPackage>, ps: Seq<LockedPackage>) -> bool {
    forall|i: int, j: int|
        0 <= i < ps.len() && ps[i].ecosystem == Ecosystem::Pypi && 0 <= j < ps[i].dependencies@.len()
            && (#[trigger] ps[i].dependencies@[j]).ecosystem == Ecosystem::Pypi ==> has_match(
            lock,
            ps[i].dependencies@[j],
        )
}

proof fn lemma_dependency_issues_empty(lock: Seq<LockedPackage>, p: LockedPackage, ds: Seq<PackageSpec>)
    requires
        forall|j: int| 0 <= j < ds.len() && (#[trigger] ds[j]).ecosystem == Ecosystem::Pypi ==> has_match(lock, ds[j]),
    ensures
        dependency_issues(lock, p, ds).len() == 0,
    decreases ds.len(),
{
    if ds.len() > 0 {
        assert forall|j: int| 0 <= j < ds.drop_last().len() && (#[trigger] ds.drop_last()[j]).ecosystem
            == Ecosystem::Pypi implies has_match(lock, ds.drop_last()[j]) by {
            assert(ds.drop_last()[j] == ds[j]);
        }
        lemma_dependency_issues_empty(lock, p, ds.drop_last());
        assert(ds.last() == ds[ds.len() - 1]);
    }
}

proof fn lemma_package_issues_empty(lock: Seq<LockedPackage>, ps: Seq<LockedPackage>)
    requires
        requirements_met(lock, ps),
    ensures
        package_issues(lock, ps).len() == 0,
    decreases ps.len(),
{
    if ps.len() > 0 {
        assert forall|i: int, j: int|
            0 <= i < ps.drop_last().len() && ps.drop_last()[i].ecosystem == Ecosystem::Pypi && 0 <= j
                < ps.drop_last()[i].dependencies@.len() && (#[trigger] ps.drop_last()[i].dependencies@[j]).ecosystem
                == Ecosystem::Pypi implies has_match(lock, ps.drop_last()[i].dependencies@[j]) by {
            assert(ps.drop_last()[i] == ps[i]);
            assert(ps[i].dependencies@[j] == ps.drop_last()[i].dependencies@[j]);
        }
        lemma_package_issues_empty(lock, ps.drop_last());
        let p = ps.last();
        if p.ecosystem == Ecosystem::Pypi {
            assert forall|j: int| 0 <= j < p.dependencies@.len() && (#[trigger] p.dependencies@[j]).ecosystem
                == Ecosystem::Pypi implies has_match(lock, p.dependencies@[j]) by {
                assert(ps[ps.len() - 1].dependencies@[j] == p.dependencies@[j]);
            }
            lemma_dependency_issues_empty(lock, p, p.dependencies@);
        }
    }
}

/// A lock that meets every PyPI requirement of its PyPI packages has no
/// issues.
pub proof fn met_lock_has_no_issues(lock: Seq<LockedPackage>)
    requires
        requirements_met(lock, lock),
    ensures
        lock_issues(lock).len() == 0,
{
    lemma_package_issues_empty(lock, lock);
}

// ---------------------------------------------------------------------------
// Locking and installing
// ---------------------------------------------------------------------------

/// The key `ecosystem:name@version` of a locked package.
pub open spec fn key_of(q: LockedPackage) -> Seq<char> {
    package_key(q.ecosystem, q.name@, q.version@)
}

/// The keys named in a list.
pub open spec fn key_set(keys: Seq<Seq<char>>) -> Set<Seq<char>> {
    Set::new(|k: Seq<char>| keys.contains(k))
}

/// The keys of some locked packages.
pub open spec fn keys_of(ps: Seq<LockedPackage>) -> Seq<Seq<char>> {
    Seq::new(ps.len(), |i: int| key_of(ps[i]))
}

/// The packages of a lock whose keys are among `keys`, in lock order.
pub open spec fn selected(lock: Seq<LockedPackage>, keys: Set<Seq<char>>) -> Seq<LockedPackage>
    decreases lock.len(),
{
    if lock.len() == 0 {
        Seq::empty()
    } else if keys.contains(key_of(lock.last())) {
        selected(lock.drop_last(), keys).push(lock.last())
    } else {
        selected(lock.drop_last(), keys)
    }
}

/// The first package whose verdict is not `Accepted`.
pub open spec fn first_blocked(lock: Seq<LockedPackage>) -> Option<LockedPackage>
    decreases lock.len(),
{
    if lock.len() == 0 {
        None
    } else {
        match first_blocked(lock.drop_last()) {
            Some(q) => Some(q),
            None => if !lock.last().accepted {
                Some(lock.last())
            } else {
                None
            },
        }
    }
}

/// How many packages of an ecosystem a lock holds.
pub open spec fn count_of(lock: Seq<LockedPackage>, e: Ecosystem) -> nat
    decreases lock.len(),
{
    if lock.len() == 0 {
        0
    } else {
        count_of(lock.drop_last(), e) + if lock.last().ecosystem == e {
            1nat
        } else {
            0nat
        }
    }
}

/// How many packages an install takes, by ecosystem.
#[derive(Debug, Clone, Copy, PartialEq, Eq)]
pub struct InstallCounts {
    pub npm_packages: usize,
    pub pypi_packages: usize,
}

/// What an install of the packages `lock` comes to: refused with
/// `BlockedLockedPackage` and the key of the first package whose verdict
/// is not `Accepted`; else every package is taken, counted by ecosystem.
pub open spec fn install_outcome(lock: Seq<LockedPackage>, r: Result<InstallCounts, OmcRegistryError>) -> bool {
    match first_blocked(lock) {
        Some(q) => r matches Err(OmcRegistryError::BlockedLockedPackage(k)) && k@ == key_of(q),
        None => r matches Ok(c) && c.npm_packages == count_of(lock, Ecosystem::Npm) && c.pypi_packages
            == count_of(lock, Ecosystem::Pypi),
    }
}

proof fn lemma_count_bound(lock: Seq<LockedPackage>, e: Ecosystem)
    ensures
        count_of(lock, e) <= lock.len(),
    decreases lock.len(),
{
    if lock.len() > 0 {
        lemma_count_bound(lock.drop_last(), e);
    }
}

/// Whether a key is among some keys.
fn key_listed(k: &[char], keys: &Vec<Vec<char>>) -> (b: bool)
    ensures
        b == seqs_of_keys(keys@).contains(k@),
{
    let mut i: usize = 0;
    while i < keys.len()
        invariant
            i <= keys@.len(),
            forall|j: int| 0 <= j < i ==> seqs_of_keys(keys@)[j] != k@,
        decreases keys.len() - i,
    {
        if eq_chars(keys[i].as_slice(), k) {
            assert(seqs_of_keys(keys@)[i as int] == k@);
            return true;
        }
        i = i + 1;
    }
    false
}

/// The character sequences of some keys.
pub open spec fn seqs_of_keys(v: Seq<Vec<char>>) -> Seq<Seq<char>> {
    Seq::new(v.len(), |i: int| v[i]@)
}

/// The keys of a list of strings, as character vectors.
fn key_chars(keys: &Vec<String>) -> (r: Vec<Vec<char>>)
    ensures
        seqs_of_keys(r@) == texts_view(keys@),
{
    let mut out: Vec<Vec<char>> = Vec::new();
    let mut i: usize = 0;
    while i < keys.len()
        invariant
            i <= keys@.len(),
            out@.len() == i,
            seqs_of_keys(out@) == texts_view(keys@).take(i as int),
        decreases keys.len() - i,
    {
        let c = chars_of(keys[i].as_str());
        let ghost prev = out@;
        out.push(c);
        proof {
            assert(out@ == prev.push(c));
            assert forall|j: int| 0 <= j < i + 1 implies seqs_of_keys(out@)[j] == texts_view(keys@).take(i + 1)[j] by {
                if j < i {
                    assert(out@[j] == prev[j]);
                    assert(seqs_of_keys(prev)[j] == texts_view(keys@).take(i as int)[j]);
                }
            }
            assert(seqs_of_keys(out@) =~= texts_view(keys@).take(i + 1));
        }
        i = i + 1;
    }
    assert(texts_view(keys@).take(keys@.len() as int) =~= texts_view(keys@));
    out
}

/// The keys of some locked packages, as character vectors.
fn package_key_chars(ps: &Vec<LockedPackage>) -> (r: Vec<Vec<char>>)
    ensures
        seqs_of_keys(r@) == keys_of(ps@),
{
    let mut out: Vec<Vec<char>> = Vec::new();
    let mut i: usize = 0;
    while i < ps.len()
        invariant
            i <= ps@.len(),
            out@.len() == i,
            seqs_of_keys(out@) == keys_of(ps@).take(i as int),
        decreases ps.len() - i,
    {
        let k = locked_package_key(&ps[i]);
        let c = chars_of(k.as_str());
        let ghost prev = out@;
        out.push(c);
        proof {
            assert(out@ == prev.push(c));
            assert forall|j: int| 0 <= j < i + 1 implies seqs_of_keys(out@)[j] == keys_of(ps@).take(i + 1)[j] by {
                if j < i {
                    assert(out@[j] == prev[j]);
                    assert(seqs_of_keys(prev)[j] == keys_of(ps@).take(i as int)[j]);
                }
            }
            assert(seqs_of_keys(out@) =~= keys_of(ps@).take(i + 1));
        }
        i = i + 1;
    }
    assert(keys_of(ps@).take(ps@.len() as int) =~= keys_of(ps@));
    out
}

/// The install of a project's freshly written lock: every locked package
/// is taken, in lock order, and the install is refused with
/// `BlockedLockedPackage` and the package key at the first package whose
/// verdict is not `Accepted`.  Reading and writing the lock, fetching and
/// linking the archives are the caller's.
pub fn install_project(lock: &Vec<LockedPackage>) -> (r: Result<InstallCounts, OmcRegistryError>)
    ensures
        install_outcome(lock@, r),
{
    let mut npm: usize = 0;
    let mut pypi: usize = 0;
    let mut i: usize = 0;
    while i < lock.len()
        invariant
            i <= lock@.len(),
            first_blocked(lock@.take(i as int)) is None,
            npm == count_of(lock@.take(i as int), Ecosystem::Npm),
            pypi == count_of(lock@.take(i as int), Ecosystem::Pypi),
        decreases lock.len() - i,
    {
        proof {
            assert(lock@.take(i + 1).drop_last() =~= lock@.take(i as int));
            lemma_count_bound(lock@.take(i as int), Ecosystem::Npm);
            lemma_count_bound(lock@.take(i as int), Ecosystem::Pypi);
        }
        let q = &lock[i];
        if !q.accepted {
            proof {
                lemma_first_blocked_prefix(lock@, i as int + 1);
            }
            return Err(OmcRegistryError::BlockedLockedPackage(locked_package_key(q)));
        }
        match q.ecosystem {
            Ecosystem::Npm => {
                npm = npm + 1;
            },
            Ecosystem::Pypi => {
                pypi = pypi + 1;
            },
        }
        i = i + 1;
    }
    assert(lock@.take(lock@.len() as int) =~= lock@);
    Ok(InstallCounts { npm_packages: npm, pypi_packages: pypi })
}

proof fn lemma_first_blocked_prefix(lock: Seq<LockedPackage>, n: int)
    requires
        0 <= n <= lock.len(),
        first_blocked(lock.take(n)) is Some,
    ensures
        first_blocked(lock) == first_blocked(lock.take(n)),
    decreases lock.len() - n,
{
    if n < lock.len() {
        assert(lock.take(n + 1).drop_last() =~= lock.take(n));
        lemma_first_blocked_prefix(lock, n + 1);
    } else {
        assert(lock.take(n) =~= lock);
    }
}

proof fn lemma_selected_prefix_blocked(lock: Seq<LockedPackage>, keys: Set<Seq<char>>, n: int)
    requires
        0 <= n <= lock.len(),
        first_blocked(selected(lock.take(n), keys)) is Some,
    ensures
        first_blocked(selected(lock, keys)) == first_blocked(selected(lock.take(n), keys)),
    decreases lock.len() - n,
{
    if n < lock.len() {
        assert(lock.take(n + 1).drop_last() =~= lock.take(n));
        let sn = selected(lock.take(n), keys);
        assert(sn.push(lock[n]).drop_last() =~= sn);
        lemma_selected_prefix_blocked(lock, keys, n + 1);
    } else {
        assert(lock.take(n) =~= lock);
    }
}

/// The install of a project from its existing lock.  The lock is out of
/// date, refused with `LockfileOutOfDate` and the request's text, when some
/// request of the project (`requests`, in order) has no locked package
/// that meets it.  Otherwise only the locked packages whose keys are
/// `retained` (those the requests reach through their locked dependencies)
/// are taken, in lock order, and the install is refused with
/// `BlockedLockedPackage` and the package key at the first of them whose
/// verdict is not `Accepted`.  The lock itself is left as it is.
pub fn install_locked_project(
    lock: &Vec<LockedPackage>,
    requests: &Vec<RequestedSpec>,
    retained: &Vec<String>,
) -> (r: Result<InstallCounts, OmcRegistryError>)
    requires
        forall|i: int| 0 <= i < requests@.len() ==> request_readable(lock@, #[trigger] requests@[i]),
    ensures
        match first_unmet_request(lock@, requests@) {
            Some(i) => r matches Err(OmcRegistryError::LockfileOutOfDate(t)) && t@ == requests@[i].requested@,
            None => install_outcome(selected(lock@, key_set(texts_view(retained@))), r),
        },
{
    match check_locked_requests(lock, requests) {
        Ok(()) => {},
        Err(e) => {
            return Err(e);
        },
    }
    let keys = key_chars(retained);
    let ghost ks = key_set(texts_view(retained@));
    let mut npm: usize = 0;
    let mut pypi: usize = 0;
    let mut i: usize = 0;
    while i < lock.len()
        invariant
            i <= lock@.len(),
            seqs_of_keys(keys@) == texts_view(retained@),
            ks == key_set(texts_view(retained@)),
            first_unmet_request(lock@, requests@) is None,
            first_blocked(selected(lock@.take(i as int), ks)) is None,
            npm == count_of(selected(lock@.take(i as int), ks), Ecosystem::Npm),
            pypi == count_of(selected(lock@.take(i as int), ks), Ecosystem::Pypi),
        decreases lock.len() - i,
    {
        let ghost prev = selected(lock@.take(i as int), ks);
        proof {
            assert(lock@.take(i + 1).drop_last() =~= lock@.take(i as int));
            assert(lock@.take(i + 1).last() == lock@[i as int]);
            assert(prev.push(lock@[i as int]).drop_last() =~= prev);
            lemma_count_bound(prev, Ecosystem::Npm);
            lemma_count_bound(prev, Ecosystem::Pypi);
            lemma_selected_len(lock@.take(i as int), ks);
        }
        let q = &lock[i];
        let k = locked_package_key(q);
        if key_listed(chars_of(k.as_str()).as_slice(), &keys) {
            assert(ks.contains(key_of(lock@[i as int])));
            if !q.accepted {
                proof {
                    lemma_selected_prefix_blocked(lock@, ks, i as int + 1);
                }
                return Err(OmcRegistryError::BlockedLockedPackage(k));
            }
            match q.ecosystem {
                Ecosystem::Npm => {
                    npm = npm + 1;
                },
                Ecosystem::Pypi => {
                    pypi = pypi + 1;
                },
            }
        }
        i = i + 1;
    }
    assert(lock@.take(lock@.len() as int) =~= lock@);
    Ok(InstallCounts { npm_packages: npm, pypi_packages: pypi })
}

proof fn lemma_selected_len(lock: Seq<LockedPackage>, keys: Set<Seq<char>>)
    ensures
        selected(lock, keys).len() <= lock.len(),
    decreases lock.len(),
{
    if lock.len() > 0 {
        lemma_selected_len(lock.drop_last(), keys);
    }
}

/// The lock a locking run leaves: of the entries of the lock, those whose
/// keys are keys of packages the run resolved (`reports`), in lock order;
/// stale entries are dropped.
pub fn lock_project(lock: Vec<LockedPackage>, reports: &Vec<LockedPackage>) -> (r: Vec<LockedPackage>)
    ensures
        r@ == selected(lock@, key_set(keys_of(reports@))),
{
    let keys = package_key_chars(reports);
    let ghost ks = key_set(keys_of(reports@));
    let ghost orig = lock@;
    let mut rest = lock;
    let mut out: Vec<LockedPackage> = Vec::new();
    let ghost mut n: int = 0;
    assert(orig.skip(0) =~= orig);
    while rest.len() > 0
        invariant
            0 <= n <= orig.len(),
            rest@ == orig.skip(n),
            seqs_of_keys(keys@) == keys_of(reports@),
            ks == key_set(keys_of(reports@)),
            out@ == selected(orig.take(n), ks),
        decreases rest.len(),
    {
        let q = rest.remove(0);
        proof {
            assert(orig.take(n + 1).drop_last() =~= orig.take(n));
            assert(orig.take(n + 1).last() == q);
        }
        let k = locked_package_key(&q);
        if key_listed(chars_of(k.as_str()).as_slice(), &keys) {
            out.push(q);
        }
        proof {
            n = n + 1;
            assert(rest@ =~= orig.skip(n));
        }
    }
    assert(orig.take(n) =~= orig);
    out
}

/// A locking run keeps only entries it resolved: every entry of the lock
/// it leaves has the key of a package the run resolved.
pub proof fn locked_entries_were_resolved(lock: Seq<LockedPackage>, reports: Seq<LockedPackage>, i: int)
    requires
        0 <= i < selected(lock, key_set(keys_of(reports))).len(),
    ensures
        exists|j: int| 0 <= j < reports.len() && key_of(reports[j]) == key_of(
            selected(lock, key_set(keys_of(reports)))[i],
        ),
{
    lemma_selected_keys(lock, key_set(keys_of(reports)), i);
    let k = key_of(selected(lock, key_set(keys_of(reports)))[i]);
    assert(keys_of(reports).contains(k));
    let j = choose|j: int| 0 <= j < keys_of(reports).len() && keys_of(reports)[j] == k;
    assert(key_of(reports[j]) == k);
}

proof fn lemma_selected_keys(lock: Seq<LockedPackage>, keys: Set<Seq<char>>, i: int)
    requires
        0 <= i < selected(lock, keys).len(),
    ensures
        keys.contains(key_of(selected(lock, keys)[i])),
    decreases lock.len(),
{
    if lock.len() > 0 {
        let before = selected(lock.drop_last(), keys);
        if keys.contains(key_of(lock.last())) {
            if i < before.len() {
                lemma_selected_keys(lock.drop_last(), keys, i);
            }
        } else {
            lemma_selected_keys(lock.drop_last(), keys, i);
        }
    }
}

/// The request `k` has the text of some chosen request.
pub open spec fn requested_covered(requested: Seq<String>, chosen: Seq<usize>, k: int) -> bool {
    exists|a: int| 0 <= a < chosen.len() && #[trigger] requested[chosen[a] as int]@ == requested[k]@
}

/// The requests a locking run resolves: the first request of each
/// distinct text, in order; later repeats are passed over.
pub fn distinct_requested_roots(requested: &Vec<String>) -> (r: Vec<usize>)
    ensures
        forall|i: int| 0 <= i < r@.len() ==> r@[i] < requested@.len(),
        forall|i: int, j: int| 0 <= i < j < r@.len() ==> r@[i] < r@[j],
        forall|i: int, k: int|
            #![trigger requested@[k], r@[i]]
            0 <= i < r@.len() && 0 <= k < r@[i] ==> requested@[k]@ != requested@[r@[i] as int]@,
        forall|k: int|
            0 <= k < requested@.len() ==> #[trigger] requested_covered(requested@, r@, k),
        forall|i: int, j: int|
            #![trigger r@[i], r@[j]]
            0 <= i < r@.len() && 0 <= j < r@.len() && i != j ==> requested@[r@[i] as int]@
                != requested@[r@[j] as int]@,
{
    let mut out: Vec<usize> = Vec::new();
    let ghost mut wit: Seq<int> = Seq::empty();
    let mut i: usize = 0;
    while i < requested.len()
        invariant
            i <= requested@.len(),
            wit.len() == i,
            forall|a: int| 0 <= a < out@.len() ==> out@[a] < i,
            forall|a: int, b: int| 0 <= a < b < out@.len() ==> out@[a] < out@[b],
            forall|a: int, k: int|
                #![trigger requested@[k], out@[a]]
                0 <= a < out@.len() && 0 <= k < out@[a] ==> requested@[k]@ != requested@[out@[a] as int]@,
            forall|k: int|
                #![trigger wit[k]]
                0 <= k < i ==> 0 <= wit[k] < out@.len() && requested@[out@[wit[k]] as int]@
                    == requested@[k]@,
        decreases requested.len() - i,
    {
        let x = chars_of(requested[i].as_str());
        let mut k: usize = 0;
        let mut found: Option<usize> = None;
        while k < i
            invariant
                k <= i < requested@.len(),
                x@ == requested@[i as int]@,
                found is None ==> forall|m: int| #![trigger requested@[m]] 0 <= m < k ==> requested@[m]@
                    != requested@[i as int]@,
                found matches Some(m) ==> m < i && requested@[m as int]@ == requested@[i as int]@,
            decreases i - k,
        {
            if found.is_none() && eq_chars(chars_of(requested[k].as_str()).as_slice(), x.as_slice()) {
                found = Some(k);
            }
            k = k + 1;
        }
        match found {
            Some(m) => {
                proof {
                    wit = wit.push(wit[m as int]);
                }
            },
            None => {
                let ghost before = out@;
                out.push(i);
                proof {
                    wit = wit.push(before.len() as int);
                    assert forall|a: int, k2: int|
                        #![trigger requested@[k2], out@[a]]
                        0 <= a < out@.len() && 0 <= k2 < out@[a] implies requested@[k2]@
                        != requested@[out@[a] as int]@ by {
                        if a < before.len() {
                            assert(out@[a] == before[a]);
                        }
                    }
                }
            },
        }
        proof {
            assert forall|k2: int| #![trigger wit[k2]] 0 <= k2 < i + 1 implies 0 <= wit[k2] < out@.len()
                && requested@[out@[wit[k2]] as int]@ == requested@[k2]@ by {
                if k2 < i {
                    assert(wit[k2] == wit.drop_last()[k2]);
                }
            }
        }
        i = i + 1;
    }
    proof {
        assert forall|k: int| 0 <= k < requested@.len() implies #[trigger] requested_covered(requested@, out@, k) by {
            assert(0 <= wit[k] < out@.len());
            assert(requested@[out@[wit[k]] as int]@ == requested@[k]@);
        }
        assert forall|a: int, b: int|
            #![trigger out@[a], out@[b]]
            0 <= a < out@.len() && 0 <= b < out@.len() && a != b implies requested@[out@[a] as int]@
                != requested@[out@[b] as int]@ by {
            if a < b {
                assert(0 <= out@[a] < out@[b]);
            } else {
                assert(0 <= out@[b] < out@[a]);
            }
        }
    }
    out
}

// ---------------------------------------------------------------------------
// Install directories
// ---------------------------------------------------------------------------

/// `Path::join` on Unix paths: an absolute `path` replaces `base`;
/// otherwise `path` follows `base`, with a `/` between unless `base` is
/// empty or already ends with one.
pub open spec fn path_join(base: Seq<char>, path: Seq<char>) -> Seq<char> {
    if path.len() > 0 && path[0] == '/' {
        path
    } else if base.len() == 0 || base.last() == '/' {
        base + path
    } else {
        base + "/"@ + path
    }
}

/// Joins two Unix paths as `Path::join` does.
pub fn join_path(base: &[char], path: &[char]) -> (r: Vec<char>)
    ensures
        r@ == path_join(base@, path@),
{
    proof {
        reveal_strlit("/");
    }
    if path.len() > 0 && path[0] == '/' {
        crate::text::slice_of(path, 0, path.len())
    } else if base.len() == 0 || base[base.len() - 1] == '/' {
        concat_chars(base, path)
    } else {
        let with_sep = concat_chars(base, chars_of("/").as_slice());
        concat_chars(with_sep.as_slice(), path)
    }
}

/// Where an install puts things.
pub struct InstallDirectories {
    pub node_modules: String,
    pub npm_bin_dir: String,
    pub python_site_packages: String,
    pub python_bin_dir: String,
    pub python_sdists_dir: String,
}

/// The project's own Python directory, `.omc/python`.
pub open spec fn omc_python_dir(project: Seq<char>) -> Seq<char> {
    path_join(path_join(project, ".omc"@), "python"@)
}

/// The install directories for a project: `node_modules` and its `.bin`;
/// site-packages in the Python target when one is given (relative to the
/// project), else `.omc/python/site-packages`; scripts in the given bin
/// directory (relative to the project), else in the target's `bin`, else
/// `.omc/python/bin`; sdists in `.omc/python/sdists`.
pub open spec fn install_directories_of(
    project: Seq<char>,
    target: Option<Seq<char>>,
    bin: Option<Seq<char>>,
) -> (Seq<char>, Seq<char>, Seq<char>, Seq<char>, Seq<char>) {
    let node_modules = path_join(project, "node_modules"@);
    let site = match target {
        Some(t) => path_join(project, t),
        None => path_join(omc_python_dir(project), "site-packages"@),
    };
    let bin_dir = match bin {
        Some(b) => path_join(project, b),
        None => match target {
            Some(_) => path_join(site, "bin"@),
            None => path_join(omc_python_dir(project), "bin"@),
        },
    };
    (
        node_modules,
        path_join(node_modules, ".bin"@),
        site,
        bin_dir,
        path_join(omc_python_dir(project), "sdists"@),
    )
}

/// The install directories for a project at `project_dir`, with an
/// optional Python target and bin directory.
pub fn install_directories(
    project_dir: &str,
    python_target_dir: Option<&str>,
    python_bin_dir: Option<&str>,
) -> (r: InstallDirectories)
    ensures
        (r.node_modules@, r.npm_bin_dir@, r.python_site_packages@, r.python_bin_dir@, r.python_sdists_dir@)
            == install_directories_of(
            project_dir@,
            match python_target_dir {
                Some(t) => Some(t@),
                None => None,
            },
            match python_bin_dir {
                Some(b) => Some(b@),
                None => None,
            },
        ),
{
    let project = chars_of(project_dir);
    let node_modules = join_path(project.as_slice(), chars_of("node_modules").as_slice());
    let npm_bin = join_path(node_modules.as_slice(), chars_of(".bin").as_slice());
    let omc = join_path(project.as_slice(), chars_of(".omc").as_slice());
    let python = join_path(omc.as_slice(), chars_of("python").as_slice());
    let site = match python_target_dir {
        Some(t) => join_path(project.as_slice(), chars_of(t).as_slice()),
        None => join_path(python.as_slice(), chars_of("site-packages").as_slice()),
    };
    let bin = match python_bin_dir {
        Some(b) => join_path(project.as_slice(), chars_of(b).as_slice()),
        None => match python_target_dir {
            Some(_) => join_path(site.as_slice(), chars_of("bin").as_slice()),
            None => join_path(python.as_slice(), chars_of("bin").as_slice()),
        },
    };
    let sdists = join_path(python.as_slice(), chars_of("sdists").as_slice());
    InstallDirectories {
        node_modules: string_from_chars(node_modules.as_slice()),
        npm_bin_dir: string_from_chars(npm_bin.as_slice()),
        python_site_packages: string_from_chars(site.as_slice()),
        python_bin_dir: string_from_chars(bin.as_slice()),
        python_sdists_dir: string_from_chars(sdists.as_slice()),
    }
}

// ---------------------------------------------------------------------------
// Requested packages against the lock
// ---------------------------------------------------------------------------

/// A requested package as a run holds it: the spec; its text as requested;
/// the version requirement that holds for it once the project's
/// constraints and npm overrides are applied (for an npm alias, the
/// aliased package's); and the hashes the requirements files pin for it,
/// if they pin any.
pub struct RequestedSpec {
    pub spec: PackageSpec,
    pub requested: String,
    pub requirement: Option<String>,
    pub hashes: Option<Vec<String>>,
}

/// A locked package of the request's ecosystem and name (normalized for
/// PyPI), from its direct URL where it names one.
pub open spec fn request_name_match(q: LockedPackage, s: RequestedSpec) -> bool {
    &&& q.ecosystem == s.spec.ecosystem
    &&& match s.spec.ecosystem {
        Ecosystem::Npm => q.name@ == s.spec.name@,
        Ecosystem::Pypi => normalized_name(q.name@) == s.spec.name@,
    }
    &&& match s.spec.direct_url {
        Some(u) => q.source_url@ == u@,
        None => true,
    }
}

/// A locked package meets a request: name and URL, then the version
/// requirement, then the pinned hashes.
pub open spec fn request_match(q: LockedPackage, s: RequestedSpec) -> bool {
    &&& request_name_match(q, s)
    &&& match s.requirement {
        None => true,
        Some(r) => match s.spec.ecosystem {
            Ecosystem::Pypi => version_satisfies(q.version@, r@) == Some(true),
            Ecosystem::Npm => npm_satisfies(q.version@, r@),
        },
    }
    &&& match s.hashes {
        None => true,
        Some(hs) => texts_view(hs@).contains(q.sha256@),
    }
}

/// Some locked package meets the request.
pub open spec fn request_met(lock: Seq<LockedPackage>, s: RequestedSpec) -> bool {
    exists|k: int| 0 <= k < lock.len() && request_match(#[trigger] lock[k], s)
}

/// The locked packages of a request's name can be read as the lookup reads
/// them: each version against the requirement, and, where two or more
/// PyPI packages meet it, each version on its own.
pub open spec fn request_readable(lock: Seq<LockedPackage>, s: RequestedSpec) -> bool {
    &&& forall|k: int|
        0 <= k < lock.len() && request_name_match(#[trigger] lock[k], s) ==> match s.requirement {
            None => true,
            Some(r) => match s.spec.ecosystem {
                Ecosystem::Pypi => version_satisfies(lock[k].version@, r@) is Some,
                Ecosystem::Npm => fits_at(r@, 1),
            },
        }
    &&& forall|k1: int, k2: int|
        0 <= k1 < lock.len() && 0 <= k2 < lock.len() && k1 != k2 && s.spec.ecosystem == Ecosystem::Pypi
            && request_match(#[trigger] lock[k1], s) && request_match(#[trigger] lock[k2], s)
            ==> pypi_version_ok(lock[k1].version@) && pypi_version_ok(lock[k2].version@)
}

/// The first request that no locked package meets.
pub open spec fn first_unmet_request(lock: Seq<LockedPackage>, requests: Seq<RequestedSpec>) -> Option<int>
    decreases requests.len(),
{
    if requests.len() == 0 {
        None
    } else {
        match first_unmet_request(lock, requests.drop_last()) {
            Some(i) => Some(i),
            None => if !request_met(lock, requests.last()) {
                Some(requests.len() - 1)
            } else {
                None
            },
        }
    }
}

/// Whether a text is among some texts.
fn text_listed(t: &str, xs: &Vec<String>) -> (b: bool)
    ensures
        b == texts_view(xs@).contains(t@),
{
    let keys = key_chars(xs);
    key_listed(chars_of(t).as_slice(), &keys)
}

/// Whether the locked package at `i` meets a request.
fn package_meets(lock: &Vec<LockedPackage>, i: usize, s: &RequestedSpec) -> (b: bool)
    requires
        i < lock@.len(),
        request_readable(lock@, *s),
    ensures
        b == request_match(lock@[i as int], *s),
{
    let q = &lock[i];
    if q.ecosystem != s.spec.ecosystem {
        return false;
    }
    let name = chars_of(s.spec.name.as_str());
    let name_ok = match s.spec.ecosystem {
        Ecosystem::Npm => eq_chars(chars_of(q.name.as_str()).as_slice(), name.as_slice()),
        Ecosystem::Pypi => {
            let n = normalize_pypi_name(chars_of(q.name.as_str()).as_slice());
            eq_chars(n.as_slice(), name.as_slice())
        },
    };
    if !name_ok {
        return false;
    }
    let url_ok = match &s.spec.direct_url {
        Some(u) => eq_chars(chars_of(q.source_url.as_str()).as_slice(), chars_of(u.as_str()).as_slice()),
        None => true,
    };
    if !url_ok {
        return false;
    }
    assert(request_name_match(lock@[i as int], *s));
    let version_ok = match &s.requirement {
        None => true,
        Some(r) => match s.spec.ecosystem {
            Ecosystem::Pypi => pypi_version_satisfies(q.version.as_str(), r.as_str()),
            Ecosystem::Npm => npm_version_satisfies(q.version.as_str(), r.as_str()),
        },
    };
    if !version_ok {
        return false;
    }
    match &s.hashes {
        None => true,
        Some(hs) => text_listed(q.sha256.as_str(), hs),
    }
}

/// Whether some locked package meets a request.
fn request_met_in(lock: &Vec<LockedPackage>, s: &RequestedSpec) -> (b: bool)
    requires
        request_readable(lock@, *s),
    ensures
        b == request_met(lock@, *s),
{
    let mut i: usize = 0;
    while i < lock.len()
        invariant
            i <= lock@.len(),
            request_readable(lock@, *s),
            forall|k: int| 0 <= k < i ==> !request_match(#[trigger] lock@[k], *s),
        decreases lock.len() - i,
    {
        if package_meets(lock, i, s) {
            return true;
        }
        i = i + 1;
    }
    false
}

/// How two locked versions of a request's ecosystem compare: below zero
/// when `a` is lower, zero when equal, above zero when higher.
pub open spec fn locked_order(e: Ecosystem, a: Seq<char>, b: Seq<char>) -> int {
    match e {
        Ecosystem::Pypi => version_order(a, b),
        Ecosystem::Npm => npm_version_order(a, b),
    }
}

/// The locked package a request resolves to: the highest version among
/// those that meet it, the last of equal ones.
pub open spec fn best_locked(lock: Seq<LockedPackage>, s: RequestedSpec) -> Option<int>
    decreases lock.len(),
{
    if lock.len() == 0 {
        None
    } else {
        let k = lock.len() - 1;
        match best_locked(lock.drop_last(), s) {
            None => if request_match(lock[k], s) {
                Some(k)
            } else {
                None
            },
            Some(b) => if request_match(lock[k], s) && locked_order(
                s.spec.ecosystem,
                lock[b].version@,
                lock[k].version@,
            ) <= 0 {
                Some(k)
            } else {
                Some(b)
            },
        }
    }
}

fn npm_order_sign(a: &str, b: &str) -> (r: i8)
    ensures
        r == npm_version_order(a@, b@),
{
    match compare_npm_versions(a, b) {
        Ordering::Less => -1,
        Ordering::Equal => 0,
        Ordering::Greater => 1,
    }
}

proof fn lemma_best_locked_in_range(lock: Seq<LockedPackage>, s: RequestedSpec)
    ensures
        best_locked(lock, s) matches Some(b) ==> 0 <= b < lock.len() && request_match(lock[b], s),
    decreases lock.len(),
{
    if lock.len() > 0 {
        lemma_best_locked_in_range(lock.drop_last(), s);
    }
}

/// The locked package a request resolves to: the highest version among
/// the locked packages that meet it (the last of equal ones), by its
/// index in the lock.
pub fn find_locked_package_for_spec(lock: &Vec<LockedPackage>, s: &RequestedSpec) -> (r: Option<usize>)
    requires
        request_readable(lock@, *s),
    ensures
        match r {
            Some(k) => best_locked(lock@, *s) == Some(k as int),
            None => best_locked(lock@, *s) is None,
        },
{
    let mut best: Option<usize> = None;
    let mut i: usize = 0;
    while i < lock.len()
        invariant
            i <= lock@.len(),
            request_readable(lock@, *s),
            match best {
                Some(b) => best_locked(lock@.take(i as int), *s) == Some(b as int) && b < i,
                None => best_locked(lock@.take(i as int), *s) is None,
            },
        decreases lock.len() - i,
    {
        proof {
            assert(lock@.take(i + 1).drop_last() =~= lock@.take(i as int));
            assert(lock@.take(i + 1)[i as int] == lock@[i as int]);
            lemma_best_locked_in_range(lock@.take(i as int), *s);
        }
        let hit = package_meets(lock, i, s);
        if hit {
            match best {
                None => {
                    best = Some(i);
                },
                Some(b) => {
                    proof {
                        assert(lock@.take(i as int)[b as int] == lock@[b as int]);
                    }
                    let o = match s.spec.ecosystem {
                        Ecosystem::Pypi => pypi_version_order(lock[b].version.as_str(), lock[i].version.as_str()),
                        Ecosystem::Npm => npm_order_sign(lock[b].version.as_str(), lock[i].version.as_str()),
                    };
                    if o <= 0 {
                        best = Some(i);
                    }
                },
            }
        }
        i = i + 1;
    }
    assert(lock@.take(lock@.len() as int) =~= lock@);
    best
}

/// The lock is out of date for the requests: `LockfileOutOfDate` with the
/// text of the first request that no locked package meets.
pub fn check_locked_requests(lock: &Vec<LockedPackage>, requests: &Vec<RequestedSpec>) -> (r: Result<
    (),
    OmcRegistryError,
>)
    requires
        forall|i: int| 0 <= i < requests@.len() ==> request_readable(lock@, #[trigger] requests@[i]),
    ensures
        match first_unmet_request(lock@, requests@) {
            None => r is Ok,
            Some(i) => r matches Err(OmcRegistryError::LockfileOutOfDate(t)) && t@ == requests@[i].requested@,
        },
{
    let mut i: usize = 0;
    while i < requests.len()
        invariant
            i <= requests@.len(),
            forall|j: int| 0 <= j < requests@.len() ==> request_readable(lock@, #[trigger] requests@[j]),
            first_unmet_request(lock@, requests@.take(i as int)) is None,
        decreases requests.len() - i,
    {
        proof {
            assert(requests@.take(i + 1).drop_last() =~= requests@.take(i as int));
        }
        if !request_met_in(lock, &requests[i]) {
            proof {
                lemma_first_unmet_prefix(lock@, requests@, i as int + 1);
            }
            return Err(OmcRegistryError::LockfileOutOfDate(requests[i].requested.clone()));
        }
        i = i + 1;
    }
    assert(requests@.take(requests@.len() as int) =~= requests@);
    Ok(())
}

proof fn lemma_first_unmet_prefix(lock: Seq<LockedPackage>, requests: Seq<RequestedSpec>, n: int)
    requires
        0 <= n <= requests.len(),
        first_unmet_request(lock, requests.take(n)) is Some,
    ensures
        first_unmet_request(lock, requests) == first_unmet_request(lock, requests.take(n)),
    decreases requests.len() - n,
{
    if n < requests.len() {
        assert(requests.take(n + 1).drop_last() =~= requests.take(n));
        lemma_first_unmet_prefix(lock, requests, n + 1);
    } else {
        assert(requests.take(n) =~= requests);
    }
}

/// Why `--require-hashes` refuses a request, if it does: a PyPI request
/// with no pinned hashes needs a hash (`true`); one without a direct URL
/// whose requirement has no `==` pin needs an exact pin (`false`).
pub open spec fn hash_refusal(s: RequestedSpec) -> Option<bool> {
    if s.spec.ecosystem != Ecosystem::Pypi {
        None
    } else if s.hashes is None {
        Some(true)
    } else if s.spec.direct_url is None && !exact_requirement(
        match s.requirement {
            Some(r) => r@,
            None => Seq::empty(),
        },
    ) {
        Some(false)
    } else {
        None
    }
}

/// The first request that `--require-hashes` refuses.
pub open spec fn first_hash_refusal(requests: Seq<RequestedSpec>) -> Option<(int, bool)>
    decreases requests.len(),
{
    if requests.len() == 0 {
        None
    } else {
        match first_hash_refusal(requests.drop_last()) {
            Some(x) => Some(x),
            None => match hash_refusal(requests.last()) {
                Some(b) => Some((requests.len() - 1, b)),
                None => None,
            },
        }
    }
}

/// The refusal text of `--require-hashes` for a request.
pub open spec fn hash_refusal_message(needs_hash: bool, requested: Seq<char>) -> Seq<char> {
    if needs_hash {
        "--require-hashes needs a hash for `"@ + requested + "`"@
    } else {
        "--require-hashes needs an exact pin for `"@ + requested + "`"@
    }
}

/// `--require-hashes`: every PyPI request must have pinned hashes, and,
/// unless it names a direct URL, an `==` pin in its requirement; refused
/// with `UnsupportedRequirement` at the first that does not.
pub fn enforce_pypi_hashes_for_specs(requests: &Vec<RequestedSpec>) -> (r: Result<(), OmcRegistryError>)
    ensures
        match first_hash_refusal(requests@) {
            None => r is Ok,
            Some((i, b)) => r matches Err(OmcRegistryError::UnsupportedRequirement(m)) && m@
                == hash_refusal_message(b, requests@[i].requested@),
        },
{
    let mut i: usize = 0;
    while i < requests.len()
        invariant
            i <= requests@.len(),
            first_hash_refusal(requests@.take(i as int)) is None,
        decreases requests.len() - i,
    {
        proof {
            assert(requests@.take(i + 1).drop_last() =~= requests@.take(i as int));
            assert(requests@.take(i + 1).last() == requests@[i as int]);
        }
        let s = &requests[i];
        if s.spec.ecosystem == Ecosystem::Pypi {
            let text = chars_of(s.requested.as_str());
            if s.hashes.is_none() {
                proof {
                    lemma_first_hash_refusal_prefix(requests@, i as int + 1);
                }
                return Err(
                    OmcRegistryError::UnsupportedRequirement(
                        message("--require-hashes needs a hash for `", text.as_slice(), "`"),
                    ),
                );
            }
            if s.spec.direct_url.is_none() {
                proof {
                    reveal_strlit("");
                    assert(""@ =~= Seq::<char>::empty());
                }
                let exact = match &s.requirement {
                    Some(req) => is_exact_pypi_requirement(req.as_str()),
                    None => is_exact_pypi_requirement(""),
                };
                if !exact {
                    proof {
                        lemma_first_hash_refusal_prefix(requests@, i as int + 1);
                    }
                    return Err(
                        OmcRegistryError::UnsupportedRequirement(
                            message("--require-hashes needs an exact pin for `", text.as_slice(), "`"),
                        ),
                    );
                }
            }
        }
        i = i + 1;
    }
    assert(requests@.take(requests@.len() as int) =~= requests@);
    Ok(())
}

proof fn lemma_first_hash_refusal_prefix(requests: Seq<RequestedSpec>, n: int)
    requires
        0 <= n <= requests.len(),
        first_hash_refusal(requests.take(n)) is Some,
    ensures
        first_hash_refusal(requests) == first_hash_refusal(requests.take(n)),
    decreases requests.len() - n,
{
    if n < requests.len() {
        assert(requests.take(n + 1).drop_last() =~= requests.take(n));
        lemma_first_hash_refusal_prefix(requests, n + 1);
    } else {
        assert(requests.take(n) =~= requests);
    }
}

// ---------------------------------------------------------------------------
// Downloaded archives
// ---------------------------------------------------------------------------

/// Two hex digests are the same, letter case aside.
pub open spec fn same_digest(a: Seq<char>, b: Seq<char>) -> bool {
    lower_seq(a) == lower_seq(b)
}

/// A digest mismatch naming the package and the two digests.
pub open spec fn mismatch(
    r: Result<(), OmcRegistryError>,
    name: Seq<char>,
    expected: Seq<char>,
    actual: Seq<char>,
) -> bool {
    r matches Err(OmcRegistryError::DigestMismatch { name: n, expected: x, actual: a }) && n@ == name
        && x@ == expected && a@ == actual
}

/// How a downloaded archive fares against what the registry and the
/// requirements files pin: its sha256 against the registry's sha256, then
/// its sha1 (`actual_sha1`, in hex) against the registry's sha1, both
/// letter case aside, then its sha256 among the hashes the requirements
/// allow (in ascending order); the first that fails refuses it.
pub open spec fn archive_digests_outcome(
    name: Seq<char>,
    archive: Seq<u8>,
    actual_sha1: Seq<char>,
    expected_sha256: Option<Seq<char>>,
    expected_sha1: Option<Seq<char>>,
    allowed: Option<Seq<Seq<char>>>,
    r: Result<(), OmcRegistryError>,
) -> bool {
    let sha256 = archive_sha256(archive);
    let sha256_fails = match expected_sha256 {
        Some(e) => !same_digest(e, sha256),
        None => false,
    };
    let sha1_fails = match expected_sha1 {
        Some(e) => !same_digest(e, actual_sha1),
        None => false,
    };
    let hashes_fail = match allowed {
        Some(hs) => !hs.contains(sha256),
        None => false,
    };
    if sha256_fails {
        mismatch(r, name, expected_sha256->0, sha256)
    } else if sha1_fails {
        mismatch(r, name, "sha1:"@ + expected_sha1->0, "sha1:"@ + actual_sha1)
    } else if hashes_fail {
        mismatch(r, name, comma_joined(allowed->0), sha256)
    } else {
        r is Ok
    }
}

/// Whether two hex digests are the same, letter case aside.
fn digests_equal(a: &str, b: &str) -> (r: bool)
    ensures
        r == same_digest(a@, b@),
{
    let x = lower_chars(chars_of(a).as_slice());
    let y = lower_chars(chars_of(b).as_slice());
    eq_chars(x.as_slice(), y.as_slice())
}

/// Holds a downloaded archive of the package `name` to the digests the
/// registry and the requirements files pin for it.
pub fn check_archive_digests(
    name: &str,
    archive: &[u8],
    actual_sha1: &str,
    expected_sha256: Option<&str>,
    expected_sha1: Option<&str>,
    allowed: Option<&Vec<String>>,
) -> (r: Result<(), OmcRegistryError>)
    ensures
        archive_digests_outcome(
            name@,
            archive@,
            actual_sha1@,
            match expected_sha256 {
                Some(e) => Some(e@),
                None => None,
            },
            match expected_sha1 {
                Some(e) => Some(e@),
                None => None,
            },
            match allowed {
                Some(hs) => Some(texts_view(hs@)),
                None => None,
            },
            r,
        ),
{
    proof {
        reveal_strlit("");
    }
    let digest = sha256_of(archive);
    let sha256 = hex_text(digest.as_slice());
    match expected_sha256 {
        Some(e) => {
            if !digests_equal(e, sha256.as_str()) {
                return Err(
                    OmcRegistryError::DigestMismatch {
                        name: string_from_chars(chars_of(name).as_slice()),
                        expected: string_from_chars(chars_of(e).as_slice()),
                        actual: sha256,
                    },
                );
            }
        },
        None => {},
    }
    match expected_sha1 {
        Some(e) => {
            if !digests_equal(e, actual_sha1) {
                return Err(
                    OmcRegistryError::DigestMismatch {
                        name: string_from_chars(chars_of(name).as_slice()),
                        expected: message("sha1:", chars_of(e).as_slice(), ""),
                        actual: message("sha1:", chars_of(actual_sha1).as_slice(), ""),
                    },
                );
            }
        },
        None => {},
    }
    match allowed {
        Some(hs) => {
            let keys = key_chars(hs);
            if !key_listed(chars_of(sha256.as_str()).as_slice(), &keys) {
                let joined = join_commas(hs);
                return Err(
                    OmcRegistryError::DigestMismatch {
                        name: string_from_chars(chars_of(name).as_slice()),
                        expected: string_from_chars(joined.as_slice()),
                        actual: sha256,
                    },
                );
            }
        },
        None => {},
    }
    Ok(())
}

// ---------------------------------------------------------------------------
// Scripts
// ---------------------------------------------------------------------------

/// The inline metadata blocks of some scripts, in order, those without one
/// passed over; none when a script holds two blocks.
pub open spec fn script_blocks(contents: Seq<Seq<char>>) -> Option<Seq<Seq<char>>>
    decreases contents.len(),
{
    if contents.len() == 0 {
        Some(Seq::empty())
    } else {
        match script_blocks(contents.drop_last()) {
            None => None,
            Some(bs) => {
                let scan = script_scan(lines(contents.last()));
                if scan.failed {
                    None
                } else {
                    match scan.found {
                        Some(b) => Some(bs.push(b)),
                        None => Some(bs),
                    }
                }
            },
        }
    }
}

/// The inline metadata blocks of the scripts whose texts are `contents`,
/// in order, whose `dependencies` the caller reads as requirements;
/// refused as the first script with two blocks is.
pub fn read_script_requirement_files(contents: &Vec<String>) -> (r: Result<Vec<String>, OmcRegistryError>)
    ensures
        match script_blocks(texts_view(contents@)) {
            None => r matches Err(OmcRegistryError::UnsupportedRequirement(m)) && m@
                == multiple_blocks_message(),
            Some(bs) => r matches Ok(v) && texts_view(v@) == bs,
        },
{
    let mut out: Vec<String> = Vec::new();
    let mut i: usize = 0;
    while i < contents.len()
        invariant
            i <= contents@.len(),
            script_blocks(texts_view(contents@).take(i as int)) == Some(texts_view(out@)),
        decreases contents.len() - i,
    {
        proof {
            assert(texts_view(contents@).take(i + 1).drop_last() =~= texts_view(contents@).take(i as int));
            assert(texts_view(contents@).take(i + 1).last() == contents@[i as int]@);
        }
        match inline_script_metadata(contents[i].as_str()) {
            Err(e) => {
                proof {
                    lemma_script_blocks_fail(texts_view(contents@), i as int + 1);
                }
                return Err(e);
            },
            Ok(found) => match found {
                Some(b) => {
                    out.push(b);
                    proof {
                        assert(texts_view(out@) =~= texts_view(out@.drop_last()).push(out@.last()@));
                    }
                },
                None => {},
            },
        }
        i = i + 1;
    }
    assert(texts_view(contents@).take(contents@.len() as int) =~= texts_view(contents@));
    Ok(out)
}

proof fn lemma_script_blocks_fail(contents: Seq<Seq<char>>, n: int)
    requires
        0 <= n <= contents.len(),
        script_blocks(contents.take(n)) is None,
    ensures
        script_blocks(contents) is None,
    decreases contents.len() - n,
{
    if n < contents.len() {
        assert(contents.take(n + 1).drop_last() =~= contents.take(n));
        lemma_script_blocks_fail(contents, n + 1);
    } else {
        assert(contents.take(n) =~= contents);
    }
}

} // verus!
