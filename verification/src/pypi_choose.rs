//! Choosing the version of a PyPI package to install from the package's
//! release list.
use vstd::prelude::*;
use crate::error::OmcRegistryError;
use crate::pypi_files::{
    compat_opt, file_admitted, pypi_file_admitted_checked, pypi_file_compatible_for_binary_mode, str_opt,
    PypiFile,
    PythonWheelCompatibility,
};
use crate::pypi_key::{pypi_version_ok, pypi_version_readable};
use crate::pypi_listing::PypiPrereleasePolicy;
use crate::pypi_release::PypiBinaryMode;
use crate::pypi_requirement::{
    is_prerelease, prereleases_allowed, pypi_prereleases_allowed, pypi_prereleases_allowed_checked,
    pypi_version_is_prerelease, pypi_version_satisfies, pypi_version_satisfies_checked, strings_view,
    version_satisfies,
};
use crate::pypi_version::{
    compare_pypi_versions_antisymmetric, compare_pypi_versions_transitive, pypi_version_order,
    version_order,
};
use crate::text::{chars_of, string_from_chars};

verus! {

/// The releases of a package: each version with its files, in the order
/// of the version texts.
pub struct PypiRoot {
    pub releases: Vec<(String, Vec<PypiFile>)>,
}

/// Some file from index `k` on is admitted, tried in order; `None` where
/// checking a file before the first admitted one would fail.
pub open spec fn any_admitted(
    files: Seq<PypiFile>,
    k: nat,
    target_python: Option<Seq<char>>,
    wheel: Option<PythonWheelCompatibility>,
    current: Option<PythonWheelCompatibility>,
    mode: Option<PypiBinaryMode>,
) -> Option<bool>
    decreases files.len() - k,
{
    if k >= files.len() {
        Some(false)
    } else {
        match file_admitted(files[k as int], target_python, wheel, current, mode) {
            None => None,
            Some(true) => Some(true),
            Some(false) => any_admitted(files, k + 1, target_python, wheel, current, mode),
        }
    }
}

/// The versions from index `k` on that have an admitted file and satisfy
/// the requirement, in order; `None` where a check on the way would fail.
pub open spec fn eligible_versions(
    releases: Seq<(String, Vec<PypiFile>)>,
    k: nat,
    requirement: Seq<char>,
    target_python: Option<Seq<char>>,
    wheel: Option<PythonWheelCompatibility>,
    current: Option<PythonWheelCompatibility>,
    mode: Option<PypiBinaryMode>,
) -> Option<Seq<Seq<char>>>
    decreases releases.len() - k,
{
    if k >= releases.len() {
        Some(Seq::empty())
    } else {
        let rest = eligible_versions(
            releases,
            k + 1,
            requirement,
            target_python,
            wheel,
            current,
            mode,
        );
        let v = releases[k as int].0@;
        match any_admitted(releases[k as int].1@, 0, target_python, wheel, current, mode) {
            None => None,
            Some(false) => rest,
            Some(true) => match version_satisfies(v, requirement) {
                None => None,
                Some(false) => rest,
                Some(true) => match rest {
                    None => None,
                    Some(r) => Some(seq![v] + r),
                },
            },
        }
    }
}

/// The final releases among some versions, in order.
pub open spec fn finals(vs: Seq<Seq<char>>) -> Seq<Seq<char>>
    decreases vs.len(),
{
    if vs.len() == 0 {
        vs
    } else if is_prerelease(vs.last()) {
        finals(vs.drop_last())
    } else {
        finals(vs.drop_last()).push(vs.last())
    }
}

pub open spec fn all_ok(vs: Seq<Seq<char>>) -> bool {
    forall|i: int| 0 <= i < vs.len() ==> pypi_version_ok(#[trigger] vs[i])
}

/// The versions the prerelease policy lets through: only final releases
/// for `OnlyFinal`; otherwise all of them where pre-releases are allowed
/// (asked for, named by the requirement, or all there is), else the final
/// ones.  `None` where reading a version would fail.
pub open spec fn policy_versions(
    vs: Seq<Seq<char>>,
    requirement: Seq<char>,
    policy: PypiPrereleasePolicy,
) -> Option<Seq<Seq<char>>> {
    if policy == PypiPrereleasePolicy::OnlyFinal {
        if all_ok(vs) {
            Some(finals(vs))
        } else {
            None
        }
    } else {
        match prereleases_allowed(requirement, policy == PypiPrereleasePolicy::Allow, vs) {
            None => None,
            Some(true) => Some(vs),
            Some(false) => if all_ok(vs) {
                Some(finals(vs))
            } else {
                None
            },
        }
    }
}

/// The highest of some versions, the last of equal ones.
pub open spec fn last_highest(vs: Seq<Seq<char>>) -> Seq<char>
    decreases vs.len(),
{
    if vs.len() <= 1 {
        vs[0]
    } else {
        let m = last_highest(vs.drop_last());
        if version_order(m, vs.last()) > 0 {
            m
        } else {
            vs.last()
        }
    }
}

/// The highest version: `Some(None)` for none, `None` where comparing them
/// would fail.
pub open spec fn highest_version(vs: Seq<Seq<char>>) -> Option<Option<Seq<char>>> {
    if vs.len() == 0 {
        Some(None)
    } else if vs.len() == 1 {
        Some(Some(vs[0]))
    } else if all_ok(vs) {
        Some(Some(last_highest(vs)))
    } else {
        None
    }
}

/// The version to install: the highest release (the last of equal ones)
/// that has a file the target admits, satisfies the requirement and passes
/// the prerelease policy; `Ok(None)` where there is none; `None` where the
/// choice would fail on a version it cannot read.
pub open spec fn chosen_version(
    releases: Seq<(String, Vec<PypiFile>)>,
    requirement: Seq<char>,
    target_python: Option<Seq<char>>,
    wheel: Option<PythonWheelCompatibility>,
    current: Option<PythonWheelCompatibility>,
    mode: Option<PypiBinaryMode>,
    policy: PypiPrereleasePolicy,
) -> Option<Option<Seq<char>>> {
    match eligible_versions(releases, 0, requirement, target_python, wheel, current, mode) {
        None => None,
        Some(vs) => match policy_versions(vs, requirement, policy) {
            None => None,
            Some(ws) => highest_version(ws),
        },
    }
}

fn files_admitted(
    files: &Vec<PypiFile>,
    target_python: Option<&str>,
    wheel_compatibility: Option<&PythonWheelCompatibility>,
    current: Option<&PythonWheelCompatibility>,
    binary_mode: Option<PypiBinaryMode>,
) -> (b: bool)
    requires
        any_admitted(files@, 0, str_opt(target_python), compat_opt(wheel_compatibility), compat_opt(current), binary_mode) is Some,
    ensures
        Some(b) == any_admitted(
            files@,
            0,
            str_opt(target_python),
            compat_opt(wheel_compatibility),
            compat_opt(current),
            binary_mode,
        ),
{
    let ghost t = str_opt(target_python);
    let ghost w = compat_opt(wheel_compatibility);
    let ghost c = compat_opt(current);
    let mut i: usize = 0;
    while i < files.len()
        invariant
            i <= files@.len(),
            any_admitted(files@, 0, t, w, c, binary_mode) == any_admitted(
                files@,
                i as nat,
                t,
                w,
                c,
                binary_mode,
            ),
            any_admitted(files@, 0, t, w, c, binary_mode) is Some,
            t == str_opt(target_python),
            w == compat_opt(wheel_compatibility),
            c == compat_opt(current),
        decreases files.len() - i,
    {
        if pypi_file_compatible_for_binary_mode(
            &files[i],
            target_python,
            wheel_compatibility,
            current,
            binary_mode,
        ) {
            return true;
        }
        i = i + 1;
    }
    false
}

proof fn lemma_eligible_tail(
    releases: Seq<(String, Vec<PypiFile>)>,
    k: nat,
    requirement: Seq<char>,
    target_python: Option<Seq<char>>,
    wheel: Option<PythonWheelCompatibility>,
    current: Option<PythonWheelCompatibility>,
    mode: Option<PypiBinaryMode>,
)
    requires
        eligible_versions(releases, k, requirement, target_python, wheel, current, mode) is Some,
        k < releases.len(),
    ensures
        eligible_versions(releases, k + 1, requirement, target_python, wheel, current, mode) is Some,
{
}

/// The eligible versions, collected from the back.
fn collect_eligible(
    releases: &Vec<(String, Vec<PypiFile>)>,
    requirement: &str,
    target_python: Option<&str>,
    wheel_compatibility: Option<&PythonWheelCompatibility>,
    current: Option<&PythonWheelCompatibility>,
    binary_mode: Option<PypiBinaryMode>,
) -> (r: Vec<String>)
    requires
        eligible_versions(releases@, 0, requirement@, str_opt(target_python), compat_opt(wheel_compatibility), compat_opt(current), binary_mode) is Some,
    ensures
        eligible_versions(
            releases@,
            0,
            requirement@,
            str_opt(target_python),
            compat_opt(wheel_compatibility),
            compat_opt(current),
            binary_mode,
        ) == Some(strings_view(r@)),
{
    let ghost t = str_opt(target_python);
    let ghost w = compat_opt(wheel_compatibility);
    let ghost c = compat_opt(current);
    let mut i: usize = 0;
    let mut out: Vec<String> = Vec::new();
    let mut chain: Vec<usize> = Vec::new();
    // First pass: find the eligible positions, front to back.
    while i < releases.len()
        invariant
            i <= releases@.len(),
            t == str_opt(target_python),
            w == compat_opt(wheel_compatibility),
            c == compat_opt(current),
            eligible_versions(releases@, i as nat, requirement@, t, w, c, binary_mode) is Some,
            eligible_versions(releases@, 0, requirement@, t, w, c, binary_mode) == match eligible_versions(
                releases@,
                i as nat,
                requirement@,
                t,
                w,
                c,
                binary_mode,
            ) {
                Some(r) => Some(strings_view(out@) + r),
                None => None,
            },
        decreases releases.len() - i,
    {
        proof {
            lemma_eligible_tail(releases@, i as nat, requirement@, t, w, c, binary_mode);
        }
        let ghost rest = eligible_versions(releases@, (i + 1) as nat, requirement@, t, w, c, binary_mode);
        if files_admitted(&releases[i].1, target_python, wheel_compatibility, current, binary_mode) {
            if pypi_version_satisfies(releases[i].0.as_str(), requirement) {
                let ghost before = strings_view(out@);
                out.push(releases[i].0.clone());
                proof {
                    assert(strings_view(out@) =~= before.push(releases@[i as int].0@));
                    assert(before + (seq![releases@[i as int].0@] + rest->0) =~= before.push(
                        releases@[i as int].0@,
                    ) + rest->0);
                }
            }
        }
        i = i + 1;
    }
    proof {
        assert(strings_view(out@) + Seq::<Seq<char>>::empty() =~= strings_view(out@));
    }
    out
}

fn finals_of(vs: &Vec<String>) -> (r: Vec<String>)
    requires
        all_ok(strings_view(vs@)),
    ensures
        strings_view(r@) == finals(strings_view(vs@)),
{
    let ghost sv = strings_view(vs@);
    let mut out: Vec<String> = Vec::new();
    let mut i: usize = 0;
    assert(sv.take(0) =~= Seq::<Seq<char>>::empty());
    while i < vs.len()
        invariant
            i <= vs@.len(),
            sv == strings_view(vs@),
            all_ok(sv),
            strings_view(out@) == finals(sv.take(i as int)),
        decreases vs.len() - i,
    {
        proof {
            assert(sv.take(i + 1).drop_last() =~= sv.take(i as int));
            assert(sv.take(i + 1).last() == vs@[i as int]@);
            assert(pypi_version_ok(sv[i as int]));
        }
        if !pypi_version_is_prerelease(vs[i].as_str()) {
            let ghost before = strings_view(out@);
            out.push(vs[i].clone());
            proof {
                assert(strings_view(out@) =~= before.push(vs@[i as int]@));
            }
        }
        i = i + 1;
    }
    assert(sv.take(vs@.len() as int) =~= sv);
    out
}

/// The position of the highest of some versions, the last of equal ones.
fn position_of_highest(vs: &Vec<String>) -> (r: usize)
    requires
        vs@.len() >= 1,
        vs@.len() == 1 || all_ok(strings_view(vs@)),
    ensures
        r < vs@.len(),
        vs@[r as int]@ == last_highest(strings_view(vs@)),
{
    let ghost sv = strings_view(vs@);
    let mut best: usize = 0;
    let mut i: usize = 1;
    proof {
        assert(sv.take(1) =~= seq![sv[0]]);
    }
    while i < vs.len()
        invariant
            1 <= i <= vs@.len(),
            best < i,
            sv == strings_view(vs@),
            vs@.len() == 1 || all_ok(sv),
            vs@[best as int]@ == last_highest(sv.take(i as int)),
        decreases vs.len() - i,
    {
        proof {
            assert(sv.take(i + 1).drop_last() =~= sv.take(i as int));
            assert(sv.take(i + 1).last() == vs@[i as int]@);
            assert(pypi_version_ok(sv[best as int]));
            assert(pypi_version_ok(sv[i as int]));
        }
        if pypi_version_order(vs[best].as_str(), vs[i].as_str()) <= 0 {
            best = i;
        }
        i = i + 1;
    }
    assert(sv.take(vs@.len() as int) =~= sv);
    best
}

/// The version of a package to install (see `chosen_version`);
/// `UnsatisfiedRequirement` where no release qualifies.  `current`
/// describes the running interpreter, as far as it could be asked.
pub fn choose_pypi_version(
    name: &str,
    requirement: &str,
    root: &PypiRoot,
    target_python: Option<&str>,
    wheel_compatibility: Option<&PythonWheelCompatibility>,
    current: Option<&PythonWheelCompatibility>,
    binary_mode: Option<PypiBinaryMode>,
    prerelease_policy: PypiPrereleasePolicy,
) -> (r: Result<String, OmcRegistryError>)
    requires
        chosen_version(root.releases@, requirement@, str_opt(target_python), compat_opt(wheel_compatibility), compat_opt(current), binary_mode, prerelease_policy) is Some,
    ensures
        match chosen_version(
            root.releases@,
            requirement@,
            str_opt(target_python),
            compat_opt(wheel_compatibility),
            compat_opt(current),
            binary_mode,
            prerelease_policy,
        ) {
            Some(Some(v)) => r matches Ok(s) && s@ == v,
            _ => r matches Err(OmcRegistryError::UnsatisfiedRequirement { name: n, requirement: q })
                && n@ == name@ && q@ == requirement@,
        },
{
    let versions = collect_eligible(
        &root.releases,
        requirement,
        target_python,
        wheel_compatibility,
        current,
        binary_mode,
    );
    let kept = match prerelease_policy {
        PypiPrereleasePolicy::OnlyFinal => finals_of(&versions),
        _ => {
            let allow = match prerelease_policy {
                PypiPrereleasePolicy::Allow => true,
                _ => false,
            };
            if pypi_prereleases_allowed(requirement, allow, &versions) {
                versions
            } else {
                finals_of(&versions)
            }
        },
    };
    if kept.len() == 0 {
        let n = string_from_chars(chars_of(name).as_slice());
        let q = string_from_chars(chars_of(requirement).as_slice());
        return Err(OmcRegistryError::UnsatisfiedRequirement { name: n, requirement: q });
    }
    let best = position_of_highest(&kept);
    Ok(kept[best].clone())
}

// ---------------------------------------------------------------------------
// Laws
// ---------------------------------------------------------------------------

/// The highest of some readable versions is one of them, and none of them
/// is higher.
pub proof fn highest_is_at_least_each(vs: Seq<Seq<char>>)
    requires
        vs.len() >= 1,
        all_ok(vs),
    ensures
        vs.contains(last_highest(vs)),
        forall|i: int| 0 <= i < vs.len() ==> version_order(#[trigger] vs[i], last_highest(vs)) <= 0,
    decreases vs.len(),
{
    if vs.len() == 1 {
        compare_pypi_versions_antisymmetric(vs[0], vs[0]);
        assert(vs[0] == last_highest(vs));
    } else {
        let p = vs.drop_last();
        assert(all_ok(p));
        highest_is_at_least_each(p);
        let m = last_highest(p);
        let last = vs.last();
        assert(pypi_version_ok(last));
        let k = choose|k: int| 0 <= k < p.len() && p[k] == m;
        assert(pypi_version_ok(p[k]));
        compare_pypi_versions_antisymmetric(m, last);
        compare_pypi_versions_antisymmetric(last, last);
        assert forall|i: int| 0 <= i < vs.len() implies version_order(
            #[trigger] vs[i],
            last_highest(vs),
        ) <= 0 by {
            if i < vs.len() - 1 {
                assert(vs[i] == p[i]);
                assert(pypi_version_ok(vs[i]));
                compare_pypi_versions_transitive(vs[i], m, last);
            }
        }
        if version_order(m, last) > 0 {
            assert(vs[k] == m);
        } else {
            assert(vs[vs.len() - 1] == last);
        }
    }
}

proof fn lemma_eligible_satisfy(
    releases: Seq<(String, Vec<PypiFile>)>,
    k: nat,
    requirement: Seq<char>,
    target_python: Option<Seq<char>>,
    wheel: Option<PythonWheelCompatibility>,
    current: Option<PythonWheelCompatibility>,
    mode: Option<PypiBinaryMode>,
)
    requires
        eligible_versions(releases, k, requirement, target_python, wheel, current, mode) is Some,
    ensures
        forall|i: int|
            0 <= i < eligible_versions(releases, k, requirement, target_python, wheel, current, mode)->0.len()
                ==> version_satisfies(
                #[trigger] eligible_versions(releases, k, requirement, target_python, wheel, current, mode)->0[i],
                requirement,
            ) == Some(true),
    decreases releases.len() - k,
{
    if k < releases.len() {
        lemma_eligible_satisfy(releases, k + 1, requirement, target_python, wheel, current, mode);
        let vs = eligible_versions(releases, k, requirement, target_python, wheel, current, mode)->0;
        let rest = eligible_versions(releases, k + 1, requirement, target_python, wheel, current, mode);
        assert forall|i: int| 0 <= i < vs.len() implies version_satisfies(#[trigger] vs[i], requirement)
            == Some(true) by {
            if vs.len() == rest->0.len() + 1 && vs == seq![releases[k as int].0@] + rest->0 {
                if i > 0 {
                    assert(vs[i] == rest->0[i - 1]);
                }
            } else {
                assert(vs == rest->0);
            }
        }
    }
}

proof fn lemma_finals_within(vs: Seq<Seq<char>>)
    ensures
        forall|i: int| 0 <= i < finals(vs).len() ==> vs.contains(#[trigger] finals(vs)[i]),
    decreases vs.len(),
{
    if vs.len() > 0 {
        let p = vs.drop_last();
        lemma_finals_within(p);
        assert forall|i: int| 0 <= i < finals(vs).len() implies vs.contains(#[trigger] finals(vs)[i]) by {
            if i < finals(p).len() {
                assert(finals(vs)[i] == finals(p)[i]);
                let j = choose|j: int| 0 <= j < p.len() && p[j] == finals(p)[i];
                assert(vs[j] == p[j]);
            } else {
                assert(finals(vs)[i] == vs.last());
                assert(vs[vs.len() - 1] == vs.last());
            }
        }
    }
}

/// The version chosen for a requirement satisfies it, is among the
/// versions that passed every filter, and none of those is higher.
pub proof fn chosen_version_is_highest_eligible(
    releases: Seq<(String, Vec<PypiFile>)>,
    requirement: Seq<char>,
    target_python: Option<Seq<char>>,
    wheel: Option<PythonWheelCompatibility>,
    current: Option<PythonWheelCompatibility>,
    mode: Option<PypiBinaryMode>,
    policy: PypiPrereleasePolicy,
)
    requires
        chosen_version(releases, requirement, target_python, wheel, current, mode, policy) is Some,
    ensures
        ({
            let vs = eligible_versions(releases, 0, requirement, target_python, wheel, current, mode)->0;
            let ws = policy_versions(vs, requirement, policy)->0;
            match chosen_version(releases, requirement, target_python, wheel, current, mode, policy) {
                Some(Some(v)) => {
                    &&& ws.contains(v)
                    &&& vs.contains(v)
                    &&& version_satisfies(v, requirement) == Some(true)
                    &&& ws.len() >= 2 ==> forall|i: int|
                        0 <= i < ws.len() ==> version_order(#[trigger] ws[i], v) <= 0
                },
                _ => ws.len() == 0,
            }
        }),
{
    let vs = eligible_versions(releases, 0, requirement, target_python, wheel, current, mode)->0;
    let ws = policy_versions(vs, requirement, policy)->0;
    lemma_eligible_satisfy(releases, 0, requirement, target_python, wheel, current, mode);
    lemma_finals_within(vs);
    assert(forall|i: int| 0 <= i < ws.len() ==> vs.contains(#[trigger] ws[i]));
    if ws.len() == 1 {
        assert(ws[0] == ws[0]);
        assert(ws.contains(ws[0]));
    } else if ws.len() >= 2 {
        highest_is_at_least_each(ws);
    }
    match chosen_version(releases, requirement, target_python, wheel, current, mode, policy) {
        Some(Some(v)) => {
            assert(ws.contains(v));
            let i = choose|i: int| 0 <= i < ws.len() && ws[i] == v;
            assert(vs.contains(ws[i]));
            let j = choose|j: int| 0 <= j < vs.len() && vs[j] == v;
            assert(version_satisfies(vs[j], requirement) == Some(true));
        },
        _ => {},
    }
}

// ---------------------------------------------------------------------------
// The checked choice
// ---------------------------------------------------------------------------

/// Some file is admitted, or `None` where a file's check cannot be made.
fn files_admitted_checked(
    files: &Vec<PypiFile>,
    target_python: Option<&str>,
    wheel_compatibility: Option<&PythonWheelCompatibility>,
    current: Option<&PythonWheelCompatibility>,
    binary_mode: Option<PypiBinaryMode>,
) -> (r: Option<bool>)
    ensures
        r == any_admitted(
            files@,
            0,
            str_opt(target_python),
            compat_opt(wheel_compatibility),
            compat_opt(current),
            binary_mode,
        ),
{
    let ghost t = str_opt(target_python);
    let ghost w = compat_opt(wheel_compatibility);
    let ghost c = compat_opt(current);
    let mut i: usize = 0;
    while i < files.len()
        invariant
            i <= files@.len(),
            t == str_opt(target_python),
            w == compat_opt(wheel_compatibility),
            c == compat_opt(current),
            any_admitted(files@, 0, t, w, c, binary_mode) == any_admitted(files@, i as nat, t, w, c, binary_mode),
        decreases files.len() - i,
    {
        match pypi_file_admitted_checked(&files[i], target_python, wheel_compatibility, current, binary_mode) {
            None => {
                return None;
            },
            Some(true) => {
                return Some(true);
            },
            Some(false) => {},
        }
        i = i + 1;
    }
    Some(false)
}

/// Whether the eligible versions can be worked out.
fn eligible_readable(
    releases: &Vec<(String, Vec<PypiFile>)>,
    requirement: &str,
    target_python: Option<&str>,
    wheel_compatibility: Option<&PythonWheelCompatibility>,
    current: Option<&PythonWheelCompatibility>,
    binary_mode: Option<PypiBinaryMode>,
) -> (b: bool)
    ensures
        b == eligible_versions(
            releases@,
            0,
            requirement@,
            str_opt(target_python),
            compat_opt(wheel_compatibility),
            compat_opt(current),
            binary_mode,
        ) is Some,
{
    let ghost t = str_opt(target_python);
    let ghost w = compat_opt(wheel_compatibility);
    let ghost c = compat_opt(current);
    let mut i: usize = 0;
    while i < releases.len()
        invariant
            i <= releases@.len(),
            t == str_opt(target_python),
            w == compat_opt(wheel_compatibility),
            c == compat_opt(current),
            (eligible_versions(releases@, 0, requirement@, t, w, c, binary_mode) is Some) == (eligible_versions(
                releases@,
                i as nat,
                requirement@,
                t,
                w,
                c,
                binary_mode,
            ) is Some),
        decreases releases.len() - i,
    {
        match files_admitted_checked(&releases[i].1, target_python, wheel_compatibility, current, binary_mode) {
            None => {
                return false;
            },
            Some(true) => {
                if pypi_version_satisfies_checked(releases[i].0.as_str(), requirement).is_none() {
                    return false;
                }
            },
            Some(false) => {},
        }
        i = i + 1;
    }
    true
}

/// Whether every version can be read.
fn all_readable(vs: &Vec<String>) -> (b: bool)
    ensures
        b == all_ok(strings_view(vs@)),
{
    let mut i: usize = 0;
    while i < vs.len()
        invariant
            i <= vs@.len(),
            forall|j: int| 0 <= j < i ==> pypi_version_ok(#[trigger] strings_view(vs@)[j]),
        decreases vs.len() - i,
    {
        if !pypi_version_readable(vs[i].as_str()) {
            assert(strings_view(vs@)[i as int] == vs@[i as int]@);
            return false;
        }
        i = i + 1;
    }
    true
}

proof fn lemma_finals_ok(vs: Seq<Seq<char>>)
    requires
        all_ok(vs),
    ensures
        all_ok(finals(vs)),
    decreases vs.len(),
{
    if vs.len() > 0 {
        assert(all_ok(vs.drop_last())) by {
            assert forall|i: int| 0 <= i < vs.drop_last().len() implies pypi_version_ok(
                #[trigger] vs.drop_last()[i],
            ) by {
                assert(vs.drop_last()[i] == vs[i]);
            }
        }
        lemma_finals_ok(vs.drop_last());
        assert(pypi_version_ok(vs[vs.len() - 1]));
    }
}

/// The version of a package to install, as `choose_pypi_version` gives
/// it, or `None` where the choice would meet a version it cannot read.
pub fn choose_pypi_version_checked(
    name: &str,
    requirement: &str,
    root: &PypiRoot,
    target_python: Option<&str>,
    wheel_compatibility: Option<&PythonWheelCompatibility>,
    current: Option<&PythonWheelCompatibility>,
    binary_mode: Option<PypiBinaryMode>,
    prerelease_policy: PypiPrereleasePolicy,
) -> (r: Option<Result<String, OmcRegistryError>>)
    ensures
        r is None <==> chosen_version(
            root.releases@,
            requirement@,
            str_opt(target_python),
            compat_opt(wheel_compatibility),
            compat_opt(current),
            binary_mode,
            prerelease_policy,
        ) is None,
        r matches Some(res) ==> match chosen_version(
            root.releases@,
            requirement@,
            str_opt(target_python),
            compat_opt(wheel_compatibility),
            compat_opt(current),
            binary_mode,
            prerelease_policy,
        ) {
            Some(Some(v)) => res matches Ok(s) && s@ == v,
            _ => res matches Err(OmcRegistryError::UnsatisfiedRequirement { name: n, requirement: q })
                && n@ == name@ && q@ == requirement@,
        },
{
    if !eligible_readable(&root.releases, requirement, target_python, wheel_compatibility, current, binary_mode) {
        return None;
    }
    let versions = collect_eligible(
        &root.releases,
        requirement,
        target_python,
        wheel_compatibility,
        current,
        binary_mode,
    );
    let ghost vs = strings_view(versions@);
    let readable = all_readable(&versions);
    let ok = match prerelease_policy {
        PypiPrereleasePolicy::OnlyFinal => {
            proof {
                if readable {
                    lemma_finals_ok(vs);
                }
            }
            readable
        },
        _ => {
            let allow = match prerelease_policy {
                PypiPrereleasePolicy::Allow => true,
                _ => false,
            };
            match pypi_prereleases_allowed_checked(requirement, allow, &versions) {
                None => false,
                Some(true) => versions.len() <= 1 || readable,
                Some(false) => {
                    proof {
                        if readable {
                            lemma_finals_ok(vs);
                        }
                    }
                    readable
                },
            }
        },
    };
    if !ok {
        return None;
    }
    Some(
        choose_pypi_version(
            name,
            requirement,
            root,
            target_python,
            wheel_compatibility,
            current,
            binary_mode,
            prerelease_policy,
        ),
    )
}

} // verus!
