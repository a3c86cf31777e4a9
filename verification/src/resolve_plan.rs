//! The decisions a resolution makes between registry requests: where a
//! PyPI package is looked up, which version is fetched directly and which
//! is chosen from the package's releases, and what a downloaded npm
//! tarball is called.
use vstd::prelude::*;
use crate::npm_semver::{is_exact_npm_version, parsed_semver};
use crate::pypi_requirement::{exact_version_char, is_exact_pypi_version};
use crate::text::{chars_of, string_from_chars};

verus! {

/// Which version to fetch: one named exactly, or the one chosen from the
/// package's versions for a requirement.
#[derive(Debug, PartialEq, Eq)]
pub enum VersionPlan {
    Exact(String),
    Choose(String),
}

/// A plan as plain values: `true` with the version for an exact fetch,
/// `false` with the requirement to choose by.
pub open spec fn plan_view(p: VersionPlan) -> (bool, Seq<char>) {
    match p {
        VersionPlan::Exact(v) => (true, v@),
        VersionPlan::Choose(r) => (false, r@),
    }
}

/// The npm plan: an exact version requirement, with no publish-time
/// cutoff, is fetched as it is; otherwise the version is chosen for the
/// requirement, or for the `latest` tag when there is none.
pub open spec fn npm_plan(requirement: Option<Seq<char>>, cutoff: bool) -> (bool, Seq<char>) {
    match requirement {
        Some(r) => if parsed_semver(r) is Some && !cutoff {
            (true, r)
        } else {
            (false, r)
        },
        None => (false, "latest"@),
    }
}

/// Plans the npm version to fetch for the effective requirement, where a
/// publish-time cutoff applies or not.
pub fn npm_version_plan(requirement: Option<&str>, cutoff: bool) -> (r: VersionPlan)
    ensures
        plan_view(r) == npm_plan(
            match requirement {
                Some(q) => Some(q@),
                None => None,
            },
            cutoff,
        ),
{
    match requirement {
        Some(q) => if is_exact_npm_version(q) && !cutoff {
            VersionPlan::Exact(string_from_chars(chars_of(q).as_slice()))
        } else {
            VersionPlan::Choose(string_from_chars(chars_of(q).as_slice()))
        },
        None => {
            proof {
                reveal_strlit("latest");
            }
            VersionPlan::Choose(string_from_chars(chars_of("latest").as_slice()))
        },
    }
}

/// A PyPI requirement names one version exactly: it holds no operator,
/// comma, star or space.
pub open spec fn exact_pypi(r: Seq<char>) -> bool {
    forall|j: int| 0 <= j < r.len() ==> !exact_version_char(r[j])
}

/// The PyPI plan: an exact requirement is fetched as it is; otherwise the
/// version is chosen for the requirement, or for `*` when there is none.
pub open spec fn pypi_plan(requirement: Option<Seq<char>>) -> (bool, Seq<char>) {
    match requirement {
        Some(r) => if exact_pypi(r) {
            (true, r)
        } else {
            (false, r)
        },
        None => (false, "*"@),
    }
}

/// Plans the PyPI version to fetch for the constrained requirement.
pub fn pypi_version_plan(requirement: Option<&str>) -> (r: VersionPlan)
    ensures
        plan_view(r) == pypi_plan(
            match requirement {
                Some(q) => Some(q@),
                None => None,
            },
        ),
{
    match requirement {
        Some(q) => if is_exact_pypi_version(q) {
            VersionPlan::Exact(string_from_chars(chars_of(q).as_slice()))
        } else {
            VersionPlan::Choose(string_from_chars(chars_of(q).as_slice()))
        },
        None => {
            proof {
                reveal_strlit("*");
            }
            VersionPlan::Choose(string_from_chars(chars_of("*").as_slice()))
        },
    }
}

/// Where a PyPI package (without a direct URL) is looked up.
#[derive(Debug, PartialEq, Eq)]
pub enum PypiRoute {
    /// The find-links candidates alone.
    FindLinksOnly,
    /// The find-links candidates and those of these simple indexes.
    FindLinksAndIndexes(Vec<String>),
    /// The candidates of these simple indexes.
    IndexesOnly(Vec<String>),
    /// The JSON API of pypi.org.
    JsonApi,
}

/// The route as plain values: a kind (0 to 3 in the order of the variants)
/// and the indexes it names.
pub open spec fn route_view(r: PypiRoute) -> (int, Seq<Seq<char>>) {
    match r {
        PypiRoute::FindLinksOnly => (0, Seq::empty()),
        PypiRoute::FindLinksAndIndexes(v) => (1, Seq::new(v@.len(), |i: int| v@[i]@)),
        PypiRoute::IndexesOnly(v) => (2, Seq::new(v@.len(), |i: int| v@[i]@)),
        PypiRoute::JsonApi => (3, Seq::empty()),
    }
}

/// Where a PyPI package is looked up: when find-links gave candidates, or
/// no index may be used, or an upload cutoff applies, the find-links
/// candidates stand, joined (unless no index may be used) by those of the
/// configured simple indexes, or of `https://pypi.org/simple/` when none
/// is configured; otherwise the configured simple indexes when there are
/// any; otherwise the JSON API.
pub open spec fn pypi_route(
    found_links: bool,
    no_index: bool,
    cutoff: bool,
    indexes: Seq<Seq<char>>,
) -> (int, Seq<Seq<char>>) {
    if found_links || no_index || cutoff {
        if no_index {
            (0, Seq::empty())
        } else if indexes.len() == 0 {
            (1, seq!["https://pypi.org/simple/"@])
        } else {
            (1, indexes)
        }
    } else if indexes.len() > 0 {
        (2, indexes)
    } else {
        (3, Seq::empty())
    }
}

/// Chooses where a PyPI package is looked up, from whether find-links gave
/// candidates, whether no index may be used, whether an upload cutoff
/// applies, and the configured simple indexes.
pub fn pypi_resolution_route(found_links: bool, no_index: bool, cutoff: bool, indexes: Vec<String>) -> (r:
    PypiRoute)
    ensures
        route_view(r) == pypi_route(
            found_links,
            no_index,
            cutoff,
            Seq::new(indexes@.len(), |i: int| indexes@[i]@),
        ),
{
    if found_links || no_index || cutoff {
        if no_index {
            PypiRoute::FindLinksOnly
        } else if indexes.len() == 0 {
            proof {
                reveal_strlit("https://pypi.org/simple/");
            }
            let mut v: Vec<String> = Vec::new();
            v.push(string_from_chars(chars_of("https://pypi.org/simple/").as_slice()));
            let r = PypiRoute::FindLinksAndIndexes(v);
            assert(route_view(r).1 =~= seq!["https://pypi.org/simple/"@]);
            r
        } else {
            let r = PypiRoute::FindLinksAndIndexes(indexes);
            r
        }
    } else if indexes.len() > 0 {
        PypiRoute::IndexesOnly(indexes)
    } else {
        PypiRoute::JsonApi
    }
}

/// What a tarball URL names as its file: the text after its last `/`.
pub open spec fn tarball_file(url: Seq<char>) -> Seq<char>
    decreases url.len(),
{
    if url.len() == 0 {
        Seq::empty()
    } else if url.last() == '/' {
        Seq::empty()
    } else {
        tarball_file(url.drop_last()).push(url.last())
    }
}

/// The file name of a downloaded npm tarball: the text of its URL after
/// the last `/` (`rsplit('/').next()`), the whole URL when it has none.
pub fn npm_tarball_filename(url: &str) -> (r: String)
    ensures
        r@ == tarball_file(url@),
{
    let c = chars_of(url);
    let mut start: usize = c.len();
    assert(url@.take(start as int) =~= url@);
    assert(url@.skip(start as int) =~= Seq::<char>::empty());
    assert(tarball_file(url@) + Seq::<char>::empty() =~= tarball_file(url@));
    while start > 0 && c[start - 1] != '/'
        invariant
            start <= c@.len(),
            c@ == url@,
            tarball_file(url@) == tarball_file(url@.take(start as int)) + url@.skip(start as int),
        decreases start,
    {
        proof {
            let t = url@.take(start as int);
            assert(t.drop_last() =~= url@.take(start - 1));
            assert(t.last() == url@[start - 1]);
            assert(url@.skip(start - 1) =~= seq![url@[start - 1]] + url@.skip(start as int));
            assert(tarball_file(url@.take(start - 1)).push(url@[start - 1]) + url@.skip(start as int)
                =~= tarball_file(url@.take(start - 1)) + url@.skip(start - 1));
        }
        start = start - 1;
    }
    proof {
        if start > 0 {
            assert(url@.take(start as int).last() == '/');
        } else {
            assert(url@.take(0) =~= Seq::<char>::empty());
        }
        assert(tarball_file(url@.take(start as int)) =~= Seq::<char>::empty());
    }
    let tail = crate::text::slice_of(c.as_slice(), start, c.len());
    assert(tail@ =~= url@.skip(start as int));
    string_from_chars(tail.as_slice())
}

} // verus!
