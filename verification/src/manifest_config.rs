//! What a project's `omc.toml` sets in a run: the minimum release age, the
//! npm local paths taken by the dependency kinds asked for, and where a
//! manifest path points.
use vstd::prelude::*;
use crate::error::OmcRegistryError;
use crate::npm_arguments::message;
use crate::project_lock::{join_path, path_join};
use crate::text::{chars_of, string_from_chars};

verus! {

/// A manifest path: an absolute one as it is, a relative one under the
/// project directory.
pub fn resolve_manifest_path(project_dir: &str, path: &str) -> (r: String)
    ensures
        r@ == path_join(project_dir@, path@),
{
    string_from_chars(join_path(chars_of(project_dir).as_slice(), chars_of(path).as_slice()).as_slice())
}

/// The texts of some strings.
pub open spec fn texts_of(v: Seq<String>) -> Seq<Seq<char>> {
    Seq::new(v.len(), |i: int| v[i]@)
}

/// Paths resolved under a project directory, in order.
pub open spec fn resolved_paths(project: Seq<char>, paths: Seq<Seq<char>>) -> Seq<Seq<char>> {
    Seq::new(paths.len(), |i: int| path_join(project, paths[i]))
}

fn push_resolved(out: &mut Vec<String>, project_dir: &str, paths: &Vec<String>)
    ensures
        texts_of(final(out)@) == texts_of(old(out)@) + resolved_paths(project_dir@, texts_of(paths@)),
{
    let ghost start = texts_of(out@);
    let mut i: usize = 0;
    while i < paths.len()
        invariant
            i <= paths@.len(),
            texts_of(out@) == start + resolved_paths(project_dir@, texts_of(paths@)).take(i as int),
        decreases paths.len() - i,
    {
        let p = resolve_manifest_path(project_dir, paths[i].as_str());
        let ghost before = texts_of(out@);
        out.push(p);
        i = i + 1;
        proof {
            assert(texts_of(out@) =~= before.push(path_join(project_dir@, paths@[i - 1]@)));
            assert(start + resolved_paths(project_dir@, texts_of(paths@)).take(i as int) =~= start
                + resolved_paths(project_dir@, texts_of(paths@)).take(i - 1).push(
                path_join(project_dir@, paths@[i - 1]@),
            ));
        }
    }
    assert(resolved_paths(project_dir@, texts_of(paths@)).take(paths@.len() as int) =~= resolved_paths(
        project_dir@,
        texts_of(paths@),
    ));
}

/// The npm local paths a manifest gives a run, resolved under the project:
/// its plain ones, then its optional, peer and dev ones where those kinds
/// of dependencies are included.
pub open spec fn manifest_local_paths(
    project: Seq<char>,
    plain: Seq<Seq<char>>,
    optional: Seq<Seq<char>>,
    peer: Seq<Seq<char>>,
    dev: Seq<Seq<char>>,
    include_optional: bool,
    include_peer: bool,
    include_dev: bool,
) -> Seq<Seq<char>> {
    resolved_paths(project, plain) + (if include_optional {
        resolved_paths(project, optional)
    } else {
        Seq::empty()
    }) + (if include_peer {
        resolved_paths(project, peer)
    } else {
        Seq::empty()
    }) + (if include_dev {
        resolved_paths(project, dev)
    } else {
        Seq::empty()
    })
}

/// The npm local paths of a manifest, resolved under the project, for the
/// dependency kinds included.
pub fn manifest_npm_local_paths(
    project_dir: &str,
    plain: &Vec<String>,
    optional: &Vec<String>,
    peer: &Vec<String>,
    dev: &Vec<String>,
    include_optional: bool,
    include_peer: bool,
    include_dev: bool,
) -> (r: Vec<String>)
    ensures
        texts_of(r@) == manifest_local_paths(
            project_dir@,
            texts_of(plain@),
            texts_of(optional@),
            texts_of(peer@),
            texts_of(dev@),
            include_optional,
            include_peer,
            include_dev,
        ),
{
    let mut out: Vec<String> = Vec::new();
    assert(texts_of(out@) =~= Seq::<Seq<char>>::empty());
    push_resolved(&mut out, project_dir, plain);
    if include_optional {
        push_resolved(&mut out, project_dir, optional);
    }
    if include_peer {
        push_resolved(&mut out, project_dir, peer);
    }
    if include_dev {
        push_resolved(&mut out, project_dir, dev);
    }
    proof {
        let e = Seq::<Seq<char>>::empty();
        assert(texts_of(out@) =~= manifest_local_paths(
            project_dir@,
            texts_of(plain@),
            texts_of(optional@),
            texts_of(peer@),
            texts_of(dev@),
            include_optional,
            include_peer,
            include_dev,
        ));
    }
    out
}

/// The refusal of a malformed minimum release age.
pub open spec fn invalid_age_message(raw: Seq<char>) -> Seq<char> {
    "invalid min-release-age `"@ + raw
        + "`; use e.g. \"14d\", \"12h\", \"2w\", or \"7\" (days)"@
}

/// The minimum release age a run takes: the project's, else the global
/// one, else what it had; a value that is present but could not be read
/// as a duration (`None` beside it) is refused, the project's first.
pub open spec fn min_release_age_outcome(
    project: Option<(Seq<char>, Option<i64>)>,
    global: Option<(Seq<char>, Option<i64>)>,
    current: Option<i64>,
    r: Result<Option<i64>, OmcRegistryError>,
) -> bool {
    match project {
        Some((raw, None)) => r matches Err(OmcRegistryError::UnsupportedSpec(m)) && m@
            == invalid_age_message(raw),
        _ => match global {
            Some((raw, None)) => r matches Err(OmcRegistryError::UnsupportedSpec(m)) && m@
                == invalid_age_message(raw),
            _ => r == Ok::<Option<i64>, OmcRegistryError>(
                match project {
                    Some((_, Some(s))) => Some(s),
                    _ => match global {
                        Some((_, Some(s))) => Some(s),
                        _ => current,
                    },
                },
            ),
        },
    }
}

/// The minimum release age of a run, from the project's and the global
/// manifest's values (each with its reading as seconds) and the run's
/// current value.
pub fn effective_min_release_age(
    project: Option<(&str, Option<i64>)>,
    global: Option<(&str, Option<i64>)>,
    current: Option<i64>,
) -> (r: Result<Option<i64>, OmcRegistryError>)
    ensures
        min_release_age_outcome(
            match project {
                Some((raw, s)) => Some((raw@, s)),
                None => None,
            },
            match global {
                Some((raw, s)) => Some((raw@, s)),
                None => None,
            },
            current,
            r,
        ),
{
    let tail = "`; use e.g. \"14d\", \"12h\", \"2w\", or \"7\" (days)";
    match project {
        Some((raw, None)) => {
            return Err(
                OmcRegistryError::UnsupportedSpec(
                    message("invalid min-release-age `", chars_of(raw).as_slice(), tail),
                ),
            );
        },
        _ => {},
    }
    match global {
        Some((raw, None)) => {
            return Err(
                OmcRegistryError::UnsupportedSpec(
                    message("invalid min-release-age `", chars_of(raw).as_slice(), tail),
                ),
            );
        },
        _ => {},
    }
    match project {
        Some((_, Some(s))) => Ok(Some(s)),
        _ => match global {
            Some((_, Some(s))) => Ok(Some(s)),
            _ => Ok(current),
        },
    }
}

} // verus!
