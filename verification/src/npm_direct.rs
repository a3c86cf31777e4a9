//! Direct npm archive references: a GitHub repository, an `https://`
//! tarball, a `file:` tarball or a local tarball path, read into the URL
//! the archive is fetched from and, for a local archive, its path.
use vstd::prelude::*;
use crate::entry_source::{Ecosystem, PackageSpec};
use crate::error::OmcRegistryError;
use crate::npm_arguments::message;
use crate::npm_github::{
    explicit_local_path, github_archive_url, is_explicit_local_path, is_npm_tarball_path,
    not_tarball_message, npm_github_archive_url, npm_tarball_path, require_npm_tarball_path,
};
use crate::project_lock::{join_path, path_join};
use crate::text::{
    chars_of, eq_chars, starts_with, starts_with_chars, string_from_chars, suffix_from, trim,
    trim_chars,
};

verus! {

// ---------------------------------------------------------------------------
// File URLs
// ---------------------------------------------------------------------------

/// What `Url::parse` makes of a text, read as its scheme, its serialization
/// (`to_string`) and, through `Url::to_file_path`, the local path it names
/// (`to_string_lossy`), if it names one.
pub uninterp spec fn file_url_reading(text: Seq<char>) -> Option<(Seq<char>, Seq<char>, Option<Seq<char>>)>;

/// Parses a URL with `reqwest::Url::parse` and reads its scheme, its
/// serialization and the local path `Url::to_file_path` gives.  The
/// contract names the result.
#[verifier::external_body]
fn read_file_url(text: &str) -> (r: Option<(String, String, Option<String>)>)
    ensures
        match r {
            Some((scheme, text_form, path)) => file_url_reading(text@) == Some(
                (
                    scheme@,
                    text_form@,
                    match path {
                        Some(p) => Some(p@),
                        None => None,
                    },
                ),
            ),
            None => file_url_reading(text@) is None,
        },
{
    let url = reqwest::Url::parse(text).ok()?;
    let path = match url.to_file_path() {
        Ok(p) => Some(p.to_string_lossy().into_owned()),
        Err(_) => None,
    };
    Some((url.scheme().to_owned(), url.to_string(), path))
}

/// The serialization of the `file:` URL `Url::from_file_path` makes of an
/// absolute path.
pub uninterp spec fn path_file_url(path: Seq<char>) -> Seq<char>;

/// A Unix path is absolute when it starts at the root.
pub open spec fn absolute_path(p: Seq<char>) -> bool {
    p.len() > 0 && p[0] == '/'
}

/// Makes a `file:` URL of a path with `reqwest::Url::from_file_path` and
/// serializes it.  On Unix the `url` crate refuses exactly the paths that
/// are not absolute; the contract states that and names the URL.
#[verifier::external_body]
fn file_url_of_path(path: &str) -> (r: Option<String>)
    ensures
        r is Some <==> absolute_path(path@),
        r matches Some(u) ==> u@ == path_file_url(path@),
{
    match reqwest::Url::from_file_path(path) {
        Ok(u) => Some(u.to_string()),
        Err(_) => None,
    }
}

// ---------------------------------------------------------------------------
// Tarball URLs
// ---------------------------------------------------------------------------

pub open spec fn bad_file_url_message(url: Seq<char>) -> Seq<char> {
    "direct npm tarball URL `"@ + url + "` must use a valid file URL"@
}

pub open spec fn unconvertible_path_message(path: Seq<char>) -> Seq<char> {
    "direct npm tarball path `"@ + path + "` could not be converted to a file URL"@
}

pub open spec fn plain_http_message(url: Seq<char>) -> Seq<char> {
    "direct npm tarball URL `"@ + url + "` must use https"@
}

/// The tarball URL a requirement names, relative paths read under `base`:
/// a GitHub repository's archive; an `https://` tarball as written; a
/// `file://` URL, held to a tarball path; a `file:` path, made absolute and
/// turned into a `file:` URL; refused for plain `http://`; none for any
/// other requirement.  Refusals carry their message.
pub open spec fn tarball_url_of(requirement: Seq<char>, base: Seq<char>) -> Result<Option<Seq<char>>, Seq<char>> {
    let r = trim(requirement);
    match github_archive_url(r) {
        Err(m) => Err(m),
        Ok(Some(u)) => Ok(Some(u)),
        Ok(None) => if starts_with(r, "https://"@) {
            if npm_tarball_path(r) {
                Ok(Some(r))
            } else {
                Err(not_tarball_message(r))
            }
        } else if starts_with(r, "file:"@) {
            let p = trim(r.skip(5));
            if starts_with(p, "//"@) {
                match file_url_reading(r) {
                    None => Err(r),
                    Some((_, _, None)) => Err(bad_file_url_message(r)),
                    Some((_, text_form, Some(path))) => if npm_tarball_path(path) {
                        Ok(Some(text_form))
                    } else {
                        Err(not_tarball_message(path))
                    },
                }
            } else {
                let full = path_join(base, p);
                if !npm_tarball_path(full) {
                    Err(not_tarball_message(full))
                } else if absolute_path(full) {
                    Ok(Some(path_file_url(full)))
                } else {
                    Err(unconvertible_path_message(full))
                }
            }
        } else if starts_with(r, "http://"@) {
            Err(plain_http_message(r))
        } else {
            Ok(None)
        },
    }
}

/// An outcome as plain values: refusals by their `UnsupportedSpec`
/// message.
pub open spec fn outcome_view<T>(r: Result<T, OmcRegistryError>) -> Result<T, Seq<char>> {
    match r {
        Ok(v) => Ok(v),
        Err(OmcRegistryError::UnsupportedSpec(m)) => Err(m@),
        Err(_) => Err(Seq::empty()),
    }
}

pub open spec fn opt_text(o: Option<String>) -> Option<Seq<char>> {
    match o {
        Some(s) => Some(s@),
        None => None,
    }
}

fn refuse(head: &str, value: &[char], tail: &str) -> (r: OmcRegistryError)
    ensures
        r matches OmcRegistryError::UnsupportedSpec(m) && m@ == head@ + value@ + tail@,
{
    OmcRegistryError::UnsupportedSpec(message(head, value, tail))
}

/// The tarball URL of a direct npm requirement, relative `file:` paths read
/// under `base_dir`.
pub fn npm_direct_tarball_url(requirement: &str, base_dir: &str) -> (r: Result<Option<String>, OmcRegistryError>)
    ensures
        r is Err ==> r matches Err(OmcRegistryError::UnsupportedSpec(_)),
        (match outcome_view(r) {
            Ok(o) => Ok(opt_text(o)),
            Err(m) => Err(m),
        }) == tarball_url_of(requirement@, base_dir@),
{
    proof {
        reveal_strlit("");
    }
    let rc = trim_chars(chars_of(requirement).as_slice());
    let r = string_from_chars(rc.as_slice());
    match npm_github_archive_url(r.as_str()) {
        Err(e) => {
            return Err(e);
        },
        Ok(Some(u)) => {
            return Ok(Some(u));
        },
        Ok(None) => {},
    }
    if starts_with_chars(rc.as_slice(), chars_of("https://").as_slice()) {
        if is_npm_tarball_path(rc.as_slice()) {
            return Ok(Some(r));
        }
        return Err(refuse("direct npm dependency `", rc.as_slice(), "` must be a .tgz or .tar.gz archive"));
    }
    if starts_with_chars(rc.as_slice(), chars_of("file:").as_slice()) {
        proof {
            reveal_strlit("file:");
        }
        let p = trim_chars(suffix_from(rc.as_slice(), 5).as_slice());
        if starts_with_chars(p.as_slice(), chars_of("//").as_slice()) {
            return match read_file_url(r.as_str()) {
                None => Err(OmcRegistryError::UnsupportedSpec(r)),
                Some((_scheme, text_form, path)) => match path {
                    None => Err(refuse("direct npm tarball URL `", rc.as_slice(), "` must use a valid file URL")),
                    Some(path) => {
                        let pc = chars_of(path.as_str());
                        if is_npm_tarball_path(pc.as_slice()) {
                            Ok(Some(text_form))
                        } else {
                            Err(
                                refuse(
                                    "direct npm dependency `",
                                    pc.as_slice(),
                                    "` must be a .tgz or .tar.gz archive",
                                ),
                            )
                        }
                    },
                },
            };
        }
        let full = join_path(chars_of(base_dir).as_slice(), p.as_slice());
        if !is_npm_tarball_path(full.as_slice()) {
            return Err(refuse("direct npm dependency `", full.as_slice(), "` must be a .tgz or .tar.gz archive"));
        }
        let fs = string_from_chars(full.as_slice());
        return match file_url_of_path(fs.as_str()) {
            Some(u) => Ok(Some(u)),
            None => Err(
                refuse("direct npm tarball path `", full.as_slice(), "` could not be converted to a file URL"),
            ),
        };
    }
    if starts_with_chars(rc.as_slice(), chars_of("http://").as_slice()) {
        return Err(refuse("direct npm tarball URL `", rc.as_slice(), "` must use https"));
    }
    Ok(None)
}

// ---------------------------------------------------------------------------
// Direct archive references
// ---------------------------------------------------------------------------

/// The local path a tarball URL names: none for a URL that is not `file:`;
/// refused when the URL does not parse or names no local path.
pub open spec fn url_local_path(url: Seq<char>) -> Result<Option<Seq<char>>, Seq<char>> {
    match file_url_reading(url) {
        None => Err(url),
        Some((scheme, text_form, path)) => if scheme != "file"@ {
            Ok(None)
        } else {
            match path {
                Some(p) => Ok(Some(p)),
                None => Err(bad_file_url_message(text_form)),
            }
        },
    }
}

/// A local path as written: `~/` under the home directory when there is
/// one, any other path under `base` unless it is absolute.
pub open spec fn expanded_path(value: Seq<char>, base: Seq<char>, home: Option<Seq<char>>) -> Seq<char> {
    match home {
        Some(h) => if starts_with(value, "~/"@) {
            path_join(h, value.skip(2))
        } else {
            path_join(base, value)
        },
        None => path_join(base, value),
    }
}

/// What a direct archive reference names, read under `base` with the home
/// directory `home`: the URL its archive is fetched from and, for a local
/// archive, its path; none for a reference that names no direct archive.
/// Refusals carry their message.
pub open spec fn archive_reference_of(reference: Seq<char>, base: Seq<char>, home: Option<Seq<char>>) -> Result<
    Option<(Seq<char>, Option<Seq<char>>)>,
    Seq<char>,
> {
    let r = trim(reference);
    if r.len() == 0 {
        Ok(None)
    } else {
        match tarball_url_of(r, base) {
            Err(m) => Err(m),
            Ok(Some(u)) => match url_local_path(u) {
                Err(m) => Err(m),
                Ok(lp) => Ok(Some((u, lp))),
            },
            Ok(None) => if !explicit_local_path(r) {
                Ok(None)
            } else {
                let path = expanded_path(r, base, home);
                if !npm_tarball_path(path) {
                    Err(not_tarball_message(path))
                } else if absolute_path(path) {
                    Ok(Some((path_file_url(path), Some(path))))
                } else {
                    Err(unconvertible_path_message(path))
                }
            },
        }
    }
}

pub open spec fn archive_view(o: Option<(String, Option<String>)>) -> Option<(Seq<char>, Option<Seq<char>>)> {
    match o {
        Some((u, p)) => Some((u@, opt_text(p))),
        None => None,
    }
}

/// The local path a tarball URL names.
fn npm_file_url_path(url: &str) -> (r: Result<Option<String>, OmcRegistryError>)
    ensures
        r is Err ==> r matches Err(OmcRegistryError::UnsupportedSpec(_)),
        (match outcome_view(r) {
            Ok(o) => Ok(opt_text(o)),
            Err(m) => Err(m),
        }) == url_local_path(url@),
{
    proof {
        reveal_strlit("file");
    }
    match read_file_url(url) {
        None => Err(OmcRegistryError::UnsupportedSpec(string_from_chars(chars_of(url).as_slice()))),
        Some((scheme, text_form, path)) => {
            if !eq_chars(chars_of(scheme.as_str()).as_slice(), chars_of("file").as_slice()) {
                return Ok(None);
            }
            match path {
                Some(p) => Ok(Some(p)),
                None => Err(
                    refuse(
                        "direct npm tarball URL `",
                        chars_of(text_form.as_str()).as_slice(),
                        "` must use a valid file URL",
                    ),
                ),
            }
        },
    }
}

/// The archive a direct npm reference names, relative paths read under
/// `base_dir` and `~/` under the home directory `home`: the URL it is
/// fetched from and, for a local archive, its path.
pub fn npm_direct_archive_url(reference: &str, base_dir: &str, home: Option<&str>) -> (r: Result<
    Option<(String, Option<String>)>,
    OmcRegistryError,
>)
    ensures
        r is Err ==> r matches Err(OmcRegistryError::UnsupportedSpec(_)),
        (match outcome_view(r) {
            Ok(o) => Ok(archive_view(o)),
            Err(m) => Err(m),
        }) == archive_reference_of(
            reference@,
            base_dir@,
            match home {
                Some(h) => Some(h@),
                None => None,
            },
        ),
{
    proof {
        reveal_strlit("~/");
    }
    let rc = trim_chars(chars_of(reference).as_slice());
    if rc.len() == 0 {
        return Ok(None);
    }
    let r = string_from_chars(rc.as_slice());
    match npm_direct_tarball_url(r.as_str(), base_dir) {
        Err(e) => {
            return Err(e);
        },
        Ok(Some(u)) => {
            return match npm_file_url_path(u.as_str()) {
                Err(e) => Err(e),
                Ok(lp) => Ok(Some((u, lp))),
            };
        },
        Ok(None) => {},
    }
    if !is_explicit_local_path(rc.as_slice()) {
        return Ok(None);
    }
    let path = match home {
        Some(h) => if starts_with_chars(rc.as_slice(), chars_of("~/").as_slice()) {
            join_path(chars_of(h).as_slice(), suffix_from(rc.as_slice(), 2).as_slice())
        } else {
            join_path(chars_of(base_dir).as_slice(), rc.as_slice())
        },
        None => join_path(chars_of(base_dir).as_slice(), rc.as_slice()),
    };
    match require_npm_tarball_path(path.as_slice()) {
        Err(e) => {
            return Err(e);
        },
        Ok(()) => {},
    }
    let ps = string_from_chars(path.as_slice());
    match file_url_of_path(ps.as_str()) {
        Some(u) => Ok(Some((u, Some(ps)))),
        None => Err(refuse("direct npm tarball path `", path.as_slice(), "` could not be converted to a file URL")),
    }
}

/// The name a direct npm tarball with no local file goes by until its
/// manifest is read.
pub open spec fn direct_tarball_placeholder() -> Seq<char> {
    "__omc_direct_tarball__"@
}

/// The package spec a direct npm archive reference gives: an npm spec of
/// the archive's URL, named by the local tarball's manifest (`manifest_name`,
/// which the caller reads from the path `npm_direct_archive_url` gives) or,
/// for a remote archive, by the placeholder; refused when a local
/// tarball's manifest declares no name.
pub open spec fn archive_spec_of(
    reference: Seq<char>,
    base: Seq<char>,
    home: Option<Seq<char>>,
    manifest_name: Option<Seq<char>>,
) -> Result<Option<(Seq<char>, Seq<char>)>, Seq<char>> {
    match archive_reference_of(reference, base, home) {
        Err(m) => Err(m),
        Ok(None) => Ok(None),
        Ok(Some((u, None))) => Ok(Some((direct_tarball_placeholder(), u))),
        Ok(Some((u, Some(p)))) => match manifest_name {
            Some(n) => if n.len() > 0 {
                Ok(Some((n, u)))
            } else {
                Err("direct npm tarball `"@ + p + "` did not declare a package name"@)
            },
            None => Err("direct npm tarball `"@ + p + "` did not declare a package name"@),
        },
    }
}

/// The npm spec of a direct archive reference: ecosystem npm, the name,
/// no version requirement, no extras, and the archive's URL.
pub open spec fn spec_view(o: Option<PackageSpec>) -> Option<(Seq<char>, Seq<char>)> {
    match o {
        Some(s) => Some((s.name@, match s.direct_url {
            Some(u) => u@,
            None => Seq::empty(),
        })),
        None => None,
    }
}

/// Parses a direct npm archive reference into the package spec it names.
pub fn parse_npm_direct_archive_reference(
    reference: &str,
    base_dir: &str,
    home: Option<&str>,
    manifest_name: Option<&str>,
) -> (r: Result<Option<PackageSpec>, OmcRegistryError>)
    ensures
        r is Err ==> r matches Err(OmcRegistryError::UnsupportedSpec(_)),
        r matches Ok(Some(s)) ==> s.ecosystem == Ecosystem::Npm && s.version is None && s.extras@.len() == 0
            && s.direct_url is Some,
        (match outcome_view(r) {
            Ok(o) => Ok(spec_view(o)),
            Err(m) => Err(m),
        }) == archive_spec_of(
            reference@,
            base_dir@,
            match home {
                Some(h) => Some(h@),
                None => None,
            },
            match manifest_name {
                Some(n) => Some(n@),
                None => None,
            },
        ),
{
    proof {
        reveal_strlit("__omc_direct_tarball__");
    }
    let (url, local) = match npm_direct_archive_url(reference, base_dir, home) {
        Err(e) => {
            return Err(e);
        },
        Ok(None) => {
            return Ok(None);
        },
        Ok(Some(x)) => x,
    };
    let name = match local {
        None => string_from_chars(chars_of("__omc_direct_tarball__").as_slice()),
        Some(p) => match manifest_name {
            Some(n) => if chars_of(n).len() > 0 {
                string_from_chars(chars_of(n).as_slice())
            } else {
                return Err(
                    refuse("direct npm tarball `", chars_of(p.as_str()).as_slice(), "` did not declare a package name"),
                );
            },
            None => {
                return Err(
                    refuse("direct npm tarball `", chars_of(p.as_str()).as_slice(), "` did not declare a package name"),
                );
            },
        },
    };
    Ok(
        Some(
            PackageSpec {
                ecosystem: Ecosystem::Npm,
                name,
                version: None,
                extras: Vec::new(),
                direct_url: Some(url),
            },
        ),
    )
}

} // verus!
