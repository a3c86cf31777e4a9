//! GitHub shorthand and direct-tarball references of npm dependencies.
use vstd::prelude::*;
use crate::error::OmcRegistryError;
use crate::text::{
    chars_of, concat_chars, ends_with, eq_chars, find_char, find_chars, first_occurrence, index_of,
    lower_chars, lower_seq, nonempty_pieces, nonempty_pieces_of, seqs_of, slice_of, split_char,
    split_chars, starts_with, starts_with_chars, string_from_chars, strip_suffix,
    strip_suffix_or_keep, suffix_from, trim, trim_chars, ends_with_chars,
};

verus! {

// ---------------------------------------------------------------------------
// URL parsing and percent-encoding
// ---------------------------------------------------------------------------

/// What `Url::parse` makes of a text: scheme, host, explicit port, path and
/// path segments (`None` for a URL that cannot be a base).
pub uninterp spec fn parsed_url(text: Seq<char>) -> Option<
    (Seq<char>, Option<Seq<char>>, Option<u16>, Seq<char>, Option<Seq<Seq<char>>>),
>;

/// The parts of a parsed URL.
pub struct UrlParts {
    pub scheme: String,
    pub host: Option<String>,
    pub port: Option<u16>,
    pub path: String,
    pub segments: Option<Vec<String>>,
}

pub open spec fn opt_view(o: Option<String>) -> Option<Seq<char>> {
    match o {
        Some(s) => Some(s@),
        None => None,
    }
}

pub open spec fn strings_view(v: Seq<String>) -> Seq<Seq<char>> {
    Seq::new(v.len(), |i: int| v[i]@)
}

impl UrlParts {
    pub open spec fn parts(&self) -> (
        Seq<char>,
        Option<Seq<char>>,
        Option<u16>,
        Seq<char>,
        Option<Seq<Seq<char>>>,
    ) {
        (
            self.scheme@,
            opt_view(self.host),
            self.port,
            self.path@,
            match self.segments {
                Some(v) => Some(strings_view(v@)),
                None => None,
            },
        )
    }
}

/// Parses a URL with `reqwest::Url::parse` (the `url` crate's parser) and
/// reads its scheme, host, port, path and path segments.  The contract only
/// ties the result to `parsed_url` of the text; what the parser accepts is
/// the `url` crate's WHATWG parser and is not restated here.
#[verifier::external_body]
pub(crate) fn parse_url(text: &str) -> (r: Option<UrlParts>)
    ensures
        r matches Some(u) ==> parsed_url(text@) == Some(u.parts()),
        r is None ==> parsed_url(text@) is None,
{
    let url = reqwest::Url::parse(text).ok()?;
    let segments = match url.path_segments() {
        Some(it) => Some(it.map(String::from).collect()),
        None => None,
    };
    Some(UrlParts {
        scheme: url.scheme().to_owned(),
        host: url.host_str().map(String::from),
        port: url.port(),
        path: url.path().to_owned(),
        segments,
    })
}

/// `urlencoding::encode` of a text.
pub uninterp spec fn url_encoded(text: Seq<char>) -> Seq<char>;

/// A character that percent-encoding leaves as it is.
pub open spec fn url_unreserved(c: char) -> bool {
    ('a' <= c && c <= 'z') || ('A' <= c && c <= 'Z') || ('0' <= c && c <= '9') || c == '-' || c
        == '_' || c == '.' || c == '~'
}

/// Percent-encodes a text with `urlencoding::encode`.  The crate documents
/// that every byte but ASCII letters, digits and `-_.~` is encoded; the
/// contract states that a text made only of those characters comes back
/// unchanged and otherwise names the result.
#[verifier::external_body]
pub(crate) fn url_encode(text: &str) -> (r: String)
    ensures
        r@ == url_encoded(text@),
        (forall|i: int| 0 <= i < text@.len() ==> url_unreserved(#[trigger] text@[i])) ==> r@
            == text@,
{
    urlencoding::encode(text).into_owned()
}

// ---------------------------------------------------------------------------
// References
// ---------------------------------------------------------------------------

/// `value` split at its first `#`: the source and the trimmed reference, the
/// reference dropped when blank.
pub open spec fn git_reference_split(value: Seq<char>) -> (Seq<char>, Option<Seq<char>>) {
    match index_of(value, '#') {
        None => (value, None),
        Some(i) => (
            value.take(i),
            if trim(value.skip(i + 1)).len() > 0 {
                Some(trim(value.skip(i + 1)))
            } else {
                None
            },
        ),
    }
}

/// The message of a refused GitHub dependency.
pub open spec fn invalid_github_message(original: Seq<char>) -> Seq<char> {
    "invalid npm GitHub dependency `"@ + original + "`"@
}

/// The outcome of reading an owner, a repository and a reference.
pub open spec fn github_parts(
    owner: Seq<char>,
    repo: Seq<char>,
    reference: Option<Seq<char>>,
    original: Seq<char>,
) -> Result<Option<(Seq<char>, Seq<char>, Option<Seq<char>>)>, Seq<char>> {
    if owner.len() == 0 || repo.len() == 0 || owner[0] == '.' || repo[0] == '.' {
        Err(invalid_github_message(original))
    } else {
        Ok(Some((owner, repo, reference)))
    }
}

/// `repo` without a trailing `.git`.
pub open spec fn without_git_suffix(repo: Seq<char>) -> Seq<char> {
    match strip_suffix(repo, ".git"@) {
        Some(t) => t,
        None => repo,
    }
}

/// `owner/repo#ref` read from `value`: exactly two non-empty path pieces.
pub open spec fn github_shorthand(value: Seq<char>, original: Seq<char>) -> Result<
    Option<(Seq<char>, Seq<char>, Option<Seq<char>>)>,
    Seq<char>,
> {
    let (path, reference) = git_reference_split(trim(value));
    let segments = nonempty_pieces(split_char(path, '/'));
    if segments.len() != 2 {
        Ok(None)
    } else {
        github_parts(segments[0], without_git_suffix(segments[1]), reference, original)
    }
}

/// A reference that reads as a bare `owner/repo` GitHub shorthand.
pub open spec fn bare_github_shorthand(r: Seq<char>) -> bool {
    let excluded = (r.len() > 0 && (r[0] == '@' || r[0] == '.' || r[0] == '/')) || starts_with(
        r,
        "~/"@,
    ) || first_occurrence(r, "://"@) is Some || starts_with(r, "git+"@) || starts_with(r, "file:"@)
        || starts_with(r, "link:"@);
    let segments = split_char(git_reference_split(r).0, '/');
    !excluded && segments.len() == 2 && (forall|k: int|
        0 <= k < 2 ==> #[trigger] segments[k].len() > 0 && segments[k][0] != '.')
}

/// The path pieces of a parsed URL that are not empty.
pub open spec fn url_pieces(segments: Option<Seq<Seq<char>>>) -> Seq<Seq<char>> {
    match segments {
        Some(s) => nonempty_pieces(s),
        None => Seq::empty(),
    }
}

/// The GitHub owner, repository and reference of an npm dependency, if it
/// names a GitHub repository.
pub open spec fn github_dependency(requirement: Seq<char>) -> Result<
    Option<(Seq<char>, Seq<char>, Option<Seq<char>>)>,
    Seq<char>,
> {
    let r = trim(requirement);
    if r.len() == 0 {
        Ok(None)
    } else if starts_with(r, "github:"@) {
        github_shorthand(r.skip("github:"@.len() as int), r)
    } else if starts_with(r, "git@github.com:"@) {
        github_shorthand(r.skip("git@github.com:"@.len() as int), r)
    } else {
        let (source0, reference) = git_reference_split(r);
        let source = if starts_with(source0, "git+"@) {
            source0.skip("git+"@.len() as int)
        } else {
            source0
        };
        if starts_with(source, "git@github.com:"@) {
            github_shorthand(source.skip("git@github.com:"@.len() as int), r)
        } else {
            match parsed_url(source) {
                Some(u) => match u.1 {
                    None => Ok(None),
                    Some(host) => if lower_seq(host) != "github.com"@ {
                        Ok(None)
                    } else if u.0 != "https"@ && u.0 != "ssh"@ {
                        Ok(None)
                    } else {
                        let pieces = url_pieces(u.4);
                        if pieces.len() != 2 {
                            Ok(None)
                        } else {
                            github_parts(pieces[0], without_git_suffix(pieces[1]), reference, r)
                        }
                    },
                },
                None => if bare_github_shorthand(r) {
                    github_shorthand(r, r)
                } else {
                    Ok(None)
                },
            }
        }
    }
}

/// A reference made of `/`-separated pieces, each percent-encoded.
pub open spec fn encoded_ref_path(pieces: Seq<Seq<char>>) -> Seq<char>
    decreases pieces.len(),
{
    if pieces.len() == 0 {
        Seq::empty()
    } else if pieces.len() == 1 {
        url_encoded(pieces[0])
    } else {
        encoded_ref_path(pieces.drop_last()) + "/"@ + url_encoded(pieces.last())
    }
}

/// The message of a GitHub dependency with a `semver:` reference.
pub open spec fn github_semver_message(requirement: Seq<char>) -> Seq<char> {
    "npm GitHub dependency `"@ + requirement
        + "` uses semver refs, which OMC does not resolve yet"@
}

/// The archive URL of a GitHub dependency.
pub open spec fn github_archive_url(requirement: Seq<char>) -> Result<Option<Seq<char>>, Seq<char>> {
    match github_dependency(requirement) {
        Err(m) => Err(m),
        Ok(None) => Ok(None),
        Ok(Some((owner, repo, reference))) => if reference matches Some(x) && starts_with(
            x,
            "semver:"@,
        ) {
            Err(github_semver_message(requirement))
        } else {
            let rf = match reference {
                Some(x) => x,
                None => "HEAD"@,
            };
            Ok(
                Some(
                    "https://github.com/"@ + url_encoded(owner) + "/"@ + url_encoded(repo)
                        + "/archive/"@ + encoded_ref_path(split_char(rf, '/'))
                        + ".tar.gz"@,
                ),
            )
        },
    }
}

// ---------------------------------------------------------------------------
// Executable functions
// ---------------------------------------------------------------------------

/// `value.split_once('#')`, the reference trimmed and dropped when blank.
pub fn split_npm_git_reference(value: &[char]) -> (r: (Vec<char>, Option<Vec<char>>))
    ensures
        (r.0@, match r.1 {
            Some(x) => Some(x@),
            None => None,
        }) == git_reference_split(value@),
{
    match find_char(value, '#') {
        None => (slice_of(value, 0, value.len()), None),
        Some(i) => {
            let source = slice_of(value, 0, i);
            let after = suffix_from(value, i + 1);
            let reference = trim_chars(after.as_slice());
            proof {
                assert(source@ =~= value@.take(i as int));
                assert(value@.subrange(0, value@.len() as int) =~= value@);
            }
            if reference.len() > 0 {
                (source, Some(reference))
            } else {
                (source, None)
            }
        },
    }
}

proof fn lemma_whole_slice(s: Seq<char>)
    ensures
        s.subrange(0, s.len() as int) == s,
{
    assert(s.subrange(0, s.len() as int) =~= s);
}

fn message_with(head: &str, value: &[char], tail: &str) -> (m: String)
    ensures
        m@ == head@ + value@ + tail@,
{
    let h = chars_of(head);
    let t = chars_of(tail);
    let a = concat_chars(h.as_slice(), value);
    let b = concat_chars(a.as_slice(), t.as_slice());
    string_from_chars(b.as_slice())
}

pub open spec fn parts_view(r: Result<Option<(String, String, Option<String>)>, OmcRegistryError>) -> Result<
    Option<(Seq<char>, Seq<char>, Option<Seq<char>>)>,
    Seq<char>,
> {
    match r {
        Ok(None) => Ok(None),
        Ok(Some((o, p, x))) => Ok(Some((o@, p@, opt_view(x)))),
        Err(OmcRegistryError::UnsupportedSpec(m)) => Err(m@),
        Err(_) => Err(Seq::empty()),
    }
}

/// Checks an owner and a repository: neither empty nor starting with `.`.
pub fn npm_valid_github_parts(
    owner: &[char],
    repo: &[char],
    reference: Option<Vec<char>>,
    original: &[char],
) -> (r: Result<Option<(String, String, Option<String>)>, OmcRegistryError>)
    ensures
        parts_view(r) == github_parts(owner@, repo@, opt_chars(reference), original@),
        r is Err ==> r matches Err(OmcRegistryError::UnsupportedSpec(_)),
{
    if owner.len() == 0 || repo.len() == 0 || owner[0] == '.' || repo[0] == '.' {
        return Err(
            OmcRegistryError::UnsupportedSpec(
                message_with("invalid npm GitHub dependency `", original, "`"),
            ),
        );
    }
    let reference = match reference {
        Some(x) => Some(string_from_chars(x.as_slice())),
        None => None,
    };
    Ok(Some((string_from_chars(owner), string_from_chars(repo), reference)))
}

pub open spec fn opt_chars(o: Option<Vec<char>>) -> Option<Seq<char>> {
    match o {
        Some(v) => Some(v@),
        None => None,
    }
}

/// `owner/repo#ref` read from `value`.
pub fn npm_github_shorthand_parts(value: &[char], original: &[char]) -> (r: Result<
    Option<(String, String, Option<String>)>,
    OmcRegistryError,
>)
    ensures
        parts_view(r) == github_shorthand(value@, original@),
        r is Err ==> r matches Err(OmcRegistryError::UnsupportedSpec(_)),
{
    let t = trim_chars(value);
    let (path, reference) = split_npm_git_reference(t.as_slice());
    let pieces = split_chars(path.as_slice(), '/');
    let segments = nonempty_pieces_of(&pieces);
    if segments.len() != 2 {
        return Ok(None);
    }
    let git = chars_of(".git");
    let repo = strip_suffix_or_keep(segments[1].as_slice(), git.as_slice());
    proof {
        assert(seqs_of(segments@)[0] == segments@[0]@);
        assert(seqs_of(segments@)[1] == segments@[1]@);
    }
    npm_valid_github_parts(segments[0].as_slice(), repo.as_slice(), reference, original)
}

/// Whether a reference reads as a bare `owner/repo` GitHub shorthand.
pub fn npm_bare_github_shorthand(requirement: &[char]) -> (b: bool)
    ensures
        b == bare_github_shorthand(requirement@),
{
    let tilde = chars_of("~/");
    let scheme = chars_of("://");
    let git = chars_of("git+");
    let file = chars_of("file:");
    let link = chars_of("link:");
    if (requirement.len() > 0 && (requirement[0] == '@' || requirement[0] == '.' || requirement[0]
        == '/')) || starts_with_chars(requirement, tilde.as_slice()) || find_chars(
        requirement,
        scheme.as_slice(),
    ).is_some() || starts_with_chars(requirement, git.as_slice()) || starts_with_chars(
        requirement,
        file.as_slice(),
    ) || starts_with_chars(requirement, link.as_slice()) {
        return false;
    }
    let (path, _) = split_npm_git_reference(requirement);
    let segments = split_chars(path.as_slice(), '/');
    if segments.len() != 2 {
        return false;
    }
    proof {
        assert(seqs_of(segments@)[0] == segments@[0]@);
        assert(seqs_of(segments@)[1] == segments@[1]@);
    }
    let ok = segments[0].len() > 0 && segments[0][0] != '.' && segments[1].len() > 0
        && segments[1][0] != '.';
    proof {
        let s = split_char(path@, '/');
        if ok {
            assert forall|k: int| 0 <= k < 2 implies #[trigger] s[k].len() > 0 && s[k][0] != '.' by {
                if k == 0 {
                } else {
                }
            }
        } else {
            if segments@[0]@.len() == 0 || segments@[0]@[0] == '.' {
                assert(!(s[0].len() > 0 && s[0][0] != '.'));
            } else {
                assert(!(s[1].len() > 0 && s[1][0] != '.'));
            }
        }
    }
    ok
}

fn strings_of(v: &Vec<String>) -> (out: Vec<Vec<char>>)
    ensures
        seqs_of(out@) == strings_view(v@),
{
    let mut out: Vec<Vec<char>> = Vec::new();
    let mut i: usize = 0;
    while i < v.len()
        invariant
            i <= v@.len(),
            out@.len() == i,
            forall|k: int| 0 <= k < i ==> #[trigger] out@[k]@ == v@[k]@,
        decreases v.len() - i,
    {
        out.push(chars_of(v[i].as_str()));
        i = i + 1;
    }
    assert(seqs_of(out@) =~= strings_view(v@));
    out
}

/// The GitHub owner, repository and reference named by an npm dependency:
/// `github:owner/repo`, `git@github.com:owner/repo`, a `https` or `ssh` URL
/// on `github.com`, or a bare `owner/repo`; each with an optional `#ref`.
pub fn npm_github_dependency_parts(requirement: &str) -> (r: Result<
    Option<(String, String, Option<String>)>,
    OmcRegistryError,
>)
    ensures
        parts_view(r) == github_dependency(requirement@),
        r is Err ==> r matches Err(OmcRegistryError::UnsupportedSpec(_)),
{
    let raw = chars_of(requirement);
    let r = trim_chars(raw.as_slice());
    if r.len() == 0 {
        return Ok(None);
    }
    let github = chars_of("github:");
    let ssh = chars_of("git@github.com:");
    if starts_with_chars(r.as_slice(), github.as_slice()) {
        let rest = suffix_from(r.as_slice(), github.len());
        return npm_github_shorthand_parts(rest.as_slice(), r.as_slice());
    }
    if starts_with_chars(r.as_slice(), ssh.as_slice()) {
        let rest = suffix_from(r.as_slice(), ssh.len());
        return npm_github_shorthand_parts(rest.as_slice(), r.as_slice());
    }
    let (source0, reference) = split_npm_git_reference(r.as_slice());
    let git = chars_of("git+");
    let source = if starts_with_chars(source0.as_slice(), git.as_slice()) {
        suffix_from(source0.as_slice(), git.len())
    } else {
        source0
    };
    if starts_with_chars(source.as_slice(), ssh.as_slice()) {
        let rest = suffix_from(source.as_slice(), ssh.len());
        return npm_github_shorthand_parts(rest.as_slice(), r.as_slice());
    }
    let source_text = string_from_chars(source.as_slice());
    match parse_url(source_text.as_str()) {
        Some(u) => {
            let host = match u.host {
                None => {
                    return Ok(None);
                },
                Some(h) => h,
            };
            let hc = chars_of(host.as_str());
            let lowered = lower_chars(hc.as_slice());
            let gh = chars_of("github.com");
            if !eq_chars(lowered.as_slice(), gh.as_slice()) {
                return Ok(None);
            }
            let sc = chars_of(u.scheme.as_str());
            let https = chars_of("https");
            let ssh_scheme = chars_of("ssh");
            if !eq_chars(sc.as_slice(), https.as_slice()) && !eq_chars(
                sc.as_slice(),
                ssh_scheme.as_slice(),
            ) {
                return Ok(None);
            }
            let pieces = match u.segments {
                Some(v) => {
                    let all = strings_of(&v);
                    nonempty_pieces_of(&all)
                },
                None => Vec::new(),
            };
            proof {
                assert(seqs_of(pieces@) == url_pieces(u.parts().4)) by {
                    if u.segments is None {
                        assert(seqs_of(pieces@) =~= Seq::<Seq<char>>::empty());
                    }
                }
            }
            if pieces.len() != 2 {
                return Ok(None);
            }
            let git_suffix = chars_of(".git");
            let repo = strip_suffix_or_keep(pieces[1].as_slice(), git_suffix.as_slice());
            proof {
                assert(seqs_of(pieces@)[0] == pieces@[0]@);
                assert(seqs_of(pieces@)[1] == pieces@[1]@);
            }
            npm_valid_github_parts(pieces[0].as_slice(), repo.as_slice(), reference, r.as_slice())
        },
        None => {
            if npm_bare_github_shorthand(r.as_slice()) {
                npm_github_shorthand_parts(r.as_slice(), r.as_slice())
            } else {
                Ok(None)
            }
        },
    }
}

/// Percent-encodes each `/`-separated piece of a reference.
pub fn npm_github_ref_path(value: &[char]) -> (out: Vec<char>)
    ensures
        out@ == encoded_ref_path(split_char(value@, '/')),
{
    let pieces = split_chars(value, '/');
    proof {
        crate::text::lemma_split_char_nonempty(value@, '/');
    }
    let ghost all = seqs_of(pieces@);
    let mut out: Vec<char> = Vec::new();
    let mut i: usize = 0;
    while i < pieces.len()
        invariant
            all == seqs_of(pieces@),
            all == split_char(value@, '/'),
            i <= pieces@.len(),
            out@ == encoded_ref_path(all.take(i as int)),
        decreases pieces.len() - i,
    {
        let text = string_from_chars(pieces[i].as_slice());
        let enc = chars_of(url_encode(text.as_str()).as_str());
        proof {
            assert(all.take(i + 1).drop_last() =~= all.take(i as int));
            assert(all.take(i + 1).last() == pieces@[i as int]@);
        }
        if i == 0 {
            assert(all.take(1)[0] == pieces@[0]@);
            out = enc;
        } else {
            let slash = chars_of("/");
            let sep = concat_chars(out.as_slice(), slash.as_slice());
            out = concat_chars(sep.as_slice(), enc.as_slice());
        }
        i = i + 1;
    }
    assert(all.take(pieces@.len() as int) =~= all);
    out
}

/// The archive URL of a GitHub dependency, `None` when the dependency does
/// not name a GitHub repository.  A `semver:` reference is refused.
pub fn npm_github_archive_url(requirement: &str) -> (r: Result<Option<String>, OmcRegistryError>)
    ensures
        (match r {
            Ok(None) => Ok(None),
            Ok(Some(u)) => Ok(Some(u@)),
            Err(OmcRegistryError::UnsupportedSpec(m)) => Err(m@),
            Err(_) => Err(Seq::<char>::empty()),
        }) == github_archive_url(requirement@),
        r is Err ==> r matches Err(OmcRegistryError::UnsupportedSpec(_)),
{
    let parts = match npm_github_dependency_parts(requirement) {
        Err(e) => {
            return Err(e);
        },
        Ok(None) => {
            return Ok(None);
        },
        Ok(Some(p)) => p,
    };
    let (owner, repo, reference) = parts;
    let semver = chars_of("semver:");
    let rf = match reference {
        Some(x) => {
            let xc = chars_of(x.as_str());
            if starts_with_chars(xc.as_slice(), semver.as_slice()) {
                let req = chars_of(requirement);
                return Err(
                    OmcRegistryError::UnsupportedSpec(
                        message_with(
                            "npm GitHub dependency `",
                            req.as_slice(),
                            "` uses semver refs, which OMC does not resolve yet",
                        ),
                    ),
                );
            }
            xc
        },
        None => chars_of("HEAD"),
    };
    let owner_enc = chars_of(url_encode(owner.as_str()).as_str());
    let repo_enc = chars_of(url_encode(repo.as_str()).as_str());
    let ref_enc = npm_github_ref_path(rf.as_slice());
    let prefix = chars_of("https://github.com/");
    let archive = chars_of("/archive/");
    let suffix = chars_of(".tar.gz");
    let a = concat_chars(prefix.as_slice(), owner_enc.as_slice());
    let slash = chars_of("/");
    let b = concat_chars(a.as_slice(), slash.as_slice());
    let c = concat_chars(b.as_slice(), repo_enc.as_slice());
    let d = concat_chars(c.as_slice(), archive.as_slice());
    let e = concat_chars(d.as_slice(), ref_enc.as_slice());
    let f = concat_chars(e.as_slice(), suffix.as_slice());
    Ok(Some(string_from_chars(f.as_slice())))
}

// ---------------------------------------------------------------------------
// Tarball paths
// ---------------------------------------------------------------------------

/// The first index of `?` or `#`.
pub open spec fn query_start_from(s: Seq<char>, k: nat) -> nat
    decreases s.len() - k,
{
    if k >= s.len() {
        s.len()
    } else if s[k as int] == '?' || s[k as int] == '#' {
        k
    } else {
        query_start_from(s, k + 1)
    }
}

/// A path names an npm tarball: before any `?` or `#`, it ends with `.tgz`
/// or `.tar.gz`, letter case aside.
pub open spec fn npm_tarball_path(path: Seq<char>) -> bool {
    let lower = lower_seq(path.take(query_start_from(path, 0) as int));
    ends_with(lower, ".tgz"@) || ends_with(lower, ".tar.gz"@)
}

/// Whether a path names an npm tarball.
pub fn is_npm_tarball_path(path: &[char]) -> (b: bool)
    ensures
        b == npm_tarball_path(path@),
{
    let mut i: usize = 0;
    while i < path.len() && path[i] != '?' && path[i] != '#'
        invariant
            i <= path@.len(),
            query_start_from(path@, 0) == query_start_from(path@, i as nat),
        decreases path.len() - i,
    {
        i = i + 1;
    }
    let head = slice_of(path, 0, i);
    assert(head@ =~= path@.take(i as int));
    let lower = lower_chars(head.as_slice());
    let tgz = chars_of(".tgz");
    let targz = chars_of(".tar.gz");
    ends_with_chars(lower.as_slice(), tgz.as_slice()) || ends_with_chars(
        lower.as_slice(),
        targz.as_slice(),
    )
}

/// The message of a direct dependency that is not a tarball.
pub open spec fn not_tarball_message(path: Seq<char>) -> Seq<char> {
    "direct npm dependency `"@ + path + "` must be a .tgz or .tar.gz archive"@
}

/// Accepts a tarball path; refuses any other.
pub fn require_npm_tarball_path(path: &[char]) -> (r: Result<(), OmcRegistryError>)
    ensures
        r is Ok <==> npm_tarball_path(path@),
        r matches Err(e) ==> e matches OmcRegistryError::UnsupportedSpec(m) && m@ == not_tarball_message(
            path@,
        ),
{
    if is_npm_tarball_path(path) {
        return Ok(());
    }
    Err(
        OmcRegistryError::UnsupportedSpec(
            message_with("direct npm dependency `", path, "` must be a .tgz or .tar.gz archive"),
        ),
    )
}

/// A reference written as a local path: `.`, or starting with `./`, `../`,
/// `/` or `~/`, or holding a backslash.
pub open spec fn explicit_local_path(v: Seq<char>) -> bool {
    v == "."@ || starts_with(v, "./"@) || starts_with(v, "../"@) || starts_with(v, "/"@)
        || starts_with(v, "~/"@) || v.contains('\\')
}

/// Whether a reference is written as a local path.
pub fn is_explicit_local_path(value: &[char]) -> (b: bool)
    ensures
        b == explicit_local_path(value@),
{
    let dot = chars_of(".");
    let here = chars_of("./");
    let up = chars_of("../");
    let root = chars_of("/");
    let home = chars_of("~/");
    eq_chars(value, dot.as_slice()) || starts_with_chars(value, here.as_slice()) || starts_with_chars(
        value,
        up.as_slice(),
    ) || starts_with_chars(value, root.as_slice()) || starts_with_chars(value, home.as_slice())
        || crate::text::has_char(value, '\\')
}

} // verus!
