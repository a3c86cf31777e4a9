//! How downloaded artifacts and registry metadata are kept: archive kinds
//! and the freshness window of cached metadata.
use vstd::prelude::*;
use crate::npm_semver::{parse_u64_text, u64_text};
use crate::text::{chars_of, ends_with, ends_with_chars, trim, trim_chars};

verus! {

/// The extension an archive is cached under: `tgz` for `.tar.gz` and
/// `.tgz`, `whl`, `zip`, else `archive`.
pub open spec fn archive_kind(filename: Seq<char>) -> Seq<char> {
    if ends_with(filename, ".tar.gz"@) || ends_with(filename, ".tgz"@) {
        "tgz"@
    } else if ends_with(filename, ".whl"@) {
        "whl"@
    } else if ends_with(filename, ".zip"@) {
        "zip"@
    } else {
        "archive"@
    }
}

pub fn archive_extension(filename: &str) -> (r: &'static str)
    ensures
        r@ == archive_kind(filename@),
{
    let c = chars_of(filename);
    if ends_with_chars(c.as_slice(), chars_of(".tar.gz").as_slice()) || ends_with_chars(
        c.as_slice(),
        chars_of(".tgz").as_slice(),
    ) {
        "tgz"
    } else if ends_with_chars(c.as_slice(), chars_of(".whl").as_slice()) {
        "whl"
    } else if ends_with_chars(c.as_slice(), chars_of(".zip").as_slice()) {
        "zip"
    } else {
        "archive"
    }
}

/// How long a cached packument stays fresh, in seconds, given the
/// `OMC_META_TTL_SECS` setting: 600 without one or where it is not a number,
/// none (no caching) where it is 0, else the number.
pub open spec fn metadata_ttl(setting: Option<Seq<char>>) -> Option<u64> {
    match setting {
        None => Some(600),
        Some(raw) => match u64_text(trim(raw)) {
            Some(n) => if n == 0 {
                None
            } else {
                Some(n)
            },
            None => Some(600),
        },
    }
}

pub fn metadata_cache_ttl(setting: Option<&str>) -> (r: Option<u64>)
    ensures
        r == metadata_ttl(match setting {
            Some(s) => Some(s@),
            None => None,
        }),
{
    match setting {
        None => Some(600),
        Some(raw) => {
            let t = trim_chars(chars_of(raw).as_slice());
            match parse_u64_text(t.as_slice()) {
                Some(n) => if n == 0 {
                    None
                } else {
                    Some(n)
                },
                None => Some(600),
            }
        },
    }
}

} // verus!
