//! The library's error type.
use vstd::prelude::*;
use crate::text::{chars_of, concat_chars, string_from_chars};

verus! {

/// Why a request was refused.  Each variant carries the text of the refused
/// input or a message naming it.
#[derive(Debug, PartialEq, Eq)]
pub enum OmcRegistryError {
    Usage(String),
    UnsupportedSpec(String),
    UnsupportedRequirement(String),
    PackageNotFound(String),
    BlockedPackage { spec: String, guidance: Option<String> },
    MissingArtifact(String),
    MissingCompatibleWheel(String),
    UnsatisfiedRequirement { name: String, requirement: String },
    BlockedLockedPackage(String),
    LockfileOutOfDate(String),
    UnsupportedInstallArtifact(String),
    UnsafeArchivePath(String),
    MissingEntrySource(String),
    DigestMismatch { name: String, expected: String, actual: String },
}

/// The text shown for an error.
pub open spec fn error_message(e: OmcRegistryError) -> Seq<char> {
    match e {
        OmcRegistryError::Usage(s) => s@,
        OmcRegistryError::UnsupportedSpec(s) => "unsupported package spec `"@ + s@ + "`"@,
        OmcRegistryError::UnsupportedRequirement(s) => "unsupported requirements entry `"@ + s@
            + "`"@,
        OmcRegistryError::PackageNotFound(s) => "package version was not found: "@ + s@,
        OmcRegistryError::BlockedPackage { spec, guidance } => "blocked package `"@ + spec@ + "`"@,
        OmcRegistryError::MissingArtifact(s) =>
            "registry response did not include a downloadable artifact for "@ + s@,
        OmcRegistryError::MissingCompatibleWheel(s) =>
            "registry response did not include a compatible PyPI archive for "@ + s@,
        OmcRegistryError::UnsatisfiedRequirement { name, requirement } =>
            "could not resolve a version for "@ + name@ + " matching `"@ + requirement@ + "`"@,
        OmcRegistryError::BlockedLockedPackage(s) =>
            "install requires an accepted lockfile; blocked package remains: "@ + s@,
        OmcRegistryError::LockfileOutOfDate(s) => "omc.lock does not satisfy `"@ + s@
            + "`; run omc install without --locked to update it"@,
        OmcRegistryError::UnsupportedInstallArtifact(s) =>
            "cannot install unsupported artifact type: "@ + s@,
        OmcRegistryError::UnsafeArchivePath(s) => "archive contains an unsafe path: "@ + s@,
        OmcRegistryError::MissingEntrySource(s) => "could not locate an entry source file for "@
            + s@,
        OmcRegistryError::DigestMismatch { name, expected, actual } =>
            "downloaded artifact digest mismatch for "@ + name@ + ": expected "@ + expected@
                + ", got "@ + actual@,
    }
}

fn joined(parts: &[&str]) -> (s: String)
    ensures
        s@ == joined_view(parts@),
{
    let mut out: Vec<char> = Vec::new();
    let mut i: usize = 0;
    while i < parts.len()
        invariant
            i <= parts@.len(),
            out@ == joined_view(parts@.take(i as int)),
        decreases parts.len() - i,
    {
        let c = chars_of(parts[i]);
        proof {
            assert(parts@.take(i + 1).drop_last() =~= parts@.take(i as int));
        }
        out = concat_chars(out.as_slice(), c.as_slice());
        i = i + 1;
    }
    assert(parts@.take(parts@.len() as int) =~= parts@);
    string_from_chars(out.as_slice())
}

/// The texts concatenated.
pub open spec fn joined_view(parts: Seq<&str>) -> Seq<char>
    decreases parts.len(),
{
    if parts.len() == 0 {
        Seq::empty()
    } else {
        joined_view(parts.drop_last()) + parts.last()@
    }
}

impl OmcRegistryError {
    /// The text shown for this error.
    pub fn message(&self) -> (m: String)
        ensures
            m@ == error_message(*self),
    {
        proof {
            reveal_with_fuel(joined_view, 7);
        }
        match self {
            OmcRegistryError::Usage(s) => s.clone(),
            OmcRegistryError::UnsupportedSpec(s) => {
                let r = joined(&["unsupported package spec `", s.as_str(), "`"]);
                r
            },
            OmcRegistryError::UnsupportedRequirement(s) => joined(
                &["unsupported requirements entry `", s.as_str(), "`"],
            ),
            OmcRegistryError::PackageNotFound(s) => joined(
                &["package version was not found: ", s.as_str()],
            ),
            OmcRegistryError::BlockedPackage { spec, guidance } => joined(
                &["blocked package `", spec.as_str(), "`"],
            ),
            OmcRegistryError::MissingArtifact(s) => joined(
                &["registry response did not include a downloadable artifact for ", s.as_str()],
            ),
            OmcRegistryError::MissingCompatibleWheel(s) => joined(
                &["registry response did not include a compatible PyPI archive for ", s.as_str()],
            ),
            OmcRegistryError::UnsatisfiedRequirement { name, requirement } => joined(
                &[
                    "could not resolve a version for ",
                    name.as_str(),
                    " matching `",
                    requirement.as_str(),
                    "`",
                ],
            ),
            OmcRegistryError::BlockedLockedPackage(s) => joined(
                &["install requires an accepted lockfile; blocked package remains: ", s.as_str()],
            ),
            OmcRegistryError::LockfileOutOfDate(s) => joined(
                &[
                    "omc.lock does not satisfy `",
                    s.as_str(),
                    "`; run omc install without --locked to update it",
                ],
            ),
            OmcRegistryError::UnsupportedInstallArtifact(s) => joined(
                &["cannot install unsupported artifact type: ", s.as_str()],
            ),
            OmcRegistryError::UnsafeArchivePath(s) => joined(
                &["archive contains an unsafe path: ", s.as_str()],
            ),
            OmcRegistryError::MissingEntrySource(s) => joined(
                &["could not locate an entry source file for ", s.as_str()],
            ),
            OmcRegistryError::DigestMismatch { name, expected, actual } => joined(
                &[
                    "downloaded artifact digest mismatch for ",
                    name.as_str(),
                    ": expected ",
                    expected.as_str(),
                    ", got ",
                    actual.as_str(),
                ],
            ),
        }
    }
}

} // verus!
