//! Locating the entry source file of a locked package among the text files
//! of its archive.
use vstd::prelude::*;
use crate::error::OmcRegistryError;
use crate::set_map::PinMap;
use crate::npm_arguments::message;
use crate::text::{
    chars_of, concat_chars, eq_chars, lower_chars, lower_seq, string_from_chars, trim, trim_chars, trim_end_char, trim_end_matches_char,
    trim_start_pattern, trim_start_pattern_chars,
};

verus! {

// ---------------------------------------------------------------------------
// Packages
// ---------------------------------------------------------------------------

/// The package ecosystems.
#[derive(Clone, Copy, Debug, PartialEq, Eq, Structural)]
pub enum Ecosystem {
    Npm,
    Pypi,
}

/// The name of an ecosystem.
pub open spec fn ecosystem_name(e: Ecosystem) -> Seq<char> {
    match e {
        Ecosystem::Npm => "npm"@,
        Ecosystem::Pypi => "pypi"@,
    }
}

impl Ecosystem {
    /// The ecosystem's name, as used in package keys.
    pub fn as_str(&self) -> (s: &'static str)
        ensures
            s@ == ecosystem_name(*self),
    {
        match self {
            Ecosystem::Npm => "npm",
            Ecosystem::Pypi => "pypi",
        }
    }
}

/// A requested package as the lock's dependency lists hold it once read:
/// the ecosystem, the name (normalized for PyPI), the version requirement,
/// the extras in ascending order and the direct URL, if any.
pub struct PackageSpec {
    pub ecosystem: Ecosystem,
    pub name: String,
    pub version: Option<String>,
    pub extras: Vec<String>,
    pub direct_url: Option<String>,
}

/// A locked package: what identifies it, where its archive came from, the
/// sha256 the lock records for the archive, whether its verdict is
/// `Accepted`, and the packages it depends on.
pub struct LockedPackage {
    pub ecosystem: Ecosystem,
    pub name: String,
    pub version: String,
    pub source_url: String,
    pub sha256: String,
    pub accepted: bool,
    pub dependencies: Vec<PackageSpec>,
}

/// The key of a locked package: `ecosystem:name@version`.
pub open spec fn package_key(e: Ecosystem, name: Seq<char>, version: Seq<char>) -> Seq<char> {
    ecosystem_name(e) + ":"@ + name + "@"@ + version
}

/// The key `ecosystem:name@version` of a locked package.
pub fn locked_package_key(package: &LockedPackage) -> (k: String)
    ensures
        k@ == package_key(package.ecosystem, package.name@, package.version@),
{
    let e = chars_of(package.ecosystem.as_str());
    let colon = chars_of(":");
    let at = chars_of("@");
    let name = chars_of(package.name.as_str());
    let version = chars_of(package.version.as_str());
    let a = concat_chars(e.as_slice(), colon.as_slice());
    let b = concat_chars(a.as_slice(), name.as_slice());
    let c = concat_chars(b.as_slice(), at.as_slice());
    let d = concat_chars(c.as_slice(), version.as_slice());
    string_from_chars(d.as_slice())
}

/// The entry source of a locked package.
pub struct LockedEntrySource {
    pub module_id: String,
    pub ecosystem: Ecosystem,
    pub name: String,
    pub version: String,
    pub source: String,
}

// ---------------------------------------------------------------------------
// package.json
// ---------------------------------------------------------------------------

/// The string value of the top-level field `field` of a JSON document, as
/// `serde_json` reads it.
pub uninterp spec fn json_string_field(raw: Seq<char>, field: Seq<char>) -> Option<Seq<char>>;

/// Reads the top-level string field `field` of a JSON text with
/// `serde_json::from_str::<serde_json::Value>`.  The contract names the
/// result: `None` when the text is not JSON, is not an object, lacks the
/// field or holds a non-string there.
#[verifier::external_body]
fn json_field_text(raw: &str, field: &str) -> (r: Option<String>)
    ensures
        r matches Some(s) ==> json_string_field(raw@, field@) == Some(s@),
        r is None ==> json_string_field(raw@, field@) is None,
{
    let value: serde_json::Value = serde_json::from_str(raw).ok()?;
    value.get(field)?.as_str().map(String::from)
}

// ---------------------------------------------------------------------------
// Entry files
// ---------------------------------------------------------------------------

/// `path` with its leading `./` removed and each `\` replaced by `/`.
pub open spec fn archive_rel_path(path: Seq<char>) -> Seq<char> {
    let t = trim_start_pattern(path, "./"@);
    Seq::new(t.len(), |i: int| if t[i] == '\\' { '/' } else { t[i] })
}

/// Normalizes an archive-relative path.
pub fn normalize_archive_rel_path(path: &[char]) -> (out: Vec<char>)
    ensures
        out@ == archive_rel_path(path@),
{
    let dot = chars_of("./");
    let t = trim_start_pattern_chars(path, dot.as_slice());
    let mut out: Vec<char> = Vec::new();
    let mut i: usize = 0;
    while i < t.len()
        invariant
            i <= t@.len(),
            out@.len() == i,
            forall|k: int| 0 <= k < i ==> #[trigger] out@[k] == (if t@[k] == '\\' { '/' } else { t@[k] }),
        decreases t.len() - i,
    {
        if t[i] == '\\' {
            out.push('/');
        } else {
            out.push(t[i]);
        }
        i = i + 1;
    }
    assert(out@ =~= archive_rel_path(path@));
    out
}

/// The first candidate present among the files, with its text.
pub open spec fn first_present(files: Map<Seq<char>, Seq<char>>, candidates: Seq<Seq<char>>) -> Option<
    Seq<char>,
>
    decreases candidates.len(),
{
    if candidates.len() == 0 {
        None
    } else if files.contains_key(candidates[0]) {
        Some(files[candidates[0]])
    } else {
        first_present(files, candidates.drop_first())
    }
}

/// The `main` file named by `package.json`, `index.js` when there is none or
/// it is blank.
pub open spec fn npm_main(files: Map<Seq<char>, Seq<char>>) -> Seq<char> {
    let declared = if files.contains_key("package.json"@) {
        json_string_field(files["package.json"@], "main"@)
    } else {
        None
    };
    match declared {
        Some(m) => if trim(m).len() > 0 {
            m
        } else {
            "index.js"@
        },
        None => "index.js"@,
    }
}

/// The files tried for an npm package, in order.
pub open spec fn npm_candidates(files: Map<Seq<char>, Seq<char>>) -> Seq<Seq<char>> {
    let main = archive_rel_path(npm_main(files));
    let base = trim_end_char(main, '/');
    seq![main, base + ".js"@, base + "/index.js"@, "index.js"@]
}

/// The import name of a PyPI package: its name with `-` replaced by `_`.
pub open spec fn module_name(name: Seq<char>) -> Seq<char> {
    Seq::new(name.len(), |i: int| if name[i] == '-' { '_' } else { name[i] })
}

/// The files tried for a PyPI package, in order.
pub open spec fn pypi_candidates(name: Seq<char>) -> Seq<Seq<char>> {
    let m = module_name(name);
    seq![m + "/__init__.py"@, m + ".py"@, "src/"@ + m + "/__init__.py"@, "src/"@ + m + ".py"@]
}

fn first_present_file(files: &PinMap, candidates: &Vec<Vec<char>>) -> (r: Option<String>)
    requires
        files.wf(),
    ensures
        opt_text(r) == first_present(files.view(), crate::text::seqs_of(candidates@)),
{
    let ghost all = crate::text::seqs_of(candidates@);
    let mut i: usize = 0;
    assert(all.skip(0) =~= all);
    while i < candidates.len()
        invariant
            files.wf(),
            all == crate::text::seqs_of(candidates@),
            i <= candidates@.len(),
            first_present(files.view(), all) == first_present(files.view(), all.skip(i as int)),
        decreases candidates.len() - i,
    {
        proof {
            assert(all.skip(i as int)[0] == candidates@[i as int]@);
            assert(all.skip(i as int).drop_first() =~= all.skip(i + 1));
        }
        match files.get(candidates[i].as_slice()) {
            Some(text) => {
                return Some(string_from_chars(text.as_slice()));
            },
            None => {},
        }
        i = i + 1;
    }
    None
}

pub open spec fn opt_text(o: Option<String>) -> Option<Seq<char>> {
    match o {
        Some(s) => Some(s@),
        None => None,
    }
}

/// The npm entry source: the file named by `package.json`'s `main` (or
/// `index.js`), tried as given, with `.js`, as a directory with
/// `index.js`, and finally `index.js` itself.
pub fn locate_npm_entry_source(files: &PinMap) -> (r: Option<String>)
    requires
        files.wf(),
    ensures
        opt_text(r) == first_present(files.view(), npm_candidates(files.view())),
{
    let package_json = chars_of("package.json");
    let declared = match files.get(package_json.as_slice()) {
        Some(raw) => {
            let raw_text = string_from_chars(raw.as_slice());
            json_field_text(raw_text.as_str(), "main")
        },
        None => None,
    };
    let main = match declared {
        Some(m) => {
            let mc = chars_of(m.as_str());
            let t = trim_chars(mc.as_slice());
            if t.len() > 0 {
                mc
            } else {
                chars_of("index.js")
            }
        },
        None => chars_of("index.js"),
    };
    assert(main@ == npm_main(files.view()));
    let normalized = normalize_archive_rel_path(main.as_slice());
    let base = trim_end_matches_char(normalized.as_slice(), '/');
    let js = chars_of(".js");
    let index = chars_of("/index.js");
    let mut candidates: Vec<Vec<char>> = Vec::new();
    candidates.push(normalized);
    candidates.push(concat_chars(base.as_slice(), js.as_slice()));
    candidates.push(concat_chars(base.as_slice(), index.as_slice()));
    candidates.push(chars_of("index.js"));
    assert(crate::text::seqs_of(candidates@) =~= npm_candidates(files.view()));
    first_present_file(files, &candidates)
}

/// The PyPI entry source: the package's top-level module, as a package
/// (`name/__init__.py`) or a single module (`name.py`), at the archive root
/// or under `src/`.
pub fn locate_pypi_entry_source(name: &str, files: &PinMap) -> (r: Option<String>)
    requires
        files.wf(),
    ensures
        opt_text(r) == first_present(files.view(), pypi_candidates(name@)),
{
    let n = chars_of(name);
    let mut module: Vec<char> = Vec::new();
    let mut i: usize = 0;
    while i < n.len()
        invariant
            i <= n@.len(),
            n@ == name@,
            module@.len() == i,
            forall|k: int| 0 <= k < i ==> #[trigger] module@[k] == (if n@[k] == '-' { '_' } else { n@[k] }),
        decreases n.len() - i,
    {
        if n[i] == '-' {
            module.push('_');
        } else {
            module.push(n[i]);
        }
        i = i + 1;
    }
    assert(module@ =~= module_name(name@));
    let init = chars_of("/__init__.py");
    let py = chars_of(".py");
    let src = chars_of("src/");
    let src_module = concat_chars(src.as_slice(), module.as_slice());
    let mut candidates: Vec<Vec<char>> = Vec::new();
    candidates.push(concat_chars(module.as_slice(), init.as_slice()));
    candidates.push(concat_chars(module.as_slice(), py.as_slice()));
    candidates.push(concat_chars(src_module.as_slice(), init.as_slice()));
    candidates.push(concat_chars(src_module.as_slice(), py.as_slice()));
    assert(crate::text::seqs_of(candidates@) =~= pypi_candidates(name@));
    first_present_file(files, &candidates)
}

// ---------------------------------------------------------------------------
// Archive digests
// ---------------------------------------------------------------------------

/// What `sha2::Sha256` computes of some bytes.
pub uninterp spec fn sha256_digest(bytes: Seq<u8>) -> Seq<u8>;

/// Hashes bytes with `sha2::Sha256` through `Digest::digest`.  The contract
/// names the result and states its documented size of 32 bytes.
#[verifier::external_body]
pub(crate) fn sha256_of(bytes: &[u8]) -> (r: Vec<u8>)
    ensures
        r@ == sha256_digest(bytes@),
        r@.len() == 32,
{
    <sha2::Sha256 as sha2::Digest>::digest(bytes).to_vec()
}

/// The lower-case hexadecimal digits.
pub open spec fn hex_digits() -> Seq<char> {
    "0123456789abcdef"@
}

/// Bytes written as lower-case hexadecimal, two digits a byte.
pub open spec fn hex_lower(bytes: Seq<u8>) -> Seq<char>
    decreases bytes.len(),
{
    if bytes.len() == 0 {
        Seq::empty()
    } else {
        let b = bytes.last();
        hex_lower(bytes.drop_last()) + seq![hex_digits()[(b / 16) as int], hex_digits()[(b % 16) as int]]
    }
}

/// Writes bytes as lower-case hexadecimal.
pub fn hex_text(bytes: &[u8]) -> (r: String)
    ensures
        r@ == hex_lower(bytes@),
{
    let digits = chars_of("0123456789abcdef");
    proof {
        reveal_strlit("0123456789abcdef");
    }
    assert(digits@ =~= hex_digits());
    assert(digits@.len() == 16);
    let mut out: Vec<char> = Vec::new();
    let mut i: usize = 0;
    while i < bytes.len()
        invariant
            i <= bytes@.len(),
            digits@ == hex_digits(),
            digits@.len() == 16,
            out@ == hex_lower(bytes@.take(i as int)),
        decreases bytes.len() - i,
    {
        let b = bytes[i];
        out.push(digits[(b / 16) as usize]);
        out.push(digits[(b % 16) as usize]);
        proof {
            assert(bytes@.take(i + 1).drop_last() =~= bytes@.take(i as int));
            assert(bytes@.take(i + 1).last() == b);
        }
        i = i + 1;
    }
    assert(bytes@.take(bytes@.len() as int) =~= bytes@);
    string_from_chars(out.as_slice())
}

/// The sha256 of an archive as the lock records it: lower-case hex.
pub open spec fn archive_sha256(archive: Seq<u8>) -> Seq<char> {
    hex_lower(sha256_digest(archive))
}

/// The archive matches the lock's sha256, letter case aside.
pub open spec fn digest_matches(package: LockedPackage, archive: Seq<u8>) -> bool {
    lower_seq(package.sha256@) == lower_seq(archive_sha256(archive))
}

/// The archive of a locked package against the sha256 the lock records for
/// it (letter case aside): refused with `DigestMismatch`, naming the
/// package and both digests as `sha256:` and the hex, when they differ.
pub fn check_locked_archive_digest(package: &LockedPackage, archive: &[u8]) -> (r: Result<
    (),
    OmcRegistryError,
>)
    ensures
        digest_matches(*package, archive@) ==> r is Ok,
        !digest_matches(*package, archive@) ==> (r matches Err(
            OmcRegistryError::DigestMismatch { name, expected, actual },
        ) && name@ == package.name@ && expected@ == "sha256:"@ + package.sha256@ && actual@
            == "sha256:"@ + archive_sha256(archive@)),
{
    let digest = sha256_of(archive);
    let actual = hex_text(digest.as_slice());
    let e = lower_chars(chars_of(package.sha256.as_str()).as_slice());
    let a = lower_chars(chars_of(actual.as_str()).as_slice());
    proof {
        reveal_strlit("");
    }
    if eq_chars(e.as_slice(), a.as_slice()) {
        Ok(())
    } else {
        Err(
            OmcRegistryError::DigestMismatch {
                name: package.name.clone(),
                expected: message("sha256:", chars_of(package.sha256.as_str()).as_slice(), ""),
                actual: message("sha256:", chars_of(actual.as_str()).as_slice(), ""),
            },
        )
    }
}

/// The entry source file of a locked package, read from its archive
/// `archive`, whose text files are `files` (paths inside the package,
/// mapped to their text).  The archive is first held to the lock's sha256
/// and refused with `DigestMismatch` when it differs; then the entry is
/// located, refused with `MissingEntrySource` and the package key when no
/// candidate file is present.
pub fn read_locked_package_entry_source(package: &LockedPackage, archive: &[u8], files: &PinMap) -> (r: Result<
    LockedEntrySource,
    OmcRegistryError,
>)
    requires
        files.wf(),
    ensures
        !digest_matches(*package, archive@) ==> (r matches Err(
            OmcRegistryError::DigestMismatch { name, expected, actual },
        ) && name@ == package.name@ && expected@ == "sha256:"@ + package.sha256@ && actual@
            == "sha256:"@ + archive_sha256(archive@)),
        digest_matches(*package, archive@) ==> ({
            let found = match package.ecosystem {
                Ecosystem::Npm => first_present(files.view(), npm_candidates(files.view())),
                Ecosystem::Pypi => first_present(files.view(), pypi_candidates(package.name@)),
            };
            let key = package_key(package.ecosystem, package.name@, package.version@);
            match found {
                Some(text) => r matches Ok(s) && s.module_id@ == key && s.ecosystem == package.ecosystem
                    && s.name@ == package.name@ && s.version@ == package.version@ && s.source@ == text,
                None => r matches Err(OmcRegistryError::MissingEntrySource(k)) && k@ == key,
            }
        }),
{
    match check_locked_archive_digest(package, archive) {
        Ok(()) => {},
        Err(e) => {
            return Err(e);
        },
    }
    let source = match package.ecosystem {
        Ecosystem::Npm => locate_npm_entry_source(files),
        Ecosystem::Pypi => locate_pypi_entry_source(package.name.as_str(), files),
    };
    match source {
        Some(text) => Ok(
            LockedEntrySource {
                module_id: locked_package_key(package),
                ecosystem: package.ecosystem,
                name: package.name.clone(),
                version: package.version.clone(),
                source: text,
            },
        ),
        None => Err(OmcRegistryError::MissingEntrySource(locked_package_key(package))),
    }
}

} // verus!
