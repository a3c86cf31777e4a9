//! What compiling a project's local sources decides around each compile:
//! which sources are compiled, when a blocked source is refused, and which
//! artifact a compiled source is recorded with.
use vstd::prelude::*;
use crate::entry_source::{locked_package_key, package_key, Ecosystem};
use crate::error::OmcRegistryError;
use crate::npm_arguments::message;
use crate::policy_guidance::{guidance, render_block_guidance, seqs_of_strings};
use crate::project_lock::{distinct_requested_roots, requested_covered};
use crate::text::{chars_of, concat_chars, string_from_chars};

verus! {

/// A local source to compile: the package it is and the path of its
/// source.
pub struct LocalSourceInput {
    pub ecosystem: Ecosystem,
    pub name: String,
    pub version: String,
    pub source_path: String,
}

/// The key `ecosystem:name@version` of a local source's package.
pub open spec fn input_package_key(i: LocalSourceInput) -> Seq<char> {
    package_key(i.ecosystem, i.name@, i.version@)
}

/// The key of a local source: its package key, `:` and its path.
pub open spec fn local_source_key(i: LocalSourceInput) -> Seq<char> {
    input_package_key(i) + ":"@ + i.source_path@
}

fn package_key_of(i: &LocalSourceInput) -> (r: String)
    ensures
        r@ == input_package_key(*i),
{
    let p = crate::entry_source::LockedPackage {
        ecosystem: i.ecosystem,
        name: string_from_chars(chars_of(i.name.as_str()).as_slice()),
        version: string_from_chars(chars_of(i.version.as_str()).as_slice()),
        source_url: String::new(),
        sha256: String::new(),
        accepted: true,
        dependencies: Vec::new(),
    };
    locked_package_key(&p)
}

/// The key of a local source.
pub fn local_source_key_text(i: &LocalSourceInput) -> (r: String)
    ensures
        r@ == local_source_key(*i),
{
    let k = package_key_of(i);
    let a = concat_chars(chars_of(k.as_str()).as_slice(), chars_of(":").as_slice());
    string_from_chars(concat_chars(a.as_slice(), chars_of(i.source_path.as_str()).as_slice()).as_slice())
}

/// The source `k` has the key of some compiled source.
pub open spec fn source_covered(inputs: Seq<LocalSourceInput>, chosen: Seq<usize>, k: int) -> bool {
    exists|i: int| 0 <= i < chosen.len() && #[trigger] local_source_key(inputs[chosen[i] as int]) == local_source_key(inputs[k])
}

/// The local sources that are compiled: the first of each key, in order;
/// a source whose key came before is passed over.
pub fn local_sources_to_compile(inputs: &Vec<LocalSourceInput>) -> (r: Vec<usize>)
    ensures
        forall|i: int| 0 <= i < r@.len() ==> r@[i] < inputs@.len(),
        forall|i: int, j: int| 0 <= i < j < r@.len() ==> r@[i] < r@[j],
        forall|i: int, k: int|
            #![trigger inputs@[k], r@[i]]
            0 <= i < r@.len() && 0 <= k < r@[i] ==> local_source_key(inputs@[k]) != local_source_key(
                inputs@[r@[i] as int],
            ),
        forall|k: int| 0 <= k < inputs@.len() ==> #[trigger] source_covered(inputs@, r@, k),
{
    let mut keys: Vec<String> = Vec::new();
    let mut n: usize = 0;
    while n < inputs.len()
        invariant
            n <= inputs@.len(),
            keys@.len() == n,
            forall|j: int| 0 <= j < n ==> #[trigger] keys@[j]@ == local_source_key(inputs@[j]),
        decreases inputs.len() - n,
    {
        let k = local_source_key_text(&inputs[n]);
        keys.push(k);
        n = n + 1;
    }
    let r = distinct_requested_roots(&keys);
    proof {
        assert forall|i: int, k: int|
            #![trigger inputs@[k], r@[i]]
            0 <= i < r@.len() && 0 <= k < r@[i] implies local_source_key(inputs@[k]) != local_source_key(
                inputs@[r@[i] as int],
            ) by {
            assert(keys@[k]@ != keys@[r@[i] as int]@);
        }
        assert forall|k: int| 0 <= k < inputs@.len() implies #[trigger] source_covered(inputs@, r@, k) by {
            assert(requested_covered(keys@, r@, k));
            let i = choose|i: int| 0 <= i < r@.len() && #[trigger] keys@[r@[i] as int]@ == keys@[k]@;
            assert(local_source_key(inputs@[r@[i] as int]) == local_source_key(inputs@[k]));
        }
    }
    r
}

/// A compiled local source whose verdict is blocked is refused with
/// `BlockedPackage`, naming the source (`ecosystem:name@version local
/// source `path``) with the guidance for its findings, when local source
/// verdicts are enforced and blocked packages are not to be recorded.
pub fn local_source_gate(
    input: &LocalSourceInput,
    blocked: bool,
    findings: &Vec<String>,
    enforce_verdicts: bool,
    record_blocked: bool,
) -> (r: Result<(), OmcRegistryError>)
    ensures
        blocked && enforce_verdicts && !record_blocked ==> (r matches Err(
            OmcRegistryError::BlockedPackage { spec, guidance: Some(g) },
        ) && spec@ == input_package_key(*input) + " local source `"@ + input.source_path@ + "`"@
            && g@ == guidance(input.ecosystem, input.name@, input.version@, seqs_of_strings(findings@))),
        !(blocked && enforce_verdicts && !record_blocked) ==> r is Ok,
{
    if blocked && enforce_verdicts && !record_blocked {
        let k = package_key_of(input);
        let head = concat_chars(chars_of(k.as_str()).as_slice(), chars_of(" local source `").as_slice());
        let spec = message("", concat_chars(head.as_slice(), chars_of(input.source_path.as_str()).as_slice()).as_slice(), "`");
        proof {
            reveal_strlit("");
        }
        return Err(
            OmcRegistryError::BlockedPackage {
                spec,
                guidance: Some(render_block_guidance(input.ecosystem, input.name.as_str(), input.version.as_str(), findings)),
            },
        );
    }
    Ok(())
}

/// The artifact a compiled local source is recorded with: under a locked
/// install, the package's artifact path in the project (`locked_path`);
/// otherwise the artifact the compile stored, refused with
/// `UnsupportedInstallArtifact` when it stored none.
pub fn local_source_artifact(
    input: &LocalSourceInput,
    locked: bool,
    locked_path: &str,
    stored: Option<&str>,
) -> (r: Result<String, OmcRegistryError>)
    ensures
        locked ==> (r matches Ok(p) && p@ == locked_path@),
        !locked ==> match stored {
            Some(s) => r matches Ok(p) && p@ == s@,
            None => r matches Err(OmcRegistryError::UnsupportedInstallArtifact(m)) && m@
                == "local source artifact for "@ + input_package_key(*input) + " was not stored"@,
        },
{
    if locked {
        return Ok(string_from_chars(chars_of(locked_path).as_slice()));
    }
    match stored {
        Some(s) => Ok(string_from_chars(chars_of(s).as_slice())),
        None => {
            let k = package_key_of(input);
            Err(
                OmcRegistryError::UnsupportedInstallArtifact(
                    message("local source artifact for ", chars_of(k.as_str()).as_slice(), " was not stored"),
                ),
            )
        },
    }
}

} // verus!
