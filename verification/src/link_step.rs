//! What linking a package decides once its archive is profiled and
//! verified: its verdict and behavior, how its dependencies are recorded,
//! and whether a blocked package is refused.
use vstd::prelude::*;
use crate::entry_source::Ecosystem;
use crate::error::OmcRegistryError;
use crate::policy_guidance::{guidance, render_block_guidance, seqs_of_strings};
use crate::text::{chars_of, string_from_chars};

verus! {

/// A dependency of a linked package: its text as requested, and whether it
/// is optional or a peer.
pub struct LinkedDependency {
    pub requested: String,
    pub optional: bool,
    pub peer: bool,
}

/// What a link records of a package: whether it is accepted, whether its
/// behavior is pure (it uses no host capability), and its plain, optional
/// and peer dependencies, in order.
pub struct LinkOutcome {
    pub accepted: bool,
    pub pure_behavior: bool,
    pub dependencies: Vec<String>,
    pub optional_dependencies: Vec<String>,
    pub peer_dependencies: Vec<String>,
}

/// The texts of the dependencies whose kind `kind` picks: 0 plain
/// (neither optional nor peer), 1 optional, 2 peer.
pub open spec fn dependencies_of_kind(ds: Seq<LinkedDependency>, kind: int) -> Seq<Seq<char>>
    decreases ds.len(),
{
    if ds.len() == 0 {
        Seq::empty()
    } else {
        let d = ds.last();
        let before = dependencies_of_kind(ds.drop_last(), kind);
        let picked = if kind == 0 {
            !d.optional && !d.peer
        } else if kind == 1 {
            d.optional
        } else {
            d.peer
        };
        if picked {
            before.push(d.requested@)
        } else {
            before
        }
    }
}

pub open spec fn texts(v: Seq<String>) -> Seq<Seq<char>> {
    Seq::new(v.len(), |i: int| v[i]@)
}

fn dependencies_picked(ds: &Vec<LinkedDependency>, kind: u8) -> (r: Vec<String>)
    requires
        kind <= 2,
    ensures
        texts(r@) == dependencies_of_kind(ds@, kind as int),
{
    let mut out: Vec<String> = Vec::new();
    let mut i: usize = 0;
    while i < ds.len()
        invariant
            i <= ds@.len(),
            kind <= 2,
            texts(out@) == dependencies_of_kind(ds@.take(i as int), kind as int),
        decreases ds.len() - i,
    {
        proof {
            assert(ds@.take(i + 1).drop_last() =~= ds@.take(i as int));
            assert(ds@.take(i + 1).last() == ds@[i as int]);
        }
        let d = &ds[i];
        let picked = if kind == 0 {
            !d.optional && !d.peer
        } else if kind == 1 {
            d.optional
        } else {
            d.peer
        };
        if picked {
            let t = string_from_chars(chars_of(d.requested.as_str()).as_slice());
            let ghost before = out@;
            out.push(t);
            proof {
                assert(texts(out@) =~= texts(before).push(d.requested@));
            }
        }
        i = i + 1;
    }
    assert(ds@.take(ds@.len() as int) =~= ds@);
    out
}

/// The link of a package requested as `requested`, whose verification
/// gave `findings` and whose profile found capabilities or not: it is
/// accepted when there are no findings and pure when it uses no
/// capability; its dependencies are recorded by kind.  A blocked package
/// is refused with `BlockedPackage`, the request and the guidance for its
/// findings, unless blocked packages are to be recorded.
pub fn link_outcome(
    requested: &str,
    ecosystem: Ecosystem,
    name: &str,
    version: &str,
    findings: &Vec<String>,
    uses_capabilities: bool,
    dependencies: &Vec<LinkedDependency>,
    record_blocked: bool,
) -> (r: Result<LinkOutcome, OmcRegistryError>)
    ensures
        findings@.len() > 0 && !record_blocked ==> (r matches Err(
            OmcRegistryError::BlockedPackage { spec, guidance: Some(g) },
        ) && spec@ == requested@ && g@ == guidance(
            ecosystem,
            name@,
            version@,
            seqs_of_strings(findings@),
        )),
        !(findings@.len() > 0 && !record_blocked) ==> (r matches Ok(o) && o.accepted == (findings@.len()
            == 0) && o.pure_behavior == !uses_capabilities && texts(o.dependencies@)
            == dependencies_of_kind(dependencies@, 0) && texts(o.optional_dependencies@)
            == dependencies_of_kind(dependencies@, 1) && texts(o.peer_dependencies@)
            == dependencies_of_kind(dependencies@, 2)),
{
    if findings.len() > 0 && !record_blocked {
        return Err(
            OmcRegistryError::BlockedPackage {
                spec: string_from_chars(chars_of(requested).as_slice()),
                guidance: Some(render_block_guidance(ecosystem, name, version, findings)),
            },
        );
    }
    Ok(
        LinkOutcome {
            accepted: findings.len() == 0,
            pure_behavior: !uses_capabilities,
            dependencies: dependencies_picked(dependencies, 0),
            optional_dependencies: dependencies_picked(dependencies, 1),
            peer_dependencies: dependencies_picked(dependencies, 2),
        },
    )
}

/// Whether a resolved package is linked: a compatible one is; an
/// incompatible optional dependency is passed over; any other incompatible
/// package is refused with `UnsupportedSpec` naming the request.
pub fn platform_gate(requested: &str, platform_compatible: bool, optional_dependency: bool) -> (r: Result<
    bool,
    OmcRegistryError,
>)
    ensures
        platform_compatible ==> r == Ok::<bool, OmcRegistryError>(true),
        !platform_compatible && optional_dependency ==> r == Ok::<bool, OmcRegistryError>(false),
        !platform_compatible && !optional_dependency ==> (r matches Err(
            OmcRegistryError::UnsupportedSpec(m),
        ) && m@ == requested@ + " is not compatible with this platform"@),
{
    if platform_compatible {
        Ok(true)
    } else if optional_dependency {
        Ok(false)
    } else {
        proof {
            reveal_strlit("");
            assert(""@ + requested@ =~= requested@);
        }
        Err(
            OmcRegistryError::UnsupportedSpec(
                crate::npm_arguments::message("", chars_of(requested).as_slice(), " is not compatible with this platform"),
            ),
        )
    }
}

} // verus!
