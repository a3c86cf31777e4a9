//! What a `pnpm-lock.yaml` locks: the versions its importers depend on, and
//! the packages it resolved with their integrities and tarballs.
use vstd::prelude::*;
use crate::npm_lock::{
    add_to, npm_requirements_from_lock_maps, pinned_constraints, pinned_integrities,
    pinned_resolved, LockMaps, LockMapsView, NpmLockRequirements,
};
use crate::npm_names::{
    pnpm_key_name_version, pnpm_locked_version, pnpm_package_key_name_and_version, pnpm_version,
};
use crate::text::{chars_of, starts_with, starts_with_chars, string_from_chars, trim, trim_chars};

verus! {

/// How an importer names the version of a dependency: by itself, or in a
/// table with a `version`.
#[derive(Debug)]
pub enum PnpmImporterDependency {
    Version(String),
    Detail { version: Option<String> },
}

/// A workspace package's dependencies, each kind by name in key order.
#[derive(Debug)]
pub struct PnpmImporter {
    pub dependencies: Vec<(String, PnpmImporterDependency)>,
    pub dev_dependencies: Vec<(String, PnpmImporterDependency)>,
    pub optional_dependencies: Vec<(String, PnpmImporterDependency)>,
}

/// Where a locked package was resolved.
#[derive(Debug)]
pub struct PnpmResolution {
    pub integrity: Option<String>,
    pub tarball: Option<String>,
}

#[derive(Debug)]
pub struct PnpmPackageSnapshot {
    pub resolution: Option<PnpmResolution>,
}

/// A `pnpm-lock.yaml`: its importers by path and its packages by key, in
/// key order.
#[derive(Debug)]
pub struct PnpmLock {
    pub importers: Vec<(String, PnpmImporter)>,
    pub packages: Vec<(String, PnpmPackageSnapshot)>,
}

/// Which kinds of dependencies an install takes besides the regular ones.
#[derive(Clone, Copy, Debug, PartialEq, Eq, Structural)]
pub struct DependencySelection {
    pub dev: bool,
    pub optional: bool,
    pub peer: bool,
}

impl DependencySelection {
    /// Optional and peer dependencies, and development ones as asked.
    pub fn with_dev(dev: bool) -> (r: Self)
        ensures
            r == (DependencySelection { dev, optional: true, peer: true }),
    {
        DependencySelection { dev, optional: true, peer: true }
    }
}

/// The version an importer's dependency is locked to.
pub open spec fn locked_version(d: PnpmImporterDependency) -> Option<Seq<char>> {
    match d {
        PnpmImporterDependency::Version(v) => Some(v@),
        PnpmImporterDependency::Detail { version } => match version {
            Some(v) => Some(v@),
            None => None,
        },
    }
}

impl PnpmImporterDependency {
    pub fn locked_version(&self) -> (r: Option<&str>)
        ensures
            match locked_version(*self) {
                Some(v) => r matches Some(s) && s@ == v,
                None => r is None,
            },
    {
        match self {
            PnpmImporterDependency::Version(v) => Some(v.as_str()),
            PnpmImporterDependency::Detail { version } => match version {
                Some(v) => Some(v.as_str()),
                None => None,
            },
        }
    }
}

/// The dependencies collected so far, by name and version, with the lock
/// maps.
pub open spec fn importer_deps(
    acc: (Seq<(Seq<char>, Seq<char>)>, LockMapsView),
    ds: Seq<(String, PnpmImporterDependency)>,
) -> (Seq<(Seq<char>, Seq<char>)>, LockMapsView)
    decreases ds.len(),
{
    if ds.len() == 0 {
        acc
    } else {
        let before = importer_deps(acc, ds.drop_last());
        let (name, d) = ds.last();
        match locked_version(d) {
            None => before,
            Some(raw) => match pnpm_version(raw) {
                None => before,
                Some(v) => (
                    before.0.push((name@, v)),
                    LockMapsView {
                        versions: add_to(before.1.versions, name@, v),
                        integrities: before.1.integrities,
                        resolved: before.1.resolved,
                    },
                ),
            },
        }
    }
}

/// What the importers add, in order: each one's dependencies, then its
/// optional ones where those are selected, then its development ones where
/// those are.
pub open spec fn importers_deps(
    acc: (Seq<(Seq<char>, Seq<char>)>, LockMapsView),
    importers: Seq<(String, PnpmImporter)>,
    optional: bool,
    dev: bool,
) -> (Seq<(Seq<char>, Seq<char>)>, LockMapsView)
    decreases importers.len(),
{
    if importers.len() == 0 {
        acc
    } else {
        let before = importers_deps(acc, importers.drop_last(), optional, dev);
        let imp = importers.last().1;
        let a = importer_deps(before, imp.dependencies@);
        let b = if optional {
            importer_deps(a, imp.optional_dependencies@)
        } else {
            a
        };
        if dev {
            importer_deps(b, imp.dev_dependencies@)
        } else {
            b
        }
    }
}

/// What the packages add, in order: each key that names a package adds its
/// version, its integrity where that is not blank, and its tarball where
/// that is an `https://` URL.
pub open spec fn packages_maps(m: LockMapsView, ps: Seq<(String, PnpmPackageSnapshot)>) -> LockMapsView
    decreases ps.len(),
{
    if ps.len() == 0 {
        m
    } else {
        let before = packages_maps(m, ps.drop_last());
        let (key, p) = ps.last();
        match pnpm_key_name_version(key@) {
            None => before,
            Some((name, v)) => LockMapsView {
                versions: add_to(before.versions, name, v),
                integrities: match p.resolution {
                    Some(r) => match r.integrity {
                        Some(i) => if trim(i@).len() > 0 {
                            add_to(before.integrities, name, i@)
                        } else {
                            before.integrities
                        },
                        None => before.integrities,
                    },
                    None => before.integrities,
                },
                resolved: match p.resolution {
                    Some(r) => match r.tarball {
                        Some(t) => if starts_with(t@, "https://"@) {
                            add_to(before.resolved, name, t@)
                        } else {
                            before.resolved
                        },
                        None => before.resolved,
                    },
                    None => before.resolved,
                },
            },
        }
    }
}

pub open spec fn empty_maps() -> LockMapsView {
    LockMapsView { versions: Map::empty(), integrities: Map::empty(), resolved: Map::empty() }
}

/// What a `pnpm-lock.yaml` locks: the dependencies its importers name (see
/// `importers_deps`), and the lock maps of those and its packages.
pub open spec fn pnpm_lock_contents(lock: PnpmLock, optional: bool, dev: bool) -> (
    Seq<(Seq<char>, Seq<char>)>,
    LockMapsView,
) {
    let (deps, m) = importers_deps((Seq::empty(), empty_maps()), lock.importers@, optional, dev);
    (deps, packages_maps(m, lock.packages@))
}

pub open spec fn pairs_view(v: Seq<(String, String)>) -> Seq<(Seq<char>, Seq<char>)> {
    Seq::new(v.len(), |i: int| (v[i].0@, v[i].1@))
}

/// Adds what an importer's dependencies of one kind lock.
pub fn collect_pnpm_importer_dependencies(
    dependencies: &Vec<(String, PnpmImporterDependency)>,
    specs: &mut Vec<(String, String)>,
    maps: &mut LockMaps,
)
    requires
        old(maps).wf(),
    ensures
        final(maps).wf(),
        (pairs_view(final(specs)@), final(maps).view()) == importer_deps(
            (pairs_view(old(specs)@), old(maps).view()),
            dependencies@,
        ),
{
    let ghost start = (pairs_view(specs@), maps.view());
    let mut i: usize = 0;
    assert(dependencies@.take(0) =~= Seq::<(String, PnpmImporterDependency)>::empty());
    while i < dependencies.len()
        invariant
            i <= dependencies@.len(),
            maps.wf(),
            (pairs_view(specs@), maps.view()) == importer_deps(start, dependencies@.take(i as int)),
        decreases dependencies.len() - i,
    {
        proof {
            let t = dependencies@.take(i + 1);
            assert(t.drop_last() =~= dependencies@.take(i as int));
            assert(t.last() == dependencies@[i as int]);
        }
        match dependencies[i].1.locked_version() {
            None => {},
            Some(raw) => match pnpm_locked_version(raw) {
                None => {},
                Some(v) => {
                    let name = &dependencies[i].0;
                    let nc = chars_of(name.as_str());
                    let ghost before = specs@;
                    specs.push((string_from_chars(nc.as_slice()), string_from_chars(v.as_slice())));
                    maps.versions.add(nc.as_slice(), v.as_slice());
                    proof {
                        assert(pairs_view(specs@) =~= pairs_view(before).push((name@, v@)));
                    }
                },
            },
        }
        i = i + 1;
    }
    assert(dependencies@.take(dependencies@.len() as int) =~= dependencies@);
}

/// The dependencies a `pnpm-lock.yaml`'s importers lock, by name and
/// version in order (optional and development ones where selected), and the
/// lock maps of those and of its packages.
pub fn read_pnpm_lock_maps(lock: &PnpmLock, optional: bool, dev: bool) -> (r: (
    Vec<(String, String)>,
    LockMaps,
))
    ensures
        r.1.wf(),
        (pairs_view(r.0@), r.1.view()) == pnpm_lock_contents(*lock, optional, dev),
{
    let mut specs: Vec<(String, String)> = Vec::new();
    let mut maps = LockMaps::new();
    let ghost start = (pairs_view(specs@), maps.view());
    assert(start == (Seq::<(Seq<char>, Seq<char>)>::empty(), empty_maps())) by {
        assert(pairs_view(specs@) =~= Seq::<(Seq<char>, Seq<char>)>::empty());
    }
    let mut i: usize = 0;
    assert(lock.importers@.take(0) =~= Seq::<(String, PnpmImporter)>::empty());
    while i < lock.importers.len()
        invariant
            i <= lock.importers@.len(),
            maps.wf(),
            (pairs_view(specs@), maps.view()) == importers_deps(
                start,
                lock.importers@.take(i as int),
                optional,
                dev,
            ),
        decreases lock.importers.len() - i,
    {
        proof {
            let t = lock.importers@.take(i + 1);
            assert(t.drop_last() =~= lock.importers@.take(i as int));
            assert(t.last() == lock.importers@[i as int]);
        }
        let imp = &lock.importers[i].1;
        collect_pnpm_importer_dependencies(&imp.dependencies, &mut specs, &mut maps);
        if optional {
            collect_pnpm_importer_dependencies(&imp.optional_dependencies, &mut specs, &mut maps);
        }
        if dev {
            collect_pnpm_importer_dependencies(&imp.dev_dependencies, &mut specs, &mut maps);
        }
        i = i + 1;
    }
    assert(lock.importers@.take(lock.importers@.len() as int) =~= lock.importers@);
    let ghost mid = maps.view();
    let mut j: usize = 0;
    assert(lock.packages@.take(0) =~= Seq::<(String, PnpmPackageSnapshot)>::empty());
    while j < lock.packages.len()
        invariant
            j <= lock.packages@.len(),
            maps.wf(),
            maps.view() == packages_maps(mid, lock.packages@.take(j as int)),
        decreases lock.packages.len() - j,
    {
        proof {
            let t = lock.packages@.take(j + 1);
            assert(t.drop_last() =~= lock.packages@.take(j as int));
            assert(t.last() == lock.packages@[j as int]);
        }
        match pnpm_package_key_name_and_version(lock.packages[j].0.as_str()) {
            None => {},
            Some((name, v)) => {
                maps.versions.add(name.as_slice(), v.as_slice());
                match &lock.packages[j].1.resolution {
                    None => {},
                    Some(r) => {
                        match &r.integrity {
                            Some(i) => {
                                let ic = chars_of(i.as_str());
                                if trim_chars(ic.as_slice()).len() > 0 {
                                    maps.integrities.add(name.as_slice(), ic.as_slice());
                                }
                            },
                            None => {},
                        }
                        match &r.tarball {
                            Some(t) => {
                                let tc = chars_of(t.as_str());
                                let https = chars_of("https://");
                                if starts_with_chars(tc.as_slice(), https.as_slice()) {
                                    maps.resolved.add(name.as_slice(), tc.as_slice());
                                }
                            },
                            None => {},
                        }
                    },
                }
            },
        }
        j = j + 1;
    }
    assert(lock.packages@.take(lock.packages@.len() as int) =~= lock.packages@);
    (specs, maps)
}

/// What a `pnpm-lock.yaml` pins: the dependencies its importers name (see
/// `read_pnpm_lock_maps`, with the kinds the selection takes), and the packages locked to exactly one version,
/// their integrities and their tarball URLs where there is exactly one.
pub fn read_pnpm_lock_requirements(lock: &PnpmLock, selection: DependencySelection) -> (r: (
    Vec<(String, String)>,
    NpmLockRequirements,
))
    ensures
        pairs_view(r.0@) == pnpm_lock_contents(*lock, selection.optional, selection.dev).0,
        r.1.constraints.wf(),
        r.1.npm_integrities.wf(),
        r.1.npm_resolved.wf(),
        r.1.constraints.view() == pinned_constraints(
            pnpm_lock_contents(*lock, selection.optional, selection.dev).1,
        ),
        r.1.npm_integrities.view() == pinned_integrities(
            pnpm_lock_contents(*lock, selection.optional, selection.dev).1,
        ),
        r.1.npm_resolved.view() == pinned_resolved(
            pnpm_lock_contents(*lock, selection.optional, selection.dev).1,
        ),
{
    let (specs, maps) = read_pnpm_lock_maps(lock, selection.optional, selection.dev);
    (specs, npm_requirements_from_lock_maps(&maps))
}

} // verus!
