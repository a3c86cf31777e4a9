//! Reading an npm packument: its versions in SemVer order, the versions a
//! deprecation covers, and the plan of an unpublish.
use vstd::prelude::*;
use std::cmp::Ordering;
use crate::error::OmcRegistryError;
use crate::json::{
    entries_view, field, find_member, lemma_entries_push, lemma_entries_view, lemma_replace_at,
    lemma_view_not_object, lemma_view_object, member, text_field, text_of, with_member,
    without_member, JsonValue, JsonView,
};
use crate::npm_arguments::{fixed, message};
use crate::npm_semver::{compare_npm_versions, fits_at, npm_satisfies, npm_version_order, npm_version_satisfies};
use crate::npm_github::{parse_url, parsed_url};
use crate::text::{
    chars_of, starts_with, starts_with_chars, string_from_chars, suffix_from, trim_start_char,
    trim_start_matches_char,
};

verus! {

// ---------------------------------------------------------------------------
// Version order
// ---------------------------------------------------------------------------

/// `a` sorts strictly before `b` by `compare_npm_versions`.
fn version_before(a: &str, b: &str) -> (r: bool)
    ensures
        r == (npm_version_order(a@, b@) < 0),
        npm_version_order(b@, a@) == -npm_version_order(a@, b@),
        -1 <= npm_version_order(a@, b@) <= 1,
{
    match compare_npm_versions(a, b) {
        Ordering::Less => true,
        Ordering::Equal => false,
        Ordering::Greater => false,
    }
}

/// `x` placed into `s` after every element that it does not sort before.
pub open spec fn insert_by_version(s: Seq<Seq<char>>, x: Seq<char>) -> Seq<Seq<char>>
    decreases s.len(),
{
    if s.len() == 0 {
        seq![x]
    } else if npm_version_order(x, s.last()) < 0 {
        insert_by_version(s.drop_last(), x).push(s.last())
    } else {
        s.push(x)
    }
}

/// The versions in a stable sort by `compare_npm_versions`.
pub open spec fn sort_by_version(s: Seq<Seq<char>>) -> Seq<Seq<char>>
    decreases s.len(),
{
    if s.len() == 0 {
        s
    } else {
        insert_by_version(sort_by_version(s.drop_last()), s.last())
    }
}

/// No version is followed by one that sorts before it.
pub open spec fn versions_ascending(s: Seq<Seq<char>>) -> bool {
    forall|i: int| 0 <= i < s.len() - 1 ==> npm_version_order(#[trigger] s[i], s[i + 1]) <= 0
}

/// The texts of strings.
pub open spec fn strings_view(s: Seq<String>) -> Seq<Seq<char>> {
    Seq::new(s.len(), |i: int| s[i]@)
}

proof fn lemma_insert_at(s: Seq<Seq<char>>, x: Seq<char>, p: int)
    requires
        0 <= p <= s.len(),
        forall|k: int| p <= k < s.len() ==> npm_version_order(x, #[trigger] s[k]) < 0,
        p > 0 ==> npm_version_order(x, s[p - 1]) >= 0,
    ensures
        insert_by_version(s, x) == s.take(p).push(x) + s.skip(p),
    decreases s.len(),
{
    if s.len() == 0 {
        assert(s.take(p).push(x) + s.skip(p) =~= seq![x]);
    } else if p == s.len() {
        assert(s.take(p).push(x) + s.skip(p) =~= s.push(x));
    } else {
        let t = s.drop_last();
        lemma_insert_at(t, x, p);
        assert(s.take(p).push(x) + s.skip(p) =~= (t.take(p).push(x) + t.skip(p)).push(s.last()));
    }
}

/// Inserts `x` after every version that it does not sort before.
fn insert_version(out: &mut Vec<String>, x: String)
    requires
        versions_ascending(strings_view(old(out)@)),
    ensures
        strings_view(final(out)@) == insert_by_version(strings_view(old(out)@), x@),
        versions_ascending(strings_view(final(out)@)),
{
    let ghost s = strings_view(out@);
    let ghost before = out@;
    let mut p: usize = out.len();
    let mut stop = false;
    while p > 0 && !stop
        invariant
            out@ == before,
            s == strings_view(before),
            versions_ascending(s),
            0 <= p <= s.len(),
            forall|k: int| p <= k < s.len() ==> npm_version_order(x@, #[trigger] s[k]) < 0,
            stop ==> p > 0 && npm_version_order(x@, s[p - 1]) >= 0 && npm_version_order(
                s[p - 1],
                x@,
            ) <= 0,
        decreases p + (if stop { 0int } else { 1int }),
    {
        if version_before(x.as_str(), out[p - 1].as_str()) {
            p = p - 1;
        } else {
            stop = true;
        }
    }
    proof {
        lemma_insert_at(s, x@, p as int);
    }
    out.insert(p, x);
    proof {
        let t = strings_view(out@);
        assert(t =~= s.take(p as int).push(x@) + s.skip(p as int));
        assert forall|i: int| 0 <= i < t.len() - 1 implies npm_version_order(
            #[trigger] t[i],
            t[i + 1],
        ) <= 0 by {
            if i + 1 < p {
                assert(t[i] == s[i] && t[i + 1] == s[i + 1]);
            } else if i + 1 == p {
                assert(t[i] == s[i]);
            } else if i == p {
                assert(t[i + 1] == s[i]);
            } else {
                assert(t[i] == s[i - 1] && t[i + 1] == s[i]);
            }
        }
    }
}

/// Sorts versions by `compare_npm_versions`, keeping equal ones in order.
pub fn sort_versions(versions: &Vec<String>) -> (r: Vec<String>)
    ensures
        strings_view(r@) == sort_by_version(strings_view(versions@)),
        versions_ascending(strings_view(r@)),
{
    let ghost vs = strings_view(versions@);
    let mut out: Vec<String> = Vec::new();
    let mut i: usize = 0;
    assert(vs.take(0) =~= Seq::<Seq<char>>::empty());
    assert(strings_view(out@) =~= Seq::<Seq<char>>::empty());
    while i < versions.len()
        invariant
            i <= versions@.len(),
            vs == strings_view(versions@),
            strings_view(out@) == sort_by_version(vs.take(i as int)),
            versions_ascending(strings_view(out@)),
        decreases versions.len() - i,
    {
        proof {
            let t = vs.take(i + 1);
            assert(t.drop_last() =~= vs.take(i as int));
            assert(t.last() == versions@[i as int]@);
        }
        insert_version(&mut out, versions[i].clone());
        i = i + 1;
    }
    assert(vs.take(vs.len() as int) =~= vs);
    out
}

proof fn lemma_insert_multiset(s: Seq<Seq<char>>, x: Seq<char>)
    ensures
        insert_by_version(s, x).to_multiset() == s.to_multiset().insert(x),
    decreases s.len(),
{
    broadcast use vstd::seq_lib::group_to_multiset_ensures;

    if s.len() == 0 {
        assert(seq![x] =~= Seq::<Seq<char>>::empty().push(x));
    } else if npm_version_order(x, s.last()) < 0 {
        lemma_insert_multiset(s.drop_last(), x);
        assert(s =~= s.drop_last().push(s.last()));
        assert(s.to_multiset() =~= s.drop_last().to_multiset().insert(s.last()));
        assert(insert_by_version(s, x).to_multiset() =~= s.drop_last().to_multiset().insert(
            x,
        ).insert(s.last()));
    }
}

/// Sorting versions keeps each of them, as often as it occurs.
pub proof fn sorting_versions_keeps_them(s: Seq<Seq<char>>)
    ensures
        sort_by_version(s).to_multiset() == s.to_multiset(),
    decreases s.len(),
{
    broadcast use vstd::seq_lib::group_to_multiset_ensures;

    if s.len() > 0 {
        sorting_versions_keeps_them(s.drop_last());
        lemma_insert_multiset(sort_by_version(s.drop_last()), s.last());
        assert(s =~= s.drop_last().push(s.last()));
    }
}

// ---------------------------------------------------------------------------
// The versions of a packument
// ---------------------------------------------------------------------------

/// The keys of an object's members.
pub open spec fn key_texts(es: Seq<(Seq<char>, JsonView)>) -> Seq<Seq<char>> {
    Seq::new(es.len(), |i: int| es[i].0)
}

/// The versions of a packument in SemVer order: none without `versions`,
/// a refusal when `versions` is not an object.
pub open spec fn packument_versions(packument: JsonView, package: Seq<char>) -> Result<
    Seq<Seq<char>>,
    Seq<char>,
> {
    match field(packument, "versions"@) {
        None => Ok(Seq::empty()),
        Some(JsonView::Object(es)) => Ok(sort_by_version(key_texts(es))),
        Some(_) => Err("npm registry response for `"@ + package + "` had invalid versions"@),
    }
}

/// The view of a result carrying versions: the versions, or the refusal's
/// message.
pub open spec fn versions_result(r: Result<Vec<String>, OmcRegistryError>) -> Result<
    Seq<Seq<char>>,
    Seq<char>,
> {
    match r {
        Ok(v) => Ok(strings_view(v@)),
        Err(OmcRegistryError::UnsupportedSpec(m)) => Err(m@),
        Err(_) => Err(Seq::empty()),
    }
}

fn keys_of(es: &Vec<(String, JsonValue)>) -> (r: Vec<String>)
    ensures
        strings_view(r@) == key_texts(entries_view(es@)),
{
    proof {
        lemma_entries_view(es@);
    }
    let ghost ks = key_texts(entries_view(es@));
    let mut r: Vec<String> = Vec::new();
    let mut i: usize = 0;
    assert(strings_view(r@) =~= ks.take(0));
    while i < es.len()
        invariant
            i <= es@.len(),
            ks == key_texts(entries_view(es@)),
            ks.len() == es@.len(),
            forall|j: int| 0 <= j < es@.len() ==> #[trigger] ks[j] == es@[j].0@,
            r@.len() == i,
            strings_view(r@) == ks.take(i as int),
        decreases es.len() - i,
    {
        let ghost before = r@;
        r.push(es[i].0.clone());
        proof {
            assert(r@ == before.push(r@[i as int]));
            assert(strings_view(r@) =~= ks.take(i + 1));
        }
        i = i + 1;
    }
    assert(ks.take(es@.len() as int) =~= ks);
    r
}

fn sorted_keys(es: &Vec<(String, JsonValue)>) -> (r: Vec<String>)
    ensures
        strings_view(r@) == sort_by_version(key_texts(entries_view(es@))),
        versions_ascending(strings_view(r@)),
{
    let keys = keys_of(es);
    sort_versions(&keys)
}

/// The versions that a packument lists, in SemVer order.
pub fn npm_packument_version_keys(packument: &JsonValue, package: &str) -> (r: Result<
    Vec<String>,
    OmcRegistryError,
>)
    ensures
        versions_result(r) == packument_versions(packument@, package@),
        r is Err ==> r matches Err(OmcRegistryError::UnsupportedSpec(_)),
        r matches Ok(v) ==> versions_ascending(strings_view(v@)),
{
    match crate::json::json_get(packument, "versions") {
        None => {
            let r: Vec<String> = Vec::new();
            assert(strings_view(r@) =~= Seq::<Seq<char>>::empty());
            Ok(r)
        },
        Some(JsonValue::Object(es)) => {
            proof {
                lemma_view_object(es);
            }
            Ok(sorted_keys(es))
        },
        Some(other) => {
            proof {
                lemma_view_not_object(other);
            }
            let p = chars_of(package);
            Err(
                OmcRegistryError::UnsupportedSpec(
                    message("npm registry response for `", p.as_slice(), "` had invalid versions"),
                ),
            )
        },
    }
}

// ---------------------------------------------------------------------------
// Unpublish
// ---------------------------------------------------------------------------

/// What an unpublish does: the versions it removes, whether the whole
/// package goes, and whether anything changes.
#[derive(Debug)]
pub struct NpmUnpublishPlan {
    pub removed_versions: Vec<String>,
    pub whole_package: bool,
    pub changed: bool,
}

/// The plan's view: removed versions, whole package, changed.
pub open spec fn plan_view(p: NpmUnpublishPlan) -> (Seq<String>, bool, bool) {
    (p.removed_versions@, p.whole_package, p.changed)
}

/// The plan for the packument's versions (in order): the whole package
/// needs `force`; a version the packument does not list (when it lists
/// any) changes nothing; the last version needs `force` and takes the
/// package with it; a packument without versions is removed whole.
pub open spec fn unpublish_plan(versions: Seq<Seq<char>>, version: Option<Seq<char>>, force: bool) -> Result<
    (Seq<Seq<char>>, bool, bool),
    Seq<char>,
> {
    match version {
        None => if !force {
            Err("Refusing to delete entire project.\nRun with --force to do this."@)
        } else {
            Ok((versions, true, true))
        },
        Some(v) => {
            let listed = exists|i: int| 0 <= i < versions.len() && #[trigger] versions[i] == v;
            if !listed && versions.len() > 0 {
                Ok((Seq::empty(), false, false))
            } else if versions.len() == 1 && listed && !force {
                Err(
                    "Refusing to delete the last version of the package.\nIt will block from republishing a new version for 24 hours.\nRun with --force to do this."@,
                )
            } else if versions.len() == 0 {
                Ok((Seq::empty(), true, true))
            } else if versions.len() == 1 {
                Ok((versions, true, true))
            } else {
                Ok((seq![v], false, true))
            }
        },
    }
}

/// The view of a planned unpublish: the plan's view of removed version
/// texts, or the refusal's message.
pub open spec fn plan_result(r: Result<NpmUnpublishPlan, OmcRegistryError>) -> Result<
    (Seq<Seq<char>>, bool, bool),
    Seq<char>,
> {
    match r {
        Ok(p) => Ok((strings_view(p.removed_versions@), p.whole_package, p.changed)),
        Err(OmcRegistryError::UnsupportedSpec(m)) => Err(m@),
        Err(_) => Err(Seq::empty()),
    }
}

/// The text of an optional string.
pub open spec fn opt_text(o: Option<&str>) -> Option<Seq<char>> {
    match o {
        Some(s) => Some(s@),
        None => None,
    }
}

fn lists_version(versions: &Vec<String>, version: &str) -> (b: bool)
    ensures
        b == exists|i: int| 0 <= i < versions@.len() && (#[trigger] versions@[i])@ == version@,
{
    let v = chars_of(version);
    let mut i: usize = 0;
    while i < versions.len()
        invariant
            i <= versions@.len(),
            v@ == version@,
            forall|k: int| 0 <= k < i ==> (#[trigger] versions@[k])@ != version@,
        decreases versions.len() - i,
    {
        let c = chars_of(versions[i].as_str());
        if crate::text::eq_chars(c.as_slice(), v.as_slice()) {
            return true;
        }
        i = i + 1;
    }
    false
}

fn string_of(s: &str) -> (r: String)
    ensures
        r@ == s@,
{
    fixed(s)
}

/// Plans an unpublish over the versions that a packument lists, in order.
pub fn npm_unpublish_plan_for(versions: Vec<String>, version: Option<&str>, force: bool) -> (r:
    Result<NpmUnpublishPlan, OmcRegistryError>)
    ensures
        plan_result(r) == unpublish_plan(strings_view(versions@), opt_text(version), force),
        r is Err ==> r matches Err(OmcRegistryError::UnsupportedSpec(_)),
{
    let ghost vs = versions@;
    let ghost sv = strings_view(versions@);
    let n = versions.len();
    match version {
        None => {
            if !force {
                return Err(
                    OmcRegistryError::UnsupportedSpec(
                        fixed("Refusing to delete entire project.\nRun with --force to do this."),
                    ),
                );
            }
            let r = NpmUnpublishPlan { removed_versions: versions, whole_package: true, changed: true };
            assert(r.removed_versions@ == vs);
            Ok(r)
        },
        Some(v) => {
            let listed = lists_version(&versions, v);
            assert(listed == exists|i: int| 0 <= i < sv.len() && #[trigger] sv[i] == v@) by {
                if listed {
                    let i = choose|i: int| 0 <= i < versions@.len() && (#[trigger] versions@[i])@ == v@;
                    assert(sv[i] == v@);
                }
            }
            if !listed && n > 0 {
                let r = NpmUnpublishPlan {
                    removed_versions: Vec::new(),
                    whole_package: false,
                    changed: false,
                };
                assert(strings_view(r.removed_versions@) =~= Seq::<Seq<char>>::empty());
                return Ok(r);
            }
            if n == 1 && listed && !force {
                return Err(
                    OmcRegistryError::UnsupportedSpec(
                        fixed(
                            "Refusing to delete the last version of the package.\nIt will block from republishing a new version for 24 hours.\nRun with --force to do this.",
                        ),
                    ),
                );
            }
            if n == 0 {
                let r = NpmUnpublishPlan {
                    removed_versions: Vec::new(),
                    whole_package: true,
                    changed: true,
                };
                assert(strings_view(r.removed_versions@) =~= Seq::<Seq<char>>::empty());
                Ok(r)
            } else if n == 1 {
                Ok(NpmUnpublishPlan { removed_versions: versions, whole_package: true, changed: true })
            } else {
                let mut removed: Vec<String> = Vec::new();
                removed.push(string_of(v));
                assert(strings_view(removed@) =~= seq![v@]);
                assert(strings_view(seq![removed@[0]]) =~= seq![v@]);
                Ok(NpmUnpublishPlan { removed_versions: removed, whole_package: false, changed: true })
            }
        },
    }
}

/// Plans an unpublish: the packument's versions in order (refused when
/// they are not an object), then the plan over them.
pub fn npm_unpublish_plan(
    packument: &JsonValue,
    package: &str,
    version: Option<&str>,
    force: bool,
) -> (r: Result<NpmUnpublishPlan, OmcRegistryError>)
    ensures
        r is Err ==> r matches Err(OmcRegistryError::UnsupportedSpec(_)),
        match packument_versions(packument@, package@) {
            Err(m) => plan_result(r) == Err::<(Seq<Seq<char>>, bool, bool), Seq<char>>(m),
            Ok(vs) => plan_result(r) == unpublish_plan(vs, opt_text(version), force),
        },
{
    let versions = npm_packument_version_keys(packument, package)?;
    npm_unpublish_plan_for(versions, version, force)
}

// ---------------------------------------------------------------------------
// Deprecate
// ---------------------------------------------------------------------------

/// The versions, in their order, that satisfy the requirement.
pub open spec fn satisfying(keys: Seq<Seq<char>>, requirement: Seq<char>) -> Seq<Seq<char>>
    decreases keys.len(),
{
    if keys.len() == 0 {
        keys
    } else if npm_satisfies(keys.last(), requirement) {
        satisfying(keys.drop_last(), requirement).push(keys.last())
    } else {
        satisfying(keys.drop_last(), requirement)
    }
}

/// The versions of a packument that a deprecation covers, in SemVer order;
/// refused when the packument has no `versions` object.
pub open spec fn deprecated_versions(packument: JsonView, requirement: Seq<char>) -> Result<
    Seq<Seq<char>>,
    Seq<char>,
> {
    match field(packument, "versions"@) {
        Some(JsonView::Object(es)) => Ok(sort_by_version(satisfying(key_texts(es), requirement))),
        _ => Err("npm registry response did not include versions"@),
    }
}

fn satisfying_keys(keys: &Vec<String>, requirement: &str) -> (r: Vec<String>)
    requires
        fits_at(requirement@, 1),
    ensures
        strings_view(r@) == satisfying(strings_view(keys@), requirement@),
{
    let ghost ks = strings_view(keys@);
    let mut r: Vec<String> = Vec::new();
    let mut i: usize = 0;
    assert(ks.take(0) =~= Seq::<Seq<char>>::empty());
    assert(strings_view(r@) =~= Seq::<Seq<char>>::empty());
    while i < keys.len()
        invariant
            i <= keys@.len(),
            ks == strings_view(keys@),
            fits_at(requirement@, 1),
            strings_view(r@) == satisfying(ks.take(i as int), requirement@),
        decreases keys.len() - i,
    {
        proof {
            let t = ks.take(i + 1);
            assert(t.drop_last() =~= ks.take(i as int));
            assert(t.last() == keys@[i as int]@);
        }
        let ghost before = r@;
        if npm_version_satisfies(keys[i].as_str(), requirement) {
            r.push(keys[i].clone());
            proof {
                assert(strings_view(r@) =~= strings_view(before).push(keys@[i as int]@));
            }
        }
        i = i + 1;
    }
    assert(ks.take(ks.len() as int) =~= ks);
    r
}

/// The versions that a deprecation covers.  The requirement's bounds must
/// fit in `u64` (see `fits_at`).
pub fn npm_deprecate_matching_versions(packument: &JsonValue, requirement: &str) -> (r: Result<
    Vec<String>,
    OmcRegistryError,
>)
    requires
        fits_at(requirement@, 1),
    ensures
        versions_result(r) == deprecated_versions(packument@, requirement@),
        r is Err ==> r matches Err(OmcRegistryError::UnsupportedSpec(_)),
        r matches Ok(v) ==> versions_ascending(strings_view(v@)),
{
    match crate::json::json_get(packument, "versions") {
        Some(JsonValue::Object(es)) => {
            let keys = keys_of(es);
            let matching = satisfying_keys(&keys, requirement);
            Ok(sort_versions(&matching))
        },
        _ => Err(
            OmcRegistryError::UnsupportedSpec(
                fixed("npm registry response did not include versions"),
            ),
        ),
    }
}

// ---------------------------------------------------------------------------
// Removing a version from a packument
// ---------------------------------------------------------------------------

/// `a` sorts strictly after `b` by `compare_npm_versions`.
fn version_after(a: &str, b: &str) -> (r: bool)
    ensures
        r == (npm_version_order(a@, b@) > 0),
{
    match compare_npm_versions(a, b) {
        Ordering::Greater => true,
        Ordering::Equal => false,
        Ordering::Less => false,
    }
}

/// The highest version, the last of equal ones (`Iterator::max_by`).
pub open spec fn max_version(s: Seq<Seq<char>>) -> Seq<char>
    decreases s.len(),
{
    if s.len() <= 1 {
        s[0]
    } else {
        let m = max_version(s.drop_last());
        if npm_version_order(m, s.last()) > 0 {
            m
        } else {
            s.last()
        }
    }
}

fn highest_version(vs: &Vec<String>) -> (r: String)
    requires
        vs@.len() > 0,
    ensures
        r@ == max_version(strings_view(vs@)),
{
    let ghost sv = strings_view(vs@);
    let mut best = vs[0].clone();
    let mut i: usize = 1;
    assert(sv.take(1).len() == 1);
    while i < vs.len()
        invariant
            1 <= i <= vs@.len(),
            sv == strings_view(vs@),
            best@ == max_version(sv.take(i as int)),
        decreases vs.len() - i,
    {
        proof {
            let t = sv.take(i + 1);
            assert(t.drop_last() =~= sv.take(i as int));
            assert(t.last() == vs@[i as int]@);
        }
        if !version_after(best.as_str(), vs[i].as_str()) {
            best = vs[i].clone();
        }
        i = i + 1;
    }
    assert(sv.take(vs@.len() as int) =~= sv);
    best
}

/// The members whose value is not the text `version`, in order.
pub open spec fn tags_without(tags: Seq<(Seq<char>, JsonView)>, version: Seq<char>) -> Seq<
    (Seq<char>, JsonView),
>
    decreases tags.len(),
{
    if tags.len() == 0 {
        tags
    } else if text_of(tags.last().1) == Some(version) {
        tags_without(tags.drop_last(), version)
    } else {
        tags_without(tags.drop_last(), version).push(tags.last())
    }
}

/// The text value of the member `key`.
pub open spec fn member_text(es: Seq<(Seq<char>, JsonView)>, key: Seq<char>) -> Option<Seq<char>> {
    match member(es, key) {
        Some(v) => text_of(v),
        None => None,
    }
}

/// The dist-tags once `version` is gone: the tags naming it go, and when
/// `latest` named it, the highest remaining version becomes `latest`.
pub open spec fn retagged(
    tags: Seq<(Seq<char>, JsonView)>,
    version: Seq<char>,
    remaining: Seq<Seq<char>>,
) -> Seq<(Seq<char>, JsonView)> {
    let kept = tags_without(tags, version);
    if member_text(tags, "latest"@) == Some(version) && remaining.len() > 0 {
        with_member(kept, "latest"@, JsonView::Text(max_version(remaining)))
    } else {
        kept
    }
}

/// `dist.tarball` of a version document, when it is a text that is not
/// empty.
pub open spec fn dist_tarball(doc: JsonView) -> Option<Seq<char>> {
    match field(doc, "dist"@) {
        Some(dist) => match text_field(dist, "tarball"@) {
            Some(t) => if t.len() > 0 {
                Some(t)
            } else {
                None
            },
            None => None,
        },
        None => None,
    }
}

/// A packument once `version` is removed, with the version's tarball: the
/// version leaves `versions`, the dist-tags are updated, and `_revisions`
/// and `_attachments` are dropped.  Refused when the packument has no
/// `versions` object, does not list the version, or the version has no
/// tarball.
pub open spec fn unpublished(p: JsonView, package: Seq<char>, version: Seq<char>) -> Result<
    (Seq<(Seq<char>, JsonView)>, Seq<char>),
    Seq<char>,
> {
    let no_versions = "npm registry response for `"@ + package + "` did not include versions"@;
    match p {
        JsonView::Object(es) => match member(es, "versions"@) {
            Some(JsonView::Object(ves)) => match member(ves, version) {
                None => Err(
                    "npm registry response for `"@ + package + "` did not include version `"@
                        + version + "`"@,
                ),
                Some(doc) => match dist_tarball(doc) {
                    None => Err(
                        "npm registry response for `"@ + package + "` version `"@ + version
                            + "` did not include dist.tarball"@,
                    ),
                    Some(tarball) => {
                        let rest = without_member(ves, version);
                        let es1 = with_member(es, "versions"@, JsonView::Object(rest));
                        let es2 = match member(es1, "dist-tags"@) {
                            Some(JsonView::Object(tags)) => with_member(
                                es1,
                                "dist-tags"@,
                                JsonView::Object(retagged(tags, version, key_texts(rest))),
                            ),
                            _ => es1,
                        };
                        Ok(
                            (
                                without_member(without_member(es2, "_revisions"@), "_attachments"@),
                                tarball,
                            ),
                        )
                    },
                },
            },
            _ => Err(no_versions),
        },
        _ => Err(no_versions),
    }
}

fn dist_tarball_of(doc: &JsonValue) -> (r: Option<String>)
    ensures
        match r {
            Some(t) => dist_tarball(doc@) == Some(t@),
            None => dist_tarball(doc@) is None,
        },
{
    match crate::json::json_get(doc, "dist") {
        Some(dist) => match crate::json::json_text_field(dist, "tarball") {
            Some(t) => {
                let c = chars_of(t.as_str());
                if c.len() > 0 {
                    Some(t.clone())
                } else {
                    None
                }
            },
            None => None,
        },
        None => None,
    }
}

fn is_text(v: &JsonValue, text: &[char]) -> (b: bool)
    ensures
        b == (text_of(v@) == Some(text@)),
{
    match v {
        JsonValue::Text(s) => {
            let c = chars_of(s.as_str());
            crate::text::eq_chars(c.as_slice(), text)
        },
        _ => false,
    }
}

/// The dist-tags without those naming `version`, and `latest` moved to the
/// highest remaining version when it named `version`.
fn retag(tags: Vec<(String, JsonValue)>, version: &str, remaining: &Vec<String>) -> (r: Vec<
    (String, JsonValue),
>)
    ensures
        entries_view(r@) == retagged(entries_view(tags@), version@, strings_view(remaining@)),
{
    let ghost t0 = entries_view(tags@);
    let v = chars_of(version);
    let latest_removed = match find_member(&tags, "latest") {
        Some(i) => is_text(&tags[i].1, v.as_slice()),
        None => false,
    };
    let mut tags = tags;
    let ghost all = tags@;
    let n = tags.len();
    assert(all.len() == n);
    let mut kept: Vec<(String, JsonValue)> = Vec::new();
    let mut j: usize = 0;
    assert(entries_view(all.take(0)) =~= Seq::<(Seq<char>, JsonView)>::empty());
    assert(entries_view(kept@) =~= tags_without(entries_view(all.take(0)), version@));
    while tags.len() > 0
        invariant
            v@ == version@,
            j + tags@.len() == all.len(),
            j <= all.len(),
            all.len() <= usize::MAX,
            tags@ == all.skip(j as int),
            entries_view(kept@) == tags_without(entries_view(all.take(j as int)), version@),
        decreases tags.len(),
    {
        let (k, x) = tags.remove(0);
        proof {
            let pre = all.take(j + 1);
            assert(pre.drop_last() =~= all.take(j as int));
            assert(pre.last() == all[j as int]);
            assert(all[j as int] == (k, x));
            assert(entries_view(pre) == entries_view(all.take(j as int)).push((k@, x@)));
            assert(entries_view(pre).drop_last() =~= entries_view(all.take(j as int)));
            assert(entries_view(pre).last() == (k@, x@));
            assert(tags@ =~= all.skip(j + 1));
        }
        if !is_text(&x, v.as_slice()) {
            proof {
                lemma_entries_push(kept@, k, x);
            }
            kept.push((k, x));
        }
        j = j + 1;
    }
    assert(all.take(all.len() as int) =~= all);
    if latest_removed && remaining.len() > 0 {
        let top = highest_version(remaining);
        crate::json::set_member(&mut kept, fixed("latest"), JsonValue::Text(top));
    }
    kept
}

/// `a`, `x`, `b`, `y` and `c` in a row.
fn two_part_message(a: &str, x: &str, b: &str, y: &str, c: &str) -> (m: String)
    ensures
        m@ == a@ + x@ + b@ + y@ + c@,
{
    let xc = chars_of(x);
    let yc = chars_of(y);
    let head = message(a, xc.as_slice(), b);
    let hc = chars_of(head.as_str());
    let both = crate::text::concat_chars(hc.as_slice(), yc.as_slice());
    let m = message("", both.as_slice(), c);
    proof {
        reveal_strlit("");
        assert(m@ =~= a@ + x@ + b@ + y@ + c@);
    }
    m
}

fn no_versions_error(package: &str) -> (e: OmcRegistryError)
    ensures
        e matches OmcRegistryError::UnsupportedSpec(m) && m@ == "npm registry response for `"@
            + package@ + "` did not include versions"@,
{
    let p = chars_of(package);
    OmcRegistryError::UnsupportedSpec(
        message("npm registry response for `", p.as_slice(), "` did not include versions"),
    )
}

/// Removes `version` from a packument (see `unpublished`) and gives the
/// version's tarball URL.
pub fn npm_unpublish_remove_version(packument: &mut JsonValue, package: &str, version: &str) -> (r:
    Result<String, OmcRegistryError>)
    ensures
        match unpublished(old(packument)@, package@, version@) {
            Ok((es, tarball)) => r matches Ok(t) && t@ == tarball && final(packument)@
                == JsonView::Object(es),
            Err(m) => r matches Err(OmcRegistryError::UnsupportedSpec(x)) && x@ == m,
        },
{
    let mut taken = JsonValue::Null;
    std::mem::swap(&mut taken, packument);
    let mut es = match taken {
        JsonValue::Object(es) => es,
        other => {
            proof {
                lemma_view_not_object(&other);
            }
            *packument = other;
            return Err(no_versions_error(package));
        },
    };
    proof {
        lemma_view_object(&es);
    }
    let ghost es0 = es@;
    let vi = match find_member(&es, "versions") {
        Some(i) => i,
        None => {
            *packument = JsonValue::Object(es);
            return Err(no_versions_error(package));
        },
    };
    let (vkey, vval) = es.remove(vi);
    let mut ves = match vval {
        JsonValue::Object(ves) => ves,
        other => {
            proof {
                lemma_view_not_object(&other);
            }
            es.insert(vi, (vkey, other));
            *packument = JsonValue::Object(es);
            return Err(no_versions_error(package));
        },
    };
    proof {
        lemma_view_object(&ves);
    }
    let ghost ves0 = ves@;
    let doc = match crate::json::take_member(&mut ves, version) {
        Some(d) => d,
        None => {
            es.insert(vi, (vkey, JsonValue::Object(ves)));
            *packument = JsonValue::Object(es);
            return Err(
                OmcRegistryError::UnsupportedSpec(
                    two_part_message(
                        "npm registry response for `",
                        package,
                        "` did not include version `",
                        version,
                        "`",
                    ),
                ),
            );
        },
    };
    let tarball = match dist_tarball_of(&doc) {
        Some(t) => t,
        None => {
            es.insert(vi, (vkey, JsonValue::Object(ves)));
            *packument = JsonValue::Object(es);
            return Err(
                OmcRegistryError::UnsupportedSpec(
                    two_part_message(
                        "npm registry response for `",
                        package,
                        "` version `",
                        version,
                        "` did not include dist.tarball",
                    ),
                ),
            );
        },
    };
    let remaining = keys_of(&ves);
    proof {
        lemma_view_object(&ves);
        lemma_replace_at(es0, vi as int, vkey, JsonValue::Object(ves));
    }
    es.insert(vi, (vkey, JsonValue::Object(ves)));
    assert(es@ == es0.remove(vi as int).insert(vi as int, (vkey, JsonValue::Object(ves))));
    let ghost es1 = es@;
    match find_member(&es, "dist-tags") {
        Some(ti) => {
            let (tkey, tval) = es.remove(ti);
            match tval {
                JsonValue::Object(tags) => {
                    proof {
                        lemma_view_object(&tags);
                    }
                    let fresh = retag(tags, version, &remaining);
                    proof {
                        lemma_view_object(&fresh);
                        lemma_replace_at(es1, ti as int, tkey, JsonValue::Object(fresh));
                    }
                    es.insert(ti, (tkey, JsonValue::Object(fresh)));
                    assert(es@ == es1.remove(ti as int).insert(ti as int, (tkey, JsonValue::Object(fresh))));
                },
                other => {
                    proof {
                        lemma_view_not_object(&other);
                    }
                    es.insert(ti, (tkey, other));
                    assert(es@ =~= es1);
                },
            }
        },
        None => {},
    }
    let _ = crate::json::take_member(&mut es, "_revisions");
    let _ = crate::json::take_member(&mut es, "_attachments");
    proof {
        lemma_view_object(&es);
    }
    *packument = JsonValue::Object(es);
    Ok(tarball)
}

// ---------------------------------------------------------------------------
// Revision and tarball path
// ---------------------------------------------------------------------------

/// The packument's `_rev`, which must be a text that is not empty.
pub open spec fn packument_rev(p: JsonView, package: Seq<char>) -> Result<Seq<char>, Seq<char>> {
    match text_field(p, "_rev"@) {
        Some(r) => if r.len() > 0 {
            Ok(r)
        } else {
            Err("npm registry response for `"@ + package + "` did not include _rev"@)
        },
        None => Err("npm registry response for `"@ + package + "` did not include _rev"@),
    }
}

/// The view of a result carrying text: the text, or the refusal's message.
pub open spec fn text_outcome(r: Result<String, OmcRegistryError>) -> Result<Seq<char>, Seq<char>> {
    match r {
        Ok(s) => Ok(s@),
        Err(OmcRegistryError::UnsupportedSpec(m)) => Err(m@),
        Err(_) => Err(Seq::empty()),
    }
}

/// The packument's revision.
pub fn npm_packument_rev(packument: &JsonValue, package: &str) -> (r: Result<String, OmcRegistryError>)
    ensures
        text_outcome(r) == packument_rev(packument@, package@),
        r is Err ==> r matches Err(OmcRegistryError::UnsupportedSpec(_)),
{
    if let Some(rev) = crate::json::json_text_field(packument, "_rev") {
        let c = chars_of(rev.as_str());
        if c.len() > 0 {
            return Ok(rev.clone());
        }
    }
    let p = chars_of(package);
    Err(
        OmcRegistryError::UnsupportedSpec(
            message("npm registry response for `", p.as_slice(), "` did not include _rev"),
        ),
    )
}

/// The path of a tarball URL below the registry: both parsed by `Url`, the
/// leading slashes of both paths dropped, and the registry's path (when it
/// has one) and the slashes after it dropped from the front of the
/// tarball's.  Refused when a URL does not parse or nothing is left.
pub open spec fn tarball_path(tarball: Seq<char>, registry: Seq<char>) -> Result<
    Seq<char>,
    Seq<char>,
> {
    match parsed_url(registry) {
        None => Err(registry),
        Some(ru) => match parsed_url(tarball) {
            None => Err(tarball),
            Some(tu) => {
                let rp = trim_start_char(ru.3, '/');
                let tp0 = trim_start_char(tu.3, '/');
                let tp = if rp.len() > 0 && starts_with(tp0, rp) {
                    trim_start_char(tp0.skip(rp.len() as int), '/')
                } else {
                    tp0
                };
                if tp.len() == 0 {
                    Err("npm tarball URL `"@ + tarball + "` did not include a path"@)
                } else {
                    Ok(tp)
                }
            },
        },
    }
}

/// The path of a version's tarball below the registry, for the request
/// that deletes it.
pub fn npm_unpublish_tarball_path(tarball: &str, registry: &str) -> (r: Result<
    String,
    OmcRegistryError,
>)
    ensures
        text_outcome(r) == tarball_path(tarball@, registry@),
        r is Err ==> r matches Err(OmcRegistryError::UnsupportedSpec(_)),
{
    let registry_url = match parse_url(registry) {
        Some(u) => u,
        None => {
            return Err(OmcRegistryError::UnsupportedSpec(fixed(registry)));
        },
    };
    let tarball_url = match parse_url(tarball) {
        Some(u) => u,
        None => {
            return Err(OmcRegistryError::UnsupportedSpec(fixed(tarball)));
        },
    };
    let rpc = chars_of(registry_url.path.as_str());
    let rp = trim_start_matches_char(rpc.as_slice(), '/');
    let tpc = chars_of(tarball_url.path.as_str());
    let mut tp = trim_start_matches_char(tpc.as_slice(), '/');
    if rp.len() > 0 && starts_with_chars(tp.as_slice(), rp.as_slice()) {
        let rest = suffix_from(tp.as_slice(), rp.len());
        tp = trim_start_matches_char(rest.as_slice(), '/');
    }
    if tp.len() == 0 {
        let t = chars_of(tarball);
        return Err(
            OmcRegistryError::UnsupportedSpec(
                message("npm tarball URL `", t.as_slice(), "` did not include a path"),
            ),
        );
    }
    Ok(string_from_chars(tp.as_slice()))
}

// ---------------------------------------------------------------------------
// Marking versions deprecated
// ---------------------------------------------------------------------------

/// The versions object once each of `versions`, in turn, has `deprecated`
/// set to the message in its document; the first version whose document is
/// not an object is refused.
pub open spec fn marked_deprecated(
    ves: Seq<(Seq<char>, JsonView)>,
    versions: Seq<Seq<char>>,
    text: Seq<char>,
) -> Result<Seq<(Seq<char>, JsonView)>, Seq<char>>
    decreases versions.len(),
{
    if versions.len() == 0 {
        Ok(ves)
    } else {
        match marked_deprecated(ves, versions.drop_last(), text) {
            Err(v) => Err(v),
            Ok(m) => match member(m, versions.last()) {
                Some(JsonView::Object(doc)) => Ok(
                    with_member(
                        m,
                        versions.last(),
                        JsonView::Object(with_member(doc, "deprecated"@, JsonView::Text(text))),
                    ),
                ),
                _ => Err(versions.last()),
            },
        }
    }
}

/// A packument with the given versions marked deprecated: unchanged when
/// there are none; else refused without a `versions` object, or for a
/// version whose document is not an object.
pub open spec fn deprecated_packument(
    p: JsonView,
    package: Seq<char>,
    versions: Seq<Seq<char>>,
    text: Seq<char>,
) -> Result<JsonView, Seq<char>> {
    if versions.len() == 0 {
        Ok(p)
    } else {
        match p {
            JsonView::Object(es) => match member(es, "versions"@) {
                Some(JsonView::Object(ves)) => match marked_deprecated(ves, versions, text) {
                    Ok(m) => Ok(JsonView::Object(with_member(es, "versions"@, JsonView::Object(m)))),
                    Err(v) => Err(
                        "npm registry response for `"@ + package + "` had invalid version `"@ + v
                            + "`"@,
                    ),
                },
                _ => Err("npm registry response for `"@ + package + "` did not include versions"@),
            },
            _ => Err("npm registry response for `"@ + package + "` did not include versions"@),
        }
    }
}

/// Marks each version's document deprecated with the message, in turn;
/// gives the version whose document is not an object.
fn mark_versions(ves: &mut Vec<(String, JsonValue)>, versions: &Vec<String>, text: &str) -> (r:
    Result<(), String>)
    ensures
        match marked_deprecated(entries_view(old(ves)@), strings_view(versions@), text@) {
            Ok(m) => r is Ok && entries_view(final(ves)@) == m,
            Err(v) => r matches Err(x) && x@ == v,
        },
{
    let ghost vs = strings_view(versions@);
    let ghost e0 = entries_view(ves@);
    let mut i: usize = 0;
    assert(vs.take(0) =~= Seq::<Seq<char>>::empty());
    while i < versions.len()
        invariant
            i <= versions@.len(),
            vs == strings_view(versions@),
            e0 == entries_view(old(ves)@),
            marked_deprecated(e0, vs.take(i as int), text@) == Ok::<
                Seq<(Seq<char>, JsonView)>,
                Seq<char>,
            >(entries_view(ves@)),
        decreases versions.len() - i,
    {
        proof {
            let t = vs.take(i + 1);
            assert(t.drop_last() =~= vs.take(i as int));
            assert(t.last() == versions@[i as int]@);
        }
        let ghost before = ves@;
        let k = match find_member(ves, versions[i].as_str()) {
            Some(k) => k,
            None => {
                proof {
                    lemma_rest_refused(e0, vs, i as int, text@);
                }
                return Err(versions[i].clone());
            },
        };
        let (key, value) = ves.remove(k);
        match value {
            JsonValue::Object(mut doc) => {
                proof {
                    lemma_view_object(&doc);
                }
                let ghost d0 = doc@;
                crate::json::set_member(&mut doc, fixed("deprecated"), JsonValue::Text(fixed(text)));
                proof {
                    lemma_view_object(&doc);
                    lemma_replace_at(before, k as int, key, JsonValue::Object(doc));
                }
                ves.insert(k, (key, JsonValue::Object(doc)));
                assert(ves@ == before.remove(k as int).insert(k as int, (key, JsonValue::Object(doc))));
            },
            other => {
                proof {
                    lemma_view_not_object(&other);
                    lemma_rest_refused(e0, vs, i as int, text@);
                }
                return Err(versions[i].clone());
            },
        }
        i = i + 1;
    }
    assert(vs.take(vs.len() as int) =~= vs);
    Ok(())
}

/// Once a version is refused, every longer run of versions is refused for
/// the same version.
proof fn lemma_rest_refused(
    e0: Seq<(Seq<char>, JsonView)>,
    vs: Seq<Seq<char>>,
    i: int,
    text: Seq<char>,
)
    requires
        0 <= i < vs.len(),
        marked_deprecated(e0, vs.take(i + 1), text) == Err::<Seq<(Seq<char>, JsonView)>, Seq<char>>(
            vs[i],
        ),
    ensures
        marked_deprecated(e0, vs, text) == Err::<Seq<(Seq<char>, JsonView)>, Seq<char>>(vs[i]),
    decreases vs.len() - i,
{
    if i + 1 < vs.len() {
        let t = vs.take(i + 2);
        assert(t.drop_last() =~= vs.take(i + 1));
        assert(t[i] == vs[i]);
        let u = vs.take(i + 2);
        assert(vs.take(i + 2).take(i + 1) =~= vs.take(i + 1));
        lemma_rest_refused_step(e0, vs, i, i + 1, text);
    } else {
        assert(vs.take(i + 1) =~= vs);
    }
}

proof fn lemma_rest_refused_step(
    e0: Seq<(Seq<char>, JsonView)>,
    vs: Seq<Seq<char>>,
    i: int,
    j: int,
    text: Seq<char>,
)
    requires
        0 <= i < j <= vs.len(),
        marked_deprecated(e0, vs.take(j), text) == Err::<Seq<(Seq<char>, JsonView)>, Seq<char>>(
            vs[i],
        ),
    ensures
        marked_deprecated(e0, vs, text) == Err::<Seq<(Seq<char>, JsonView)>, Seq<char>>(vs[i]),
    decreases vs.len() - j,
{
    if j < vs.len() {
        let t = vs.take(j + 1);
        assert(t.drop_last() =~= vs.take(j));
        lemma_rest_refused_step(e0, vs, i, j + 1, text);
    } else {
        assert(vs.take(j) =~= vs);
    }
}

/// Marks the given versions of a packument deprecated (see
/// `deprecated_packument`).
pub fn npm_deprecate_packument(
    packument: &mut JsonValue,
    package: &str,
    versions: &Vec<String>,
    text: &str,
) -> (r: Result<(), OmcRegistryError>)
    ensures
        match deprecated_packument(old(packument)@, package@, strings_view(versions@), text@) {
            Ok(p) => r is Ok && final(packument)@ == p,
            Err(m) => r matches Err(OmcRegistryError::UnsupportedSpec(x)) && x@ == m,
        },
{
    if versions.len() == 0 {
        return Ok(());
    }
    let mut taken = JsonValue::Null;
    std::mem::swap(&mut taken, packument);
    let mut es = match taken {
        JsonValue::Object(es) => es,
        other => {
            proof {
                lemma_view_not_object(&other);
            }
            *packument = other;
            return Err(no_versions_error(package));
        },
    };
    proof {
        lemma_view_object(&es);
    }
    let ghost es0 = es@;
    let vi = match find_member(&es, "versions") {
        Some(i) => i,
        None => {
            *packument = JsonValue::Object(es);
            return Err(no_versions_error(package));
        },
    };
    let (vkey, vval) = es.remove(vi);
    let mut ves = match vval {
        JsonValue::Object(ves) => ves,
        other => {
            proof {
                lemma_view_not_object(&other);
            }
            es.insert(vi, (vkey, other));
            *packument = JsonValue::Object(es);
            return Err(no_versions_error(package));
        },
    };
    proof {
        lemma_view_object(&ves);
    }
    match mark_versions(&mut ves, versions, text) {
        Ok(()) => {},
        Err(v) => {
            es.insert(vi, (vkey, JsonValue::Object(ves)));
            *packument = JsonValue::Object(es);
            let p = chars_of(package);
            let vc = chars_of(v.as_str());
            let head = message("npm registry response for `", p.as_slice(), "` had invalid version `");
            let hc = chars_of(head.as_str());
            let both = crate::text::concat_chars(hc.as_slice(), vc.as_slice());
            let m = message("", both.as_slice(), "`");
            proof {
                reveal_strlit("");
                assert(m@ =~= "npm registry response for `"@ + package@ + "` had invalid version `"@ + v@ + "`"@);
            }
            return Err(OmcRegistryError::UnsupportedSpec(m));
        },
    }
    proof {
        lemma_view_object(&ves);
        lemma_replace_at(es0, vi as int, vkey, JsonValue::Object(ves));
    }
    es.insert(vi, (vkey, JsonValue::Object(ves)));
    assert(es@ == es0.remove(vi as int).insert(vi as int, (vkey, JsonValue::Object(ves))));
    proof {
        lemma_view_object(&es);
    }
    *packument = JsonValue::Object(es);
    Ok(())
}

} // verus!
