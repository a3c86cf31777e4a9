//! Choosing the npm version that a range resolves to: a dist-tag, or the
//! highest version in the range, published before an optional cutoff.
use vstd::prelude::*;
use crate::error::OmcRegistryError;
use crate::npm_arguments::{fixed, message};
use crate::npm_packument::{max_version, strings_view};
use crate::npm_semver::{compare_npm_versions, fits_at, npm_satisfies, npm_version_order, npm_version_satisfies};
use crate::set_map::PinMap;
use crate::text::{chars_of, eq_chars, string_from_chars, trim, trim_chars};
use std::cmp::Ordering;

verus! {

// ---------------------------------------------------------------------------
// Instants
// ---------------------------------------------------------------------------

/// What `DateTime::parse_from_rfc3339` reads from a text, as seconds since
/// the epoch and nanoseconds.
pub uninterp spec fn rfc3339_instant(text: Seq<char>) -> Option<(i64, u32)>;

/// Parses an RFC 3339 time with `chrono::DateTime::parse_from_rfc3339` and
/// reads its instant (`timestamp`, `timestamp_subsec_nanos`).  The contract
/// names the result.
#[verifier::external_body]
pub(crate) fn rfc3339_instant_of(text: &str) -> (r: Option<(i64, u32)>)
    ensures
        r == rfc3339_instant(text@),
{
    let t = chrono::DateTime::parse_from_rfc3339(text).ok()?;
    Some((t.timestamp(), t.timestamp_subsec_nanos()))
}

/// What `NaiveDate::parse_from_str` reads from a text with a format, as the
/// instant of its midnight in UTC.
pub uninterp spec fn naive_date_instant(text: Seq<char>, format: Seq<char>) -> Option<(i64, u32)>;

/// Parses a date with `chrono::NaiveDate::parse_from_str` and reads the
/// instant of its midnight in UTC (`and_hms_opt(0, 0, 0)`, which holds for
/// every date, then `and_utc`).  The contract names the result.
#[verifier::external_body]
pub(crate) fn naive_date_instant_of(text: &str, format: &str) -> (r: Option<(i64, u32)>)
    ensures
        r == naive_date_instant(text@, format@),
{
    let d = chrono::NaiveDate::parse_from_str(text, format).ok()?;
    let t = d.and_hms_opt(0, 0, 0)?.and_utc();
    Some((t.timestamp(), t.timestamp_subsec_nanos()))
}

/// What `NaiveDateTime::parse_from_str` reads from a text with a format, as
/// the instant it names when read in UTC.
pub uninterp spec fn naive_datetime_instant(text: Seq<char>, format: Seq<char>) -> Option<(i64, u32)>;

/// Parses a date and time with `chrono::NaiveDateTime::parse_from_str` and
/// reads it as an instant in UTC (`and_utc`).  The contract names the
/// result.
#[verifier::external_body]
pub(crate) fn naive_datetime_instant_of(text: &str, format: &str) -> (r: Option<(i64, u32)>)
    ensures
        r == naive_datetime_instant(text@, format@),
{
    let t = chrono::NaiveDateTime::parse_from_str(text, format).ok()?.and_utc();
    Some((t.timestamp(), t.timestamp_subsec_nanos()))
}

/// Reads a date and time (given as the instant it names in UTC) in the
/// machine's time zone with `chrono::Local.from_local_datetime(..)
/// .earliest()`.  The answer depends on the time zone, so the contract
/// states nothing of it; there is none when the time does not exist there.
#[verifier::external_body]
pub(crate) fn local_instant_of(naive: (i64, u32)) -> (r: Option<(i64, u32)>) {
    let n = chrono::DateTime::<chrono::Utc>::from_timestamp(naive.0, naive.1)?.naive_utc();
    let t = chrono::TimeZone::from_local_datetime(&chrono::Local, &n).earliest()?;
    Some((t.timestamp(), t.timestamp_subsec_nanos()))
}

/// `a` is not after `b`.
pub open spec fn instant_le(a: (i64, u32), b: (i64, u32)) -> bool {
    a.0 < b.0 || (a.0 == b.0 && a.1 <= b.1)
}

/// The form a cutoff value takes once read: an instant, a date and time
/// (given as the instant it names in UTC) still to be read in the machine's
/// time zone, or a number of days before now.
#[derive(Debug, Clone, Copy, PartialEq, Eq)]
pub enum CutoffForm {
    Instant((i64, u32)),
    LocalTime((i64, u32)),
    DaysAgo(i64),
}

/// The greatest instant, in seconds, that the clock can read.
pub open spec fn max_clock_seconds() -> int {
    8_300_000_000_000
}

/// The instant a cutoff form names, given the clock reading `now` and the
/// machine's reading `local` of the date and time (none where it does not
/// exist there): a local time that does not exist is read in UTC.
pub open spec fn cutoff_instant(form: CutoffForm, now: (i64, u32), local: Option<(i64, u32)>) -> (i64, u32) {
    match form {
        CutoffForm::Instant(t) => t,
        CutoffForm::LocalTime(n) => match local {
            Some(t) => t,
            None => n,
        },
        CutoffForm::DaysAgo(d) => ((now.0 - d * 86400) as i64, now.1),
    }
}

/// The instant a cutoff form names, given the clock reading and the local
/// reading of the date and time.
pub fn resolve_cutoff(form: CutoffForm, now: (i64, u32), local: Option<(i64, u32)>) -> (r: (i64, u32))
    requires
        form matches CutoffForm::DaysAgo(d) ==> 0 <= d <= 90_000_000 && 0 <= now.0
            <= max_clock_seconds(),
    ensures
        r == cutoff_instant(form, now, local),
{
    match form {
        CutoffForm::Instant(t) => t,
        CutoffForm::LocalTime(n) => match local {
            Some(t) => t,
            None => n,
        },
        CutoffForm::DaysAgo(d) => (now.0 - d * 86400, now.1),
    }
}

/// The earlier of two instants.
pub open spec fn earlier(a: (i64, u32), b: (i64, u32)) -> (i64, u32) {
    if instant_le(a, b) {
        a
    } else {
        b
    }
}

/// The cutoff a package is resolved against: the earlier of an explicit
/// cutoff and the freshness cutoff `now` less the package's minimum
/// release age in seconds (which applies only when above zero).
pub open spec fn tightened(explicit: Option<(i64, u32)>, age_secs: Option<i64>, now: (i64, u32)) -> Option<
    (i64, u32),
> {
    let age = match age_secs {
        Some(s) => if s > 0 {
            Some(((now.0 - s) as i64, now.1))
        } else {
            None
        },
        None => None,
    };
    match (explicit, age) {
        (Some(a), Some(b)) => Some(earlier(a, b)),
        (Some(a), None) => Some(a),
        (None, Some(b)) => Some(b),
        (None, None) => None,
    }
}

/// The cutoff a package is resolved against, from the explicit cutoff,
/// the package's minimum release age and the clock reading.
pub fn tightened_cutoff(explicit: Option<(i64, u32)>, age_secs: Option<i64>, now: (i64, u32)) -> (r: Option<
    (i64, u32),
>)
    requires
        0 <= now.0 <= max_clock_seconds(),
        age_secs matches Some(s) ==> s <= max_clock_seconds(),
    ensures
        r == tightened(explicit, age_secs, now),
{
    let age = match age_secs {
        Some(s) => if s > 0 {
            Some((now.0 - s, now.1))
        } else {
            None
        },
        None => None,
    };
    match (explicit, age) {
        (Some(a), Some(b)) => if a.0 < b.0 || (a.0 == b.0 && a.1 <= b.1) {
            Some(a)
        } else {
            Some(b)
        },
        (Some(a), None) => Some(a),
        (None, Some(b)) => Some(b),
        (None, None) => None,
    }
}

/// The form of an `npm --before` value: an RFC 3339 time, a date (its
/// midnight in UTC), or a date and time in the machine's time zone; none
/// when it is in none of these forms.
pub open spec fn before_form(v: Seq<char>) -> Option<CutoffForm> {
    if rfc3339_instant(v) is Some {
        Some(CutoffForm::Instant(rfc3339_instant(v)->0))
    } else if naive_date_instant(v, "%Y-%m-%d"@) is Some {
        Some(CutoffForm::Instant(naive_date_instant(v, "%Y-%m-%d"@)->0))
    } else if naive_datetime_instant(v, "%Y-%m-%dT%H:%M:%S%.f"@) is Some {
        Some(CutoffForm::LocalTime(naive_datetime_instant(v, "%Y-%m-%dT%H:%M:%S%.f"@)->0))
    } else if naive_datetime_instant(v, "%Y-%m-%d %H:%M:%S%.f"@) is Some {
        Some(CutoffForm::LocalTime(naive_datetime_instant(v, "%Y-%m-%d %H:%M:%S%.f"@)->0))
    } else {
        None
    }
}

/// How an `npm --before` value reads, given the machine's reading of a
/// local date and time; refused when blank or in none of the forms.
pub open spec fn before_form_outcome(value: Seq<char>, r: Result<CutoffForm, OmcRegistryError>) -> bool {
    let v = trim(value);
    if v.len() == 0 {
        r matches Err(OmcRegistryError::UnsupportedSpec(m)) && m@
            == "npm --before needs a datetime or YYYY-MM-DD date"@
    } else {
        match before_form(v) {
            Some(f) => r == Ok::<CutoffForm, OmcRegistryError>(f),
            None => r matches Err(OmcRegistryError::UnsupportedSpec(m)) && m@
                == "unsupported npm --before value `"@ + v + "`"@,
        }
    }
}

/// Reads the form of an `npm --before` value.
pub fn npm_before_form(value: &str) -> (r: Result<CutoffForm, OmcRegistryError>)
    ensures
        before_form_outcome(value@, r),
{
    let t = trim_chars(chars_of(value).as_slice());
    if t.len() == 0 {
        return Err(
            OmcRegistryError::UnsupportedSpec(fixed("npm --before needs a datetime or YYYY-MM-DD date")),
        );
    }
    let v = string_from_chars(t.as_slice());
    if let Some(i) = rfc3339_instant_of(v.as_str()) {
        return Ok(CutoffForm::Instant(i));
    }
    if let Some(i) = naive_date_instant_of(v.as_str(), "%Y-%m-%d") {
        return Ok(CutoffForm::Instant(i));
    }
    if let Some(n) = naive_datetime_instant_of(v.as_str(), "%Y-%m-%dT%H:%M:%S%.f") {
        return Ok(CutoffForm::LocalTime(n));
    }
    if let Some(n) = naive_datetime_instant_of(v.as_str(), "%Y-%m-%d %H:%M:%S%.f") {
        return Ok(CutoffForm::LocalTime(n));
    }
    Err(OmcRegistryError::UnsupportedSpec(message("unsupported npm --before value `", t.as_slice(), "`")))
}

/// How an `npm --before` value reads: an RFC 3339 time, a date (its
/// midnight in UTC), or a date and time read in the machine's time zone
/// (which the contract cannot name, so only success is stated there);
/// refused when blank or in none of these forms.
pub open spec fn before_outcome(value: Seq<char>, r: Result<(i64, u32), OmcRegistryError>) -> bool {
    let v = trim(value);
    if v.len() == 0 {
        r matches Err(OmcRegistryError::UnsupportedSpec(m)) && m@
            == "npm --before needs a datetime or YYYY-MM-DD date"@
    } else {
        match before_form(v) {
            Some(CutoffForm::Instant(t)) => r == Ok::<(i64, u32), OmcRegistryError>(t),
            Some(_) => r is Ok,
            None => r matches Err(OmcRegistryError::UnsupportedSpec(m)) && m@
                == "unsupported npm --before value `"@ + v + "`"@,
        }
    }
}

/// A form read into an instant: a local date and time is read in the
/// machine's time zone with `local_instant_of`, whose answer the contract
/// cannot name; days are not a form an npm value takes.
pub(crate) fn cutoff_now_free(form: CutoffForm) -> (r: (i64, u32))
    requires
        !(form is DaysAgo),
    ensures
        form matches CutoffForm::Instant(t) ==> r == t,
{
    match form {
        CutoffForm::LocalTime(n) => resolve_cutoff(form, (0, 0), local_instant_of(n)),
        _ => resolve_cutoff(form, (0, 0), None),
    }
}

/// Reads an `npm --before` value.
pub fn parse_npm_before(value: &str) -> (r: Result<(i64, u32), OmcRegistryError>)
    ensures
        before_outcome(value@, r),
{
    match npm_before_form(value) {
        Ok(form) => Ok(cutoff_now_free(form)),
        Err(e) => Err(e),
    }
}

// ---------------------------------------------------------------------------
// Packuments
// ---------------------------------------------------------------------------

/// What a packument says for choosing a version: the `latest` tag, the
/// other dist-tags, the publish times and the versions.
#[derive(Debug)]
pub struct NpmRoot {
    pub latest: String,
    pub tags: PinMap,
    pub time: PinMap,
    pub versions: Vec<String>,
}

/// The version a dist-tag names.
pub open spec fn dist_tag(root: NpmRoot, tag: Seq<char>) -> Option<Seq<char>> {
    if tag == "latest"@ {
        Some(root.latest@)
    } else if root.tags.view().contains_key(tag) {
        Some(root.tags.view()[tag])
    } else {
        None
    }
}

/// Whether a version was published before the cutoff (always, without
/// one); refused when its publish time is missing or not an RFC 3339 time.
pub open spec fn published_before(root: NpmRoot, version: Seq<char>, cutoff: Option<(i64, u32)>) -> Result<
    bool,
    Seq<char>,
> {
    match cutoff {
        None => Ok(true),
        Some(c) => if !root.time.view().contains_key(version) {
            Err("npm --before requires publish-time metadata for npm version "@ + version)
        } else {
            match rfc3339_instant(root.time.view()[version]) {
                None => Err("npm --before requires publish-time metadata for npm version "@ + version),
                Some(t) => Ok(instant_le(t, c)),
            }
        },
    }
}

/// The versions in the range, in order, up to the first whose publish time
/// is refused: those published before the cutoff, or the refusal.
pub open spec fn eligible(
    versions: Seq<Seq<char>>,
    root: NpmRoot,
    requirement: Seq<char>,
    cutoff: Option<(i64, u32)>,
) -> Result<Seq<Seq<char>>, Seq<char>>
    decreases versions.len(),
{
    if versions.len() == 0 {
        Ok(Seq::empty())
    } else {
        match eligible(versions.drop_last(), root, requirement, cutoff) {
            Err(m) => Err(m),
            Ok(es) => {
                let v = versions.last();
                if !npm_satisfies(v, requirement) {
                    Ok(es)
                } else {
                    match published_before(root, v, cutoff) {
                        Err(m) => Err(m),
                        Ok(true) => Ok(es.push(v)),
                        Ok(false) => Ok(es),
                    }
                }
            },
        }
    }
}

/// The version a range resolves to: the dist-tag of that name when it was
/// published before the cutoff, else the highest eligible version (the
/// last of equal ones); `UnsatisfiedRequirement` when none is.  A refused
/// publish time is refused.
pub open spec fn chosen_version(
    root: NpmRoot,
    requirement: Seq<char>,
    cutoff: Option<(i64, u32)>,
) -> Result<Option<Seq<char>>, Seq<char>> {
    let tagged = dist_tag(root, requirement);
    if tagged is Some && published_before(root, tagged->0, cutoff) is Err {
        Err(published_before(root, tagged->0, cutoff)->Err_0)
    } else if tagged is Some && published_before(root, tagged->0, cutoff) == Ok::<bool, Seq<char>>(
        true,
    ) {
        Ok(tagged)
    } else {
        match eligible(strings_view(root.versions@), root, requirement, cutoff) {
            Err(m) => Err(m),
            Ok(es) => if es.len() == 0 {
                Ok(None)
            } else {
                Ok(Some(max_version(es)))
            },
        }
    }
}

fn missing_time(version: &str) -> (e: OmcRegistryError)
    ensures
        e matches OmcRegistryError::UnsupportedSpec(m) && m@
            == "npm --before requires publish-time metadata for npm version "@ + version@,
{
    let v = chars_of(version);
    let m = message("npm --before requires publish-time metadata for npm version ", v.as_slice(), "");
    proof {
        reveal_strlit("");
        assert(m@ =~= "npm --before requires publish-time metadata for npm version "@ + version@);
    }
    OmcRegistryError::UnsupportedSpec(m)
}

/// Whether a version was published before the cutoff.
pub fn npm_version_published_before(root: &NpmRoot, version: &str, cutoff: Option<(i64, u32)>) -> (r:
    Result<bool, OmcRegistryError>)
    requires
        root.time.wf(),
    ensures
        match published_before(*root, version@, cutoff) {
            Ok(b) => r == Ok::<bool, OmcRegistryError>(b),
            Err(m) => r matches Err(OmcRegistryError::UnsupportedSpec(x)) && x@ == m,
        },
{
    let c = match cutoff {
        None => {
            return Ok(true);
        },
        Some(c) => c,
    };
    let v = chars_of(version);
    let published = match root.time.get(v.as_slice()) {
        Some(p) => string_from_chars(p.as_slice()),
        None => {
            return Err(missing_time(version));
        },
    };
    match rfc3339_instant_of(published.as_str()) {
        None => Err(missing_time(version)),
        Some(t) => Ok(t.0 < c.0 || (t.0 == c.0 && t.1 <= c.1)),
    }
}

fn dist_tag_of(root: &NpmRoot, tag: &str) -> (r: Option<String>)
    requires
        root.tags.wf(),
    ensures
        match r {
            Some(v) => dist_tag(*root, tag@) == Some(v@),
            None => dist_tag(*root, tag@) is None,
        },
{
    let t = chars_of(tag);
    if eq_chars(t.as_slice(), chars_of("latest").as_slice()) {
        return Some(root.latest.clone());
    }
    match root.tags.get(t.as_slice()) {
        Some(v) => Some(string_from_chars(v.as_slice())),
        None => None,
    }
}

fn not_after(a: &str, b: &str) -> (r: bool)
    ensures
        r == !(npm_version_order(a@, b@) > 0),
{
    match compare_npm_versions(a, b) {
        Ordering::Greater => false,
        Ordering::Equal => true,
        Ordering::Less => true,
    }
}

/// The version a range resolves to (see `chosen_version`).  The range's
/// bounds must fit in `u64` (see `fits_at`).
pub fn choose_npm_version(
    name: &str,
    requirement: &str,
    root: &NpmRoot,
    cutoff: Option<(i64, u32)>,
) -> (r: Result<String, OmcRegistryError>)
    requires
        root.tags.wf(),
        root.time.wf(),
        fits_at(requirement@, 1),
    ensures
        match chosen_version(*root, requirement@, cutoff) {
            Ok(Some(v)) => r matches Ok(x) && x@ == v,
            Ok(None) => r matches Err(OmcRegistryError::UnsatisfiedRequirement { name: n, requirement: q })
                && n@ == name@ && q@ == requirement@,
            Err(m) => r matches Err(OmcRegistryError::UnsupportedSpec(x)) && x@ == m,
        },
{
    if let Some(v) = dist_tag_of(root, requirement) {
        if npm_version_published_before(root, v.as_str(), cutoff)? {
            return Ok(v);
        }
    }
    let ghost vs = strings_view(root.versions@);
    let mut best: Option<String> = None;
    let mut i: usize = 0;
    assert(vs.take(0) =~= Seq::<Seq<char>>::empty());
    while i < root.versions.len()
        invariant
            i <= root.versions@.len(),
            vs == strings_view(root.versions@),
            root.time.wf(),
            fits_at(requirement@, 1),
            dist_tag(*root, requirement@) is None || published_before(
                *root,
                dist_tag(*root, requirement@)->0,
                cutoff,
            ) == Ok::<bool, Seq<char>>(false),
            eligible(vs.take(i as int), *root, requirement@, cutoff) is Ok,
            match best {
                None => eligible(vs.take(i as int), *root, requirement@, cutoff)->Ok_0.len() == 0,
                Some(b) => eligible(vs.take(i as int), *root, requirement@, cutoff)->Ok_0.len() > 0
                    && b@ == max_version(eligible(vs.take(i as int), *root, requirement@, cutoff)->Ok_0),
            },
        decreases root.versions.len() - i,
    {
        proof {
            let t = vs.take(i + 1);
            assert(t.drop_last() =~= vs.take(i as int));
            assert(t.last() == root.versions@[i as int]@);
        }
        let v = root.versions[i].as_str();
        if npm_version_satisfies(v, requirement) {
            match npm_version_published_before(root, v, cutoff) {
                Err(e) => {
                    proof {
                        lemma_eligible_stays_refused(vs, *root, requirement@, cutoff, i as int);
                    }
                    return Err(e);
                },
                Ok(true) => {
                    let ghost es = eligible(vs.take(i as int), *root, requirement@, cutoff)->Ok_0;
                    proof {
                        assert(es.push(v@).drop_last() =~= es);
                    }
                    best = match best {
                        None => Some(root.versions[i].clone()),
                        Some(b) => if not_after(b.as_str(), v) {
                            Some(root.versions[i].clone())
                        } else {
                            Some(b)
                        },
                    };
                },
                Ok(false) => {},
            }
        }
        i = i + 1;
    }
    assert(vs.take(vs.len() as int) =~= vs);
    match best {
        Some(b) => Ok(b),
        None => Err(OmcRegistryError::UnsatisfiedRequirement { name: fixed(name), requirement: fixed(requirement) }),
    }
}

/// Once a version's publish time is refused, every longer run of versions
/// is refused with it.
proof fn lemma_eligible_stays_refused(
    vs: Seq<Seq<char>>,
    root: NpmRoot,
    requirement: Seq<char>,
    cutoff: Option<(i64, u32)>,
    i: int,
)
    requires
        0 <= i < vs.len(),
        eligible(vs.take(i + 1), root, requirement, cutoff) is Err,
    ensures
        eligible(vs, root, requirement, cutoff) == eligible(vs.take(i + 1), root, requirement, cutoff),
    decreases vs.len() - i,
{
    if i + 1 < vs.len() {
        let t = vs.take(i + 2);
        assert(t.drop_last() =~= vs.take(i + 1));
        lemma_eligible_stays_refused(vs, root, requirement, cutoff, i + 1);
    } else {
        assert(vs.take(i + 1) =~= vs);
    }
}

/// The version a range resolves to, for any range: nothing when the
/// range's bounds do not fit in `u64`.
pub fn choose_npm_version_checked(
    name: &str,
    requirement: &str,
    root: &NpmRoot,
    cutoff: Option<(i64, u32)>,
) -> (r: Option<Result<String, OmcRegistryError>>)
    requires
        root.tags.wf(),
        root.time.wf(),
    ensures
        r is None <==> !fits_at(requirement@, 1),
        match r {
            Some(res) => match chosen_version(*root, requirement@, cutoff) {
                Ok(Some(v)) => res matches Ok(x) && x@ == v,
                Ok(None) => res matches Err(
                    OmcRegistryError::UnsatisfiedRequirement { name: n, requirement: q },
                ) && n@ == name@ && q@ == requirement@,
                Err(m) => res matches Err(OmcRegistryError::UnsupportedSpec(x)) && x@ == m,
            },
            None => true,
        },
{
    if crate::npm_semver::npm_range_fits(requirement) {
        Some(choose_npm_version(name, requirement, root, cutoff))
    } else {
        None
    }
}

} // verus!
