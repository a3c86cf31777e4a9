//! Choosing among the files that package indexes and find-links offer for
//! a PyPI requirement, and the `--uploaded-prior-to` cutoff they are held
//! to.
use vstd::prelude::*;
use crate::error::OmcRegistryError;
use crate::npm_arguments::{fixed, message};
use crate::npm_choose::{
    instant_le, cutoff_instant, local_instant_of, max_clock_seconds, naive_date_instant,
    resolve_cutoff, CutoffForm, naive_date_instant_of,
    naive_datetime_instant, naive_datetime_instant_of, rfc3339_instant, rfc3339_instant_of,
};
use crate::npm_semver::{all_digit_chars, parse_u64_text};
use crate::pypi_files::{
    compat_opt, parse_sdist_name_and_version, parse_wheel_name_and_version, sdist_name_and_version,
    str_opt, wheel_compatible, wheel_name_and_version, wheel_tag_compatible,
    PythonWheelCompatibility,
};
use crate::pypi_key::pypi_version_ok;
use crate::pypi_release::{normalize_pypi_name, normalized_name};
use crate::pypi_listing::PypiPrereleasePolicy;
use crate::pypi_release::PypiBinaryMode;
use crate::pypi_requirement::{
    is_prerelease, prereleases_allowed, pypi_prereleases_allowed, pypi_version_is_prerelease,
    pypi_version_satisfies, version_satisfies,
};
use crate::pypi_version::{
    compare_pypi_versions_antisymmetric, compare_pypi_versions_transitive, pypi_version_order,
    version_order,
};
use crate::text::{chars_of, digits_value, is_digit, slice_of, string_from_chars, trim, trim_chars};

verus! {

/// A file an index or a find-links source offers for a package.
#[derive(Debug)]
pub struct PypiSimpleCandidate {
    pub url: String,
    pub download_url: Option<String>,
    pub local_path: Option<String>,
    pub filename: String,
    pub version: String,
    pub sha256: Option<String>,
    pub sdist: bool,
    pub upload_time: Option<String>,
    pub upload_time_required: bool,
}

// ---------------------------------------------------------------------------
// Cutoffs
// ---------------------------------------------------------------------------

/// A `PnD` duration's number of days.
pub open spec fn duration_days(value: Seq<char>) -> Option<i64> {
    if value.len() >= 2 && value[0] == 'P' && value.last() == 'D' {
        let d = value.subrange(1, value.len() - 1);
        if d.len() > 0 && all_digit_chars(d) && digits_value(d) <= i64::MAX {
            Some(digits_value(d) as i64)
        } else {
            None
        }
    } else {
        None
    }
}

pub fn parse_pypi_duration_days(value: &str) -> (r: Option<i64>)
    ensures
        r == duration_days(value@),
{
    let c = chars_of(value);
    if c.len() < 2 || c[0] != 'P' || c[c.len() - 1] != 'D' {
        return None;
    }
    let d = slice_of(c.as_slice(), 1, c.len() - 1);
    assert(d@ =~= value@.subrange(1, value@.len() - 1));
    let mut i: usize = 0;
    while i < d.len()
        invariant
            i <= d@.len(),
            forall|j: int| 0 <= j < i ==> #[trigger] is_digit(d@[j]),
            d@ == value@.subrange(1, value@.len() - 1),
            value@.len() >= 2,
            value@[0] == 'P',
            value@.last() == 'D',
        decreases d.len() - i,
    {
        if !('0' <= d[i] && d[i] <= '9') {
            assert(!is_digit(d@[i as int]));
            assert(!all_digit_chars(d@));
            return None;
        }
        i = i + 1;
    }
    assert(all_digit_chars(d@));
    if d.len() > 0 {
        assert(is_digit(d@[0]));
    }
    match parse_u64_text(d.as_slice()) {
        Some(n) => if d.len() > 0 && n <= 9223372036854775807u64 {
            Some(n as i64)
        } else {
            None
        },
        None => None,
    }
}

/// The instant an upload time names, where it is an RFC 3339 time.
pub fn parse_pypi_upload_time(value: &str) -> (r: Option<(i64, u32)>)
    ensures
        r == rfc3339_instant(value@),
{
    rfc3339_instant_of(value)
}

/// The system clock's reading since the Unix epoch, as seconds and
/// nanoseconds (`SystemTime::now().duration_since(UNIX_EPOCH)`); none when
/// the clock reads before the epoch.  What it reads depends on the clock,
/// so only what holds of every reading is stated: `Duration::subsec_nanos`
/// is below one second.
#[verifier::external_body]
fn system_clock() -> (r: Option<(u64, u32)>)
    ensures
        r matches Some(t) ==> t.1 < 1_000_000_000,
{
    match std::time::SystemTime::now().duration_since(std::time::UNIX_EPOCH) {
        Ok(d) => Some((d.as_secs(), d.subsec_nanos())),
        Err(_) => None,
    }
}

/// The refusal when the clock cannot be read as a cutoff.
pub open spec fn clock_message() -> Seq<char> {
    "pip --uploaded-prior-to needs a system clock between 1970 and chrono's last year"@
}

/// A clock reading as an instant, where it lies between the epoch and the
/// last instant that can be read.
pub fn clock_instant(reading: Option<(u64, u32)>) -> (r: Option<(i64, u32)>)
    ensures
        match reading {
            Some(t) => if t.0 <= max_clock_seconds() {
                r == Some((t.0 as i64, t.1))
            } else {
                r is None
            },
            None => r is None,
        },
{
    match reading {
        Some(t) => if t.0 <= 8_300_000_000_000u64 {
            Some((t.0 as i64, t.1))
        } else {
            None
        },
        None => None,
    }
}

/// A duration of days goes back no further than the clock can.
pub open spec fn prior_to_in_range(value: Seq<char>) -> bool {
    duration_days(trim(value)) matches Some(d) ==> d <= 90_000_000
}

/// The form of a `--uploaded-prior-to` value: a `PnD` duration (that many
/// days before now), an RFC 3339 time, or a date (its midnight) or a date
/// and time, both in the machine's time zone; none when it is in none of
/// these forms.
pub open spec fn prior_to_form(v: Seq<char>) -> Option<CutoffForm> {
    if duration_days(v) is Some {
        Some(CutoffForm::DaysAgo(duration_days(v)->0))
    } else if rfc3339_instant(v) is Some {
        Some(CutoffForm::Instant(rfc3339_instant(v)->0))
    } else if naive_date_instant(v, "%Y-%m-%d"@) is Some {
        Some(CutoffForm::LocalTime(naive_date_instant(v, "%Y-%m-%d"@)->0))
    } else if naive_datetime_instant(v, "%Y-%m-%dT%H:%M:%S%.f"@) is Some {
        Some(CutoffForm::LocalTime(naive_datetime_instant(v, "%Y-%m-%dT%H:%M:%S%.f"@)->0))
    } else if naive_datetime_instant(v, "%Y-%m-%d %H:%M:%S%.f"@) is Some {
        Some(CutoffForm::LocalTime(naive_datetime_instant(v, "%Y-%m-%d %H:%M:%S%.f"@)->0))
    } else {
        None
    }
}

/// How the form of a `--uploaded-prior-to` value reads; refused when blank
/// or in none of the forms.
pub open spec fn prior_to_form_outcome(value: Seq<char>, r: Result<CutoffForm, OmcRegistryError>) -> bool {
    let v = trim(value);
    if v.len() == 0 {
        r matches Err(OmcRegistryError::UnsupportedSpec(m)) && m@
            == "pip --uploaded-prior-to needs a datetime or PnD duration"@
    } else {
        match prior_to_form(v) {
            Some(f) => r == Ok::<CutoffForm, OmcRegistryError>(f),
            None => r matches Err(OmcRegistryError::UnsupportedSpec(m)) && m@
                == "unsupported pip --uploaded-prior-to value `"@ + v + "`"@,
        }
    }
}

/// Reads the form of a `--uploaded-prior-to` value.
pub fn pypi_prior_to_form(value: &str) -> (r: Result<CutoffForm, OmcRegistryError>)
    ensures
        prior_to_form_outcome(value@, r),
{
    let t = trim_chars(chars_of(value).as_slice());
    if t.len() == 0 {
        return Err(
            OmcRegistryError::UnsupportedSpec(
                fixed("pip --uploaded-prior-to needs a datetime or PnD duration"),
            ),
        );
    }
    let v = string_from_chars(t.as_slice());
    if let Some(days) = parse_pypi_duration_days(v.as_str()) {
        return Ok(CutoffForm::DaysAgo(days));
    }
    if let Some(i) = rfc3339_instant_of(v.as_str()) {
        return Ok(CutoffForm::Instant(i));
    }
    if let Some(n) = naive_date_instant_of(v.as_str(), "%Y-%m-%d") {
        return Ok(CutoffForm::LocalTime(n));
    }
    if let Some(n) = naive_datetime_instant_of(v.as_str(), "%Y-%m-%dT%H:%M:%S%.f") {
        return Ok(CutoffForm::LocalTime(n));
    }
    if let Some(n) = naive_datetime_instant_of(v.as_str(), "%Y-%m-%d %H:%M:%S%.f") {
        return Ok(CutoffForm::LocalTime(n));
    }
    Err(
        OmcRegistryError::UnsupportedSpec(
            message("unsupported pip --uploaded-prior-to value `", t.as_slice(), "`"),
        ),
    )
}

/// How a `--uploaded-prior-to` value reads: an RFC 3339 time is that
/// instant; a duration is that many days before a clock reading (refused
/// when the clock reads before 1970 or beyond what can be read); a local
/// date or date and time is read in the machine's time zone (which the
/// contract cannot name, so only success is stated there); refused when
/// blank or in none of the forms.
pub open spec fn prior_to_outcome(value: Seq<char>, r: Result<(i64, u32), OmcRegistryError>) -> bool {
    let v = trim(value);
    if v.len() == 0 {
        r matches Err(OmcRegistryError::UnsupportedSpec(m)) && m@
            == "pip --uploaded-prior-to needs a datetime or PnD duration"@
    } else {
        match prior_to_form(v) {
            Some(CutoffForm::Instant(t)) => r == Ok::<(i64, u32), OmcRegistryError>(t),
            Some(CutoffForm::DaysAgo(d)) => (r matches Ok(t) && exists|now: (i64, u32)|
                0 <= now.0 <= max_clock_seconds() && now.1 < 1_000_000_000 && #[trigger] cutoff_instant(
                    CutoffForm::DaysAgo(d),
                    now,
                    None,
                ) == t) || (r matches Err(OmcRegistryError::UnsupportedSpec(m)) && m@ == clock_message()),
            Some(_) => r is Ok,
            None => r matches Err(OmcRegistryError::UnsupportedSpec(m)) && m@
                == "unsupported pip --uploaded-prior-to value `"@ + v + "`"@,
        }
    }
}

/// Reads a `--uploaded-prior-to` value.
pub fn parse_pypi_uploaded_prior_to(value: &str) -> (r: Result<(i64, u32), OmcRegistryError>)
    requires
        prior_to_in_range(value@),
    ensures
        prior_to_outcome(value@, r),
{
    match pypi_prior_to_form(value) {
        Ok(form) => match form {
            CutoffForm::DaysAgo(_) => match clock_instant(system_clock()) {
                Some(now) => {
                    let t = resolve_cutoff(form, now, None);
                    assert(cutoff_instant(form, now, None) == t);
                    Ok(t)
                },
                None => Err(
                    OmcRegistryError::UnsupportedSpec(
                        fixed("pip --uploaded-prior-to needs a system clock between 1970 and chrono's last year"),
                    ),
                ),
            },
            CutoffForm::LocalTime(n) => Ok(resolve_cutoff(form, (0, 0), local_instant_of(n))),
            CutoffForm::Instant(t) => Ok(t),
        },
        Err(e) => Err(e),
    }
}

/// The refusal of a candidate whose upload time is needed and missing.
pub open spec fn missing_upload_time_message(package: Seq<char>) -> Seq<char> {
    "pip --uploaded-prior-to requires upload-time metadata for pypi:"@ + package
}

pub fn pypi_missing_upload_time_error(package: &str) -> (e: OmcRegistryError)
    ensures
        e matches OmcRegistryError::UnsupportedSpec(m) && m@ == missing_upload_time_message(package@),
{
    let m = message(
        "pip --uploaded-prior-to requires upload-time metadata for pypi:",
        chars_of(package).as_slice(),
        "",
    );
    proof {
        reveal_strlit("");
        assert(m@ =~= missing_upload_time_message(package@));
    }
    OmcRegistryError::UnsupportedSpec(m)
}

/// `a` is strictly before `b`.
pub open spec fn instant_lt(a: (i64, u32), b: (i64, u32)) -> bool {
    a.0 < b.0 || (a.0 == b.0 && a.1 < b.1)
}

/// One candidate in front of the candidates after it: kept where it needs
/// no upload time or was uploaded before the cutoff, refused where it needs
/// an upload time and has none that reads as an RFC 3339 time.
pub open spec fn upload_step(
    c: PypiSimpleCandidate,
    cutoff: (i64, u32),
    rest: Result<Seq<PypiSimpleCandidate>, ()>,
) -> Result<Seq<PypiSimpleCandidate>, ()> {
    if !c.upload_time_required {
        match rest {
            Ok(r) => Ok(seq![c] + r),
            Err(e) => Err(e),
        }
    } else {
        match c.upload_time {
            None => Err(()),
            Some(t) => match rfc3339_instant(t@) {
                None => Err(()),
                Some(i) => match rest {
                    Ok(r) => if instant_lt(i, cutoff) {
                        Ok(seq![c] + r)
                    } else {
                        Ok(r)
                    },
                    Err(e) => Err(e),
                },
            },
        }
    }
}

/// The candidates uploaded before the cutoff, in order, with those that
/// need no upload time; `Err` at the first one that needs an upload time
/// and has none that reads as an RFC 3339 time.
pub open spec fn uploaded_before(cs: Seq<PypiSimpleCandidate>, cutoff: (i64, u32)) -> Result<
    Seq<PypiSimpleCandidate>,
    (),
>
    decreases cs.len(),
{
    if cs.len() == 0 {
        Ok(Seq::empty())
    } else {
        upload_step(cs[0], cutoff, uploaded_before(cs.drop_first(), cutoff))
    }
}

/// Keeps the candidates uploaded before the cutoff; refused where one that
/// needs an upload time has none.
pub fn filter_pypi_candidates_uploaded_prior_to(
    candidates: Vec<PypiSimpleCandidate>,
    cutoff: (i64, u32),
    package: &str,
) -> (r: Result<Vec<PypiSimpleCandidate>, OmcRegistryError>)
    ensures
        match uploaded_before(candidates@, cutoff) {
            Ok(kept) => r matches Ok(v) && v@ == kept,
            Err(_) => r matches Err(OmcRegistryError::UnsupportedSpec(m)) && m@
                == missing_upload_time_message(package@),
        },
{
    let ghost all = candidates@;
    let mut rest = candidates;
    assert(rest.len() == all.len());
    let mut kept: Vec<PypiSimpleCandidate> = Vec::new();
    let mut consumed: usize = 0;
    while rest.len() > 0
        invariant
            consumed + rest@.len() == all.len(),
            all.len() <= usize::MAX,
            rest@ =~= all.skip(consumed as int),
            all == candidates@,
            uploaded_before(all, cutoff) == match uploaded_before(all.skip(consumed as int), cutoff) {
                Ok(r) => Ok(kept@ + r),
                Err(e) => Err(e),
            },
        decreases rest.len(),
    {
        let ghost before = kept@;
        let c = rest.remove(0);
        proof {
            assert(c == all[consumed as int]);
            assert(all.skip(consumed as int).drop_first() =~= all.skip(consumed + 1));
            assert(all.skip(consumed as int).len() > 0);
            assert(all.skip(consumed as int)[0] == c);
            assert(uploaded_before(all.skip(consumed as int), cutoff) == upload_step(
                c,
                cutoff,
                uploaded_before(all.skip(consumed + 1), cutoff),
            ));
        }
        if !c.upload_time_required {
            let ghost cv = c;
            kept.push(c);
            proof {
                let tail = uploaded_before(all.skip(consumed + 1), cutoff);
                assert(kept@ == before.push(cv));
                if tail is Ok {
                    assert(before + (seq![cv] + tail->Ok_0) =~= kept@ + tail->Ok_0);
                }
            }
        } else {
            let instant = match &c.upload_time {
                None => None,
                Some(t) => parse_pypi_upload_time(t.as_str()),
            };
            match instant {
                None => {
                    return Err(pypi_missing_upload_time_error(package));
                },
                Some(i) => {
                    if i.0 < cutoff.0 || (i.0 == cutoff.0 && i.1 < cutoff.1) {
                        let ghost cv = c;
                        kept.push(c);
                        proof {
                            let tail = uploaded_before(all.skip(consumed + 1), cutoff);
                            assert(kept@ == before.push(cv));
                            if tail is Ok {
                                assert(before + (seq![cv] + tail->Ok_0) =~= kept@ + tail->Ok_0);
                            }
                        }
                    }
                },
            }
        }
        consumed = consumed + 1;
        proof {
            assert(rest@ =~= all.skip(consumed as int));
        }
    }
    proof {
        assert(all.skip(consumed as int) =~= Seq::<PypiSimpleCandidate>::empty());
        assert(kept@ + Seq::<PypiSimpleCandidate>::empty() =~= kept@);
    }
    Ok(kept)
}

// ---------------------------------------------------------------------------
// The choice
// ---------------------------------------------------------------------------

/// Whether a candidate is of the kind a binary mode asks for.
pub open spec fn candidate_mode_matches(c: PypiSimpleCandidate, mode: Option<PypiBinaryMode>) -> bool {
    match mode {
        None => true,
        Some(PypiBinaryMode::Binary) => !c.sdist,
        Some(PypiBinaryMode::Source) => c.sdist,
    }
}

pub fn pypi_candidate_matches_binary_mode(
    candidate: &PypiSimpleCandidate,
    mode: Option<PypiBinaryMode>,
) -> (b: bool)
    ensures
        b == candidate_mode_matches(*candidate, mode),
{
    match mode {
        None => true,
        Some(PypiBinaryMode::Binary) => !candidate.sdist,
        Some(PypiBinaryMode::Source) => candidate.sdist,
    }
}

/// The candidates whose version satisfies the requirement and whose kind
/// the mode admits, in order; `None` where checking a version would fail.
pub open spec fn satisfying(
    cs: Seq<PypiSimpleCandidate>,
    requirement: Seq<char>,
    mode: Option<PypiBinaryMode>,
) -> Option<Seq<PypiSimpleCandidate>>
    decreases cs.len(),
{
    if cs.len() == 0 {
        Some(Seq::empty())
    } else {
        let c = cs[0];
        match (version_satisfies(c.version@, requirement), satisfying(cs.drop_first(), requirement, mode)) {
            (Some(ok), Some(r)) => if ok && candidate_mode_matches(c, mode) {
                Some(seq![c] + r)
            } else {
                Some(r)
            },
            _ => None,
        }
    }
}

pub open spec fn candidate_versions(cs: Seq<PypiSimpleCandidate>) -> Seq<Seq<char>> {
    Seq::new(cs.len(), |i: int| cs[i].version@)
}

/// The final releases among some candidates, in order.
pub open spec fn final_candidates(cs: Seq<PypiSimpleCandidate>) -> Seq<PypiSimpleCandidate>
    decreases cs.len(),
{
    if cs.len() == 0 {
        cs
    } else if is_prerelease(cs.last().version@) {
        final_candidates(cs.drop_last())
    } else {
        final_candidates(cs.drop_last()).push(cs.last())
    }
}

pub open spec fn versions_ok(cs: Seq<PypiSimpleCandidate>) -> bool {
    forall|i: int| 0 <= i < cs.len() ==> pypi_version_ok(#[trigger] cs[i].version@)
}

/// The candidates the prerelease policy lets through; `None` where reading
/// a version would fail.
pub open spec fn policy_candidates(
    cs: Seq<PypiSimpleCandidate>,
    requirement: Seq<char>,
    policy: PypiPrereleasePolicy,
) -> Option<Seq<PypiSimpleCandidate>> {
    if policy == PypiPrereleasePolicy::OnlyFinal {
        if versions_ok(cs) {
            Some(final_candidates(cs))
        } else {
            None
        }
    } else {
        match prereleases_allowed(
            requirement,
            policy == PypiPrereleasePolicy::Allow,
            candidate_versions(cs),
        ) {
            None => None,
            Some(true) => Some(cs),
            Some(false) => if versions_ok(cs) {
                Some(final_candidates(cs))
            } else {
                None
            },
        }
    }
}

/// `a` ranks above `b`: a higher version, or the same version as a wheel
/// against a source archive.
pub open spec fn ranks_above(a: PypiSimpleCandidate, b: PypiSimpleCandidate) -> bool {
    version_order(a.version@, b.version@) > 0 || (version_order(a.version@, b.version@) == 0
        && !a.sdist && b.sdist)
}

/// The best of some candidates: the highest version, wheels before source
/// archives of it, the last of otherwise equal ones.
pub open spec fn best_candidate(cs: Seq<PypiSimpleCandidate>) -> PypiSimpleCandidate
    decreases cs.len(),
{
    if cs.len() <= 1 {
        cs[0]
    } else {
        let m = best_candidate(cs.drop_last());
        if ranks_above(m, cs.last()) {
            m
        } else {
            cs.last()
        }
    }
}

/// The candidate to install for a requirement: among those whose version
/// satisfies it, whose kind the mode admits, that were uploaded before the
/// cutoff (if any) and that the prerelease policy lets through, the best
/// one.  `Ok(None)` where none is left; `Err` where a candidate that needs
/// an upload time has none; `None` where the choice would fail on a version
/// it cannot read.
pub open spec fn chosen_candidate(
    cs: Seq<PypiSimpleCandidate>,
    requirement: Seq<char>,
    mode: Option<PypiBinaryMode>,
    cutoff: Option<(i64, u32)>,
    policy: PypiPrereleasePolicy,
) -> Option<Result<Option<PypiSimpleCandidate>, ()>> {
    match satisfying(cs, requirement, mode) {
        None => None,
        Some(a) => match (match cutoff {
            None => Ok(a),
            Some(t) => uploaded_before(a, t),
        }) {
            Err(_) => Some(Err(())),
            Ok(b) => match policy_candidates(b, requirement, policy) {
                None => None,
                Some(k) => if k.len() == 0 {
                    Some(Ok(None))
                } else if k.len() == 1 || versions_ok(k) {
                    Some(Ok(Some(best_candidate(k))))
                } else {
                    None
                },
            },
        },
    }
}

fn satisfying_candidates(
    candidates: Vec<PypiSimpleCandidate>,
    requirement: &str,
    mode: Option<PypiBinaryMode>,
) -> (r: Vec<PypiSimpleCandidate>)
    requires
        satisfying(candidates@, requirement@, mode) is Some,
    ensures
        satisfying(candidates@, requirement@, mode) == Some(r@),
{
    let ghost all = candidates@;
    let mut rest = candidates;
    assert(rest.len() == all.len());
    let mut kept: Vec<PypiSimpleCandidate> = Vec::new();
    let mut consumed: usize = 0;
    assert(all.skip(0) =~= all);
    assert(Seq::<PypiSimpleCandidate>::empty() + satisfying(all, requirement@, mode)->0 =~= satisfying(
        all,
        requirement@,
        mode,
    )->0);
    while rest.len() > 0
        invariant
            consumed + rest@.len() == all.len(),
            all.len() <= usize::MAX,
            rest@ =~= all.skip(consumed as int),
            satisfying(all.skip(consumed as int), requirement@, mode) is Some,
            satisfying(all, requirement@, mode) == Some(
                kept@ + satisfying(all.skip(consumed as int), requirement@, mode)->0,
            ),
        decreases rest.len(),
    {
        let c = rest.remove(0);
        proof {
            assert(c == all[consumed as int]);
            assert(all.skip(consumed as int).drop_first() =~= all.skip(consumed + 1));
        }
        let ok = pypi_version_satisfies(c.version.as_str(), requirement);
        if ok && pypi_candidate_matches_binary_mode(&c, mode) {
            kept.push(c);
            proof {
                let tail = satisfying(all.skip(consumed + 1), requirement@, mode)->0;
                assert(kept@.drop_last() + (seq![kept@.last()] + tail) =~= kept@ + tail);
            }
        }
        consumed = consumed + 1;
        proof {
            assert(rest@ =~= all.skip(consumed as int));
        }
    }
    proof {
        assert(all.skip(consumed as int) =~= Seq::<PypiSimpleCandidate>::empty());
        assert(kept@ + Seq::<PypiSimpleCandidate>::empty() =~= kept@);
    }
    kept
}

fn final_candidates_of(candidates: Vec<PypiSimpleCandidate>) -> (r: Vec<PypiSimpleCandidate>)
    requires
        versions_ok(candidates@),
    ensures
        r@ == final_candidates(candidates@),
{
    let ghost all = candidates@;
    let mut rest = candidates;
    assert(rest.len() == all.len());
    let mut kept: Vec<PypiSimpleCandidate> = Vec::new();
    let mut consumed: usize = 0;
    assert(all.take(0) =~= Seq::<PypiSimpleCandidate>::empty());
    while rest.len() > 0
        invariant
            consumed + rest@.len() == all.len(),
            all.len() <= usize::MAX,
            rest@ =~= all.skip(consumed as int),
            versions_ok(all),
            kept@ == final_candidates(all.take(consumed as int)),
        decreases rest.len(),
    {
        let c = rest.remove(0);
        proof {
            assert(c == all[consumed as int]);
            assert(all.take(consumed + 1).drop_last() =~= all.take(consumed as int));
            assert(all.take(consumed + 1).last() == c);
            assert(pypi_version_ok(all[consumed as int].version@));
        }
        if !pypi_version_is_prerelease(c.version.as_str()) {
            kept.push(c);
        }
        consumed = consumed + 1;
        proof {
            assert(rest@ =~= all.skip(consumed as int));
        }
    }
    assert(all.take(all.len() as int) =~= all);
    kept
}

fn versions_of(cs: &Vec<PypiSimpleCandidate>) -> (r: Vec<String>)
    ensures
        crate::pypi_requirement::strings_view(r@) == candidate_versions(cs@),
{
    let mut out: Vec<String> = Vec::new();
    let mut i: usize = 0;
    while i < cs.len()
        invariant
            i <= cs@.len(),
            crate::pypi_requirement::strings_view(out@) == candidate_versions(cs@).take(i as int),
        decreases cs.len() - i,
    {
        let v = string_from_chars(chars_of(cs[i].version.as_str()).as_slice());
        let ghost before = out@;
        let ghost vv = v@;
        out.push(v);
        proof {
            assert(crate::pypi_requirement::strings_view(out@) =~= crate::pypi_requirement::strings_view(before).push(vv));
            assert(crate::pypi_requirement::strings_view(out@) =~= candidate_versions(cs@).take(
                i + 1,
            ));
        }
        i = i + 1;
    }
    assert(candidate_versions(cs@).take(cs@.len() as int) =~= candidate_versions(cs@));
    out
}

fn take_best(candidates: Vec<PypiSimpleCandidate>) -> (r: PypiSimpleCandidate)
    requires
        candidates@.len() >= 1,
        candidates@.len() == 1 || versions_ok(candidates@),
    ensures
        r == best_candidate(candidates@),
{
    let ghost all = candidates@;
    let mut rest = candidates;
    assert(rest.len() == all.len());
    let mut best = rest.remove(0);
    let mut consumed: usize = 1;
    proof {
        assert(best == all[0]);
        assert(all.take(1) =~= seq![all[0]]);
    }
    while rest.len() > 0
        invariant
            1 <= consumed,
            consumed + rest@.len() == all.len(),
            all.len() <= usize::MAX,
            rest@ =~= all.skip(consumed as int),
            all.len() == 1 || versions_ok(all),
            best == best_candidate(all.take(consumed as int)),
        decreases rest.len(),
    {
        let c = rest.remove(0);
        proof {
            assert(c == all[consumed as int]);
            assert(all.take(consumed + 1).drop_last() =~= all.take(consumed as int));
            assert(all.take(consumed + 1).last() == c);
            assert(pypi_version_ok(all[consumed as int].version@));
            let b = best_candidate(all.take(consumed as int));
            assert(all.take(consumed as int).contains(b)) by {
                lemma_best_within(all.take(consumed as int));
            }
            let k = choose|k: int| 0 <= k < all.take(consumed as int).len() && all.take(
                consumed as int,
            )[k] == b;
            assert(all.take(consumed as int)[k] == all[k]);
            assert(pypi_version_ok(best.version@));
        }
        let order = pypi_version_order(best.version.as_str(), c.version.as_str());
        let above = order > 0 || (order == 0 && !best.sdist && c.sdist);
        if !above {
            best = c;
        }
        consumed = consumed + 1;
        proof {
            assert(rest@ =~= all.skip(consumed as int));
        }
    }
    assert(all.take(all.len() as int) =~= all);
    best
}

proof fn lemma_best_within(cs: Seq<PypiSimpleCandidate>)
    requires
        cs.len() >= 1,
    ensures
        cs.contains(best_candidate(cs)),
    decreases cs.len(),
{
    if cs.len() == 1 {
        assert(cs[0] == best_candidate(cs));
    } else {
        lemma_best_within(cs.drop_last());
        let m = best_candidate(cs.drop_last());
        let k = choose|k: int| 0 <= k < cs.drop_last().len() && cs.drop_last()[k] == m;
        assert(cs[k] == cs.drop_last()[k]);
        assert(cs[cs.len() - 1] == cs.last());
    }
}

/// The candidate to install for a requirement (see `chosen_candidate`):
/// `UnsatisfiedRequirement` where none is left, the missing upload time
/// refusal where a candidate needs one and has none.
pub fn choose_pypi_candidate(
    name: &str,
    requirement: &str,
    candidates: Vec<PypiSimpleCandidate>,
    mode: Option<PypiBinaryMode>,
    cutoff: Option<(i64, u32)>,
    policy: PypiPrereleasePolicy,
) -> (r: Result<PypiSimpleCandidate, OmcRegistryError>)
    requires
        chosen_candidate(candidates@, requirement@, mode, cutoff, policy) is Some,
    ensures
        match chosen_candidate(candidates@, requirement@, mode, cutoff, policy) {
            Some(Ok(Some(c))) => r == Ok::<PypiSimpleCandidate, OmcRegistryError>(c),
            Some(Ok(None)) => r matches Err(
                OmcRegistryError::UnsatisfiedRequirement { name: n, requirement: q },
            ) && n@ == name@ && q@ == requirement@,
            _ => r matches Err(OmcRegistryError::UnsupportedSpec(m)) && m@
                == missing_upload_time_message(name@),
        },
{
    let ghost all2 = candidates@;
    let matching = satisfying_candidates(candidates, requirement, mode);
    let ghost a = matching@;
    let timely = match cutoff {
        None => matching,
        Some(t) => match filter_pypi_candidates_uploaded_prior_to(matching, t, name) {
            Ok(kept) => kept,
            Err(e) => {
                return Err(e);
            },
        },
    };
    let ghost b = timely@;
    assert(b == match cutoff {
        None => a,
        Some(t) => uploaded_before(a, t)->Ok_0,
    });
    let kept = match policy {
        PypiPrereleasePolicy::OnlyFinal => final_candidates_of(timely),
        _ => {
            let allow = match policy {
                PypiPrereleasePolicy::Allow => true,
                _ => false,
            };
            let versions = versions_of(&timely);
            if pypi_prereleases_allowed(requirement, allow, &versions) {
                timely
            } else {
                final_candidates_of(timely)
            }
        },
    };
    if kept.len() == 0 {
        let n = string_from_chars(chars_of(name).as_slice());
        let q = string_from_chars(chars_of(requirement).as_slice());
        return Err(OmcRegistryError::UnsatisfiedRequirement { name: n, requirement: q });
    }
    Ok(take_best(kept))
}

// ---------------------------------------------------------------------------
// Files offered
// ---------------------------------------------------------------------------

/// What a file name offered for `package` gives a candidate: its version
/// and whether it is a source archive, where it is a wheel or a source
/// archive of that package, its `requires-python` admits the target (where
/// both are known), and a wheel carries tags the target (or, without one,
/// the running interpreter) accepts.  `Some(None)` for a file that does not
/// qualify; `None` where checking the version would fail.
pub open spec fn candidate_file(
    filename: Seq<char>,
    package: Seq<char>,
    requires_python: Option<Seq<char>>,
    target_python: Option<Seq<char>>,
    wheel: Option<PythonWheelCompatibility>,
    current: Option<PythonWheelCompatibility>,
) -> Option<Option<(Seq<char>, bool)>> {
    let parsed = match wheel_name_and_version(filename) {
        Some((n, v)) => Some((n, v, false)),
        None => match sdist_name_and_version(filename) {
            Some((n, v)) => Some((n, v, true)),
            None => None,
        },
    };
    match parsed {
        None => Some(None),
        Some((n, v, sdist)) => if n != normalized_name(package) {
            Some(None)
        } else {
            let python_ok = match (requires_python, target_python) {
                (Some(r), Some(t)) => version_satisfies(t, r),
                _ => Some(true),
            };
            match python_ok {
                None => None,
                Some(false) => Some(None),
                Some(true) => if sdist {
                    Some(Some((v, true)))
                } else {
                    let compatible = match wheel {
                        Some(c) => wheel_compatible(filename, c),
                        None => match current {
                            Some(c) => wheel_compatible(filename, c),
                            None => true,
                        },
                    };
                    if compatible {
                        Some(Some((v, false)))
                    } else {
                        Some(None)
                    }
                },
            }
        },
    }
}

/// The version of a file offered for `package` and whether it is a source
/// archive, where the file qualifies (see `candidate_file`); `current`
/// describes the running interpreter, as far as it could be asked.
pub fn pypi_candidate_file(
    filename: &str,
    package: &str,
    requires_python: Option<&str>,
    target_python: Option<&str>,
    wheel_compatibility: Option<&PythonWheelCompatibility>,
    current: Option<&PythonWheelCompatibility>,
) -> (r: Option<(String, bool)>)
    requires
        candidate_file(filename@, package@, str_opt(requires_python), str_opt(target_python), compat_opt(wheel_compatibility), compat_opt(current)) is Some,
    ensures
        match candidate_file(
            filename@,
            package@,
            str_opt(requires_python),
            str_opt(target_python),
            compat_opt(wheel_compatibility),
            compat_opt(current),
        ) {
            Some(Some((v, sdist))) => r matches Some((x, y)) && x@ == v && y == sdist,
            _ => r is None,
        },
{
    let (name, version, sdist) = match parse_wheel_name_and_version(filename) {
        Some((n, v)) => (n, v, false),
        None => match parse_sdist_name_and_version(filename) {
            Some((n, v)) => (n, v, true),
            None => {
                return None;
            },
        },
    };
    let wanted = normalize_pypi_name(chars_of(package).as_slice());
    let nc = chars_of(name.as_str());
    if !crate::text::eq_chars(nc.as_slice(), wanted.as_slice()) {
        return None;
    }
    let python_ok = match (requires_python, target_python) {
        (Some(r), Some(t)) => pypi_version_satisfies(t, r),
        _ => true,
    };
    if !python_ok {
        return None;
    }
    if sdist {
        return Some((version, true));
    }
    let compatible = match wheel_compatibility {
        Some(c) => wheel_tag_compatible(filename, c),
        None => match current {
            Some(c) => wheel_tag_compatible(filename, c),
            None => true,
        },
    };
    if compatible {
        Some((version, false))
    } else {
        None
    }
}

// ---------------------------------------------------------------------------
// Laws
// ---------------------------------------------------------------------------

proof fn lemma_satisfying_members(
    cs: Seq<PypiSimpleCandidate>,
    requirement: Seq<char>,
    mode: Option<PypiBinaryMode>,
)
    requires
        satisfying(cs, requirement, mode) is Some,
    ensures
        forall|i: int|
            0 <= i < satisfying(cs, requirement, mode)->0.len() ==> {
                let c = #[trigger] satisfying(cs, requirement, mode)->0[i];
                &&& version_satisfies(c.version@, requirement) == Some(true)
                &&& candidate_mode_matches(c, mode)
            },
    decreases cs.len(),
{
    if cs.len() > 0 {
        lemma_satisfying_members(cs.drop_first(), requirement, mode);
        let r = satisfying(cs.drop_first(), requirement, mode)->0;
        let s = satisfying(cs, requirement, mode)->0;
        assert forall|i: int| 0 <= i < s.len() implies {
            let c = #[trigger] s[i];
            &&& version_satisfies(c.version@, requirement) == Some(true)
            &&& candidate_mode_matches(c, mode)
        } by {
            if s.len() == r.len() + 1 && s == seq![cs[0]] + r {
                if i > 0 {
                    assert(s[i] == r[i - 1]);
                }
            } else {
                assert(s == r);
            }
        }
    }
}

proof fn lemma_uploaded_within(cs: Seq<PypiSimpleCandidate>, cutoff: (i64, u32))
    requires
        uploaded_before(cs, cutoff) is Ok,
    ensures
        forall|i: int|
            0 <= i < uploaded_before(cs, cutoff)->Ok_0.len() ==> cs.contains(
                #[trigger] uploaded_before(cs, cutoff)->Ok_0[i],
            ),
    decreases cs.len(),
{
    if cs.len() > 0 {
        let tail = cs.drop_first();
        lemma_uploaded_within(tail, cutoff);
        let r = uploaded_before(tail, cutoff)->Ok_0;
        let s = uploaded_before(cs, cutoff)->Ok_0;
        assert forall|i: int| 0 <= i < s.len() implies cs.contains(#[trigger] s[i]) by {
            if s.len() == r.len() + 1 && s == seq![cs[0]] + r {
                if i == 0 {
                    assert(cs[0] == s[0]);
                } else {
                    assert(s[i] == r[i - 1]);
                    let j = choose|j: int| 0 <= j < tail.len() && tail[j] == r[i - 1];
                    assert(cs[j + 1] == tail[j]);
                }
            } else {
                assert(s == r);
                let j = choose|j: int| 0 <= j < tail.len() && tail[j] == s[i];
                assert(cs[j + 1] == tail[j]);
            }
        }
    }
}

proof fn lemma_finals_within(cs: Seq<PypiSimpleCandidate>)
    ensures
        forall|i: int| 0 <= i < final_candidates(cs).len() ==> cs.contains(#[trigger] final_candidates(cs)[i]),
    decreases cs.len(),
{
    if cs.len() > 0 {
        let p = cs.drop_last();
        lemma_finals_within(p);
        assert forall|i: int| 0 <= i < final_candidates(cs).len() implies cs.contains(
            #[trigger] final_candidates(cs)[i],
        ) by {
            if i < final_candidates(p).len() {
                assert(final_candidates(cs)[i] == final_candidates(p)[i]);
                let j = choose|j: int| 0 <= j < p.len() && p[j] == final_candidates(p)[i];
                assert(cs[j] == p[j]);
            } else {
                assert(cs[cs.len() - 1] == cs.last());
            }
        }
    }
}

/// Ranking is a total preorder on candidates with readable versions: one
/// that ranks no higher than a second, which ranks no higher than a third,
/// ranks no higher than the third; and of two, one does not rank above the
/// other both ways.
proof fn lemma_rank_order(a: PypiSimpleCandidate, b: PypiSimpleCandidate, c: PypiSimpleCandidate)
    requires
        pypi_version_ok(a.version@),
        pypi_version_ok(b.version@),
        pypi_version_ok(c.version@),
    ensures
        !ranks_above(a, b) && !ranks_above(b, c) ==> !ranks_above(a, c),
        ranks_above(a, b) ==> !ranks_above(b, a),
{
    compare_pypi_versions_antisymmetric(a.version@, b.version@);
    compare_pypi_versions_antisymmetric(b.version@, c.version@);
    compare_pypi_versions_antisymmetric(a.version@, c.version@);
    compare_pypi_versions_transitive(a.version@, b.version@, c.version@);
    compare_pypi_versions_transitive(c.version@, b.version@, a.version@);
    compare_pypi_versions_transitive(b.version@, c.version@, a.version@);
    compare_pypi_versions_transitive(c.version@, a.version@, b.version@);
}

/// The best of some candidates is one of them and none ranks above it.
pub proof fn best_candidate_ranks_highest(cs: Seq<PypiSimpleCandidate>)
    requires
        cs.len() >= 1,
        versions_ok(cs),
    ensures
        cs.contains(best_candidate(cs)),
        forall|i: int| 0 <= i < cs.len() ==> !ranks_above(#[trigger] cs[i], best_candidate(cs)),
    decreases cs.len(),
{
    lemma_best_within(cs);
    if cs.len() == 1 {
        compare_pypi_versions_antisymmetric(cs[0].version@, cs[0].version@);
        assert(!ranks_above(cs[0], best_candidate(cs)));
    } else {
        let p = cs.drop_last();
        assert(versions_ok(p)) by {
            assert forall|i: int| 0 <= i < p.len() implies pypi_version_ok(#[trigger] p[i].version@) by {
                assert(p[i] == cs[i]);
            }
        }
        best_candidate_ranks_highest(p);
        let m = best_candidate(p);
        let last = cs.last();
        let k = choose|k: int| 0 <= k < p.len() && p[k] == m;
        assert(p[k] == cs[k]);
        assert(pypi_version_ok(m.version@));
        assert(cs[cs.len() - 1] == last);
        assert(pypi_version_ok(last.version@));
        lemma_rank_order(last, m, last);
        lemma_rank_order(m, last, m);
        assert forall|i: int| 0 <= i < cs.len() implies !ranks_above(#[trigger] cs[i], best_candidate(cs)) by {
            if i < cs.len() - 1 {
                assert(cs[i] == p[i]);
                assert(pypi_version_ok(cs[i].version@));
                lemma_rank_order(cs[i], m, last);
            } else {
                compare_pypi_versions_antisymmetric(last.version@, last.version@);
            }
        }
    }
}

/// The candidate chosen for a requirement satisfies it, is of a kind the
/// binary mode admits, is among the candidates that passed every filter,
/// and none of those ranks above it.
pub proof fn chosen_candidate_is_best(
    cs: Seq<PypiSimpleCandidate>,
    requirement: Seq<char>,
    mode: Option<PypiBinaryMode>,
    cutoff: Option<(i64, u32)>,
    policy: PypiPrereleasePolicy,
)
    requires
        chosen_candidate(cs, requirement, mode, cutoff, policy) matches Some(Ok(Some(_))),
    ensures
        ({
            let c = chosen_candidate(cs, requirement, mode, cutoff, policy)->0->Ok_0->0;
            let a = satisfying(cs, requirement, mode)->0;
            let b = match cutoff {
                None => a,
                Some(t) => uploaded_before(a, t)->Ok_0,
            };
            let k = policy_candidates(b, requirement, policy)->0;
            &&& version_satisfies(c.version@, requirement) == Some(true)
            &&& candidate_mode_matches(c, mode)
            &&& k.contains(c)
            &&& k.len() >= 2 ==> forall|i: int| 0 <= i < k.len() ==> !ranks_above(#[trigger] k[i], c)
        }),
{
    let a = satisfying(cs, requirement, mode)->0;
    lemma_satisfying_members(cs, requirement, mode);
    let b = match cutoff {
        None => a,
        Some(t) => uploaded_before(a, t)->Ok_0,
    };
    match cutoff {
        Some(t) => {
            lemma_uploaded_within(a, t);
        },
        None => {},
    }
    assert(forall|i: int| 0 <= i < b.len() ==> a.contains(#[trigger] b[i]));
    let k = policy_candidates(b, requirement, policy)->0;
    lemma_finals_within(b);
    assert(forall|i: int| 0 <= i < k.len() ==> b.contains(#[trigger] k[i]));
    let c = chosen_candidate(cs, requirement, mode, cutoff, policy)->0->Ok_0->0;
    if k.len() == 1 {
        lemma_best_within(k);
    } else {
        best_candidate_ranks_highest(k);
    }
    assert(k.contains(c));
    let i = choose|i: int| 0 <= i < k.len() && k[i] == c;
    assert(b.contains(k[i]));
    let j = choose|j: int| 0 <= j < b.len() && b[j] == c;
    assert(a.contains(b[j]));
    let l = choose|l: int| 0 <= l < a.len() && a[l] == c;
    assert(version_satisfies(a[l].version@, requirement) == Some(true));
}

} // verus!
