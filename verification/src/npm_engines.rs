//! Whether the running Node.js satisfies a package's `engines.node` range.
use vstd::prelude::*;
use crate::npm_semver::{
    engine_words, fits_at, normalize_npm_engine_requirement, npm_satisfies,
    npm_version_satisfies_checked, parse_semver, parsed_semver, semver_text, semver_to_text,
    ws_words, SemVer,
};
use crate::set_map::PinMap;
use crate::text::{
    chars_of, find_chars, first_occurrence, seqs_of, slice_of, string_from_chars, suffix_from,
    trim, trim_chars, trim_start_char, trim_start_matches_char, trimmed_nonempty,
    trimmed_nonempty_pieces,
};

verus! {

pub open spec fn bars() -> Seq<char> {
    seq!['|', '|']
}

/// `str::split("||")`: the pieces between non-overlapping `||`, read from
/// the front.
pub open spec fn bar_pieces(s: Seq<char>) -> Seq<Seq<char>>
    decreases s.len(),
{
    match first_occurrence(s, bars()) {
        Some(i) => if 0 <= i && i + 2 <= s.len() {
            seq![s.take(i)] + bar_pieces(s.skip(i + 2))
        } else {
            seq![s]
        },
        None => seq![s],
    }
}

fn bar_pieces_of(s: &[char]) -> (out: Vec<Vec<char>>)
    ensures
        seqs_of(out@) == bar_pieces(s@),
    decreases s.len(),
{
    let pattern: Vec<char> = vec!['|', '|'];
    assert(pattern@ =~= bars());
    match find_chars(s, pattern.as_slice()) {
        Some(i) => {
            let head = slice_of(s, 0, i);
            let rest = suffix_from(s, i + 2);
            let tail = bar_pieces_of(rest.as_slice());
            let mut out: Vec<Vec<char>> = Vec::new();
            out.push(head);
            let ghost first = seqs_of(out@);
            let mut k: usize = 0;
            while k < tail.len()
                invariant
                    k <= tail@.len(),
                    seqs_of(out@) == first + seqs_of(tail@).take(k as int),
                decreases tail.len() - k,
            {
                let piece = slice_of(tail[k].as_slice(), 0, tail[k].len());
                let ghost before = out@;
                let ghost pv = piece@;
                out.push(piece);
                proof {
                    assert(pv =~= tail@[k as int]@);
                    assert(seqs_of(out@) =~= seqs_of(before).push(pv));
                    assert(seqs_of(tail@).take(k + 1) =~= seqs_of(tail@).take(k as int).push(
                        tail@[k as int]@,
                    ));
                    assert(seqs_of(out@) =~= first + seqs_of(tail@).take(k + 1));
                }
                k = k + 1;
            }
            proof {
                assert(seqs_of(tail@).take(tail@.len() as int) =~= seqs_of(tail@));
                assert(head@ =~= s@.take(i as int));
                assert(first =~= seq![s@.take(i as int)]);
            }
            out
        },
        None => {
            let mut out: Vec<Vec<char>> = Vec::new();
            out.push(slice_of(s, 0, s.len()));
            proof {
                assert(s@.subrange(0, s@.len() as int) =~= s@);
                assert(seqs_of(out@) =~= seq![s@]);
            }
            out
        },
    }
}

/// An alternative of an engine range written the way the npm range reader
/// takes it.
pub open spec fn engine_range(part: Seq<char>) -> Seq<char> {
    engine_words(ws_words(part)).0
}

/// Some alternative from index `k` on admits the version, tried in order;
/// `None` where an alternative before the first admitting one has bounds
/// that do not fit in `u64`.
pub open spec fn engine_satisfied_from(version: Seq<char>, alts: Seq<Seq<char>>, k: nat) -> Option<
    bool,
>
    decreases alts.len() - k,
{
    if k >= alts.len() {
        Some(false)
    } else {
        let r = engine_range(alts[k as int]);
        if !fits_at(r, 1) {
            None
        } else if npm_satisfies(version, r) {
            Some(true)
        } else {
            engine_satisfied_from(version, alts, k + 1)
        }
    }
}

/// Whether a version satisfies an engine range: one of its `||`
/// alternatives (trimmed, blank ones left out) admits it.
pub open spec fn engine_satisfied(
    version: (u64, u64, u64, Seq<char>, Seq<char>),
    requirement: Seq<char>,
) -> Option<bool> {
    engine_satisfied_from(semver_text(version), trimmed_nonempty(bar_pieces(requirement)), 0)
}

/// Whether a Node.js version satisfies an `engines.node` range.
pub fn npm_engine_requirement_satisfied(version: &SemVer, requirement: &str) -> (b: bool)
    requires
        engine_satisfied(version.parts(), requirement@) is Some,
    ensures
        Some(b) == engine_satisfied(version.parts(), requirement@),
{
    let vt = semver_to_text(version);
    let text = string_from_chars(vt.as_slice());
    let rc = chars_of(requirement);
    let pieces = bar_pieces_of(rc.as_slice());
    let alts = trimmed_nonempty_pieces(&pieces);
    let ghost a = seqs_of(alts@);
    let mut i: usize = 0;
    while i < alts.len()
        invariant
            i <= alts@.len(),
            a == seqs_of(alts@),
            a == trimmed_nonempty(bar_pieces(requirement@)),
            text@ == semver_text(version.parts()),
            engine_satisfied(version.parts(), requirement@) == engine_satisfied_from(
                text@,
                a,
                i as nat,
            ),
            engine_satisfied(version.parts(), requirement@) is Some,
        decreases alts.len() - i,
    {
        proof {
            assert(a[i as int] == alts@[i as int]@);
        }
        let range = normalize_npm_engine_requirement(alts[i].as_slice());
        let rs = string_from_chars(range.as_slice());
        match npm_version_satisfies_checked(text.as_str(), rs.as_str()) {
            Some(true) => {
                return true;
            },
            _ => {},
        }
        i = i + 1;
    }
    false
}

/// Whether a package's engines admit the running Node.js: always unless
/// engines are enforced; then where there is a `node` range and the Node.js
/// version is known, the range must admit it.
pub open spec fn engine_compatible(
    engines: Option<Map<Seq<char>, Seq<char>>>,
    strict: bool,
    node_version: Option<(u64, u64, u64, Seq<char>, Seq<char>)>,
) -> Option<bool> {
    if !strict {
        Some(true)
    } else {
        match engines {
            Some(m) if m.contains_key("node"@) => match node_version {
                Some(v) => engine_satisfied(v, m["node"@]),
                None => Some(true),
            },
            _ => Some(true),
        }
    }
}

pub open spec fn engines_view(engines: Option<&PinMap>) -> Option<Map<Seq<char>, Seq<char>>> {
    match engines {
        Some(m) => Some(m.view()),
        None => None,
    }
}

pub open spec fn version_parts_of(v: Option<&SemVer>) -> Option<(u64, u64, u64, Seq<char>, Seq<char>)> {
    match v {
        Some(v) => Some(v.parts()),
        None => None,
    }
}

/// Whether a package's engines admit the running Node.js, whose version
/// `node_version` gives where it is known.
pub fn npm_engine_compatible(engines: Option<&PinMap>, strict: bool, node_version: Option<&SemVer>) -> (b: bool)
    requires
        engines matches Some(m) ==> m.wf(),
        engine_compatible(engines_view(engines), strict, version_parts_of(node_version)) is Some,
    ensures
        Some(b) == engine_compatible(engines_view(engines), strict, version_parts_of(node_version)),
{
    if !strict {
        return true;
    }
    let node = chars_of("node");
    let requirement = match engines {
        Some(m) => m.get(node.as_slice()),
        None => None,
    };
    match requirement {
        None => true,
        Some(r) => match node_version {
            None => true,
            Some(v) => {
                let rs = string_from_chars(r.as_slice());
                npm_engine_requirement_satisfied(v, rs.as_str())
            },
        },
    }
}

/// The Node.js version that `node --version` printed: the text trimmed and
/// its leading `v` characters removed, read as a SemVer version.
pub open spec fn reported_node_version(report: Seq<char>) -> Option<
    (u64, u64, u64, Seq<char>, Seq<char>),
> {
    parsed_semver(trim_start_char(trim(report), 'v'))
}

pub fn node_version_from_report(report: &str) -> (r: Option<SemVer>)
    ensures
        match reported_node_version(report@) {
            Some(p) => r matches Some(v) && v.parts() == p,
            None => r is None,
        },
{
    let c = chars_of(report);
    let t = trim_chars(c.as_slice());
    let bare = trim_start_matches_char(t.as_slice(), 'v');
    let text = string_from_chars(bare.as_slice());
    parse_semver(text.as_str())
}

} // verus!
