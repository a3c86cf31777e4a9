//! The comparison key of a PEP 440 style version string.
//!
//! A version such as `1!2.0.0rc1.post3+local` is reduced to its epoch, its
//! release segments (trailing zeros removed), its release phase (dev, alpha,
//! beta, release candidate or final, each with a number) and an optional post
//! release number.  Local labels after `+` are ignored.
use vstd::prelude::*;
use crate::text::{
    chars_of, digit_pred, digit_span, index_of, is_ascii_alpha, is_ascii_alphabetic, is_digit, is_ascii,
    is_ascii_digit, lemma_span_at, lemma_rspan_at, lemma_span_bound, lower_seq, trim_chars, lower_chars, find_char, matches_at, parse_digits_or_zero, parse_u64_or_zero, rspan, slice_of, span,
    starts_with, suffix_from, trim, trim_start_char, trim_start_matches_char, is_ws, ws_pred,
    char_pred, trim_start, trim_end, lower_char, lemma_index_of,
};

verus! {

/// The pre-release phase of a version; the declaration order is the ordering.
#[derive(Debug, Clone, Copy, PartialEq, Eq, Structural)]
pub enum PypiReleasePhase {
    Dev(u64),
    Alpha(u64),
    Beta(u64),
    Rc(u64),
    Final,
}

/// The parts of a version that decide its order.
#[derive(Debug)]
pub struct PypiVersionKey {
    pub epoch: u64,
    pub release: Vec<u64>,
    pub phase: PypiReleasePhase,
    pub post: Option<u64>,
}

/// The mathematical value of a [`PypiVersionKey`].
pub struct PypiKeyModel {
    pub epoch: u64,
    pub release: Seq<u64>,
    pub phase: PypiReleasePhase,
    pub post: Option<u64>,
}

impl View for PypiVersionKey {
    type V = PypiKeyModel;

    open spec fn view(&self) -> PypiKeyModel {
        PypiKeyModel { epoch: self.epoch, release: self.release@, phase: self.phase, post: self.post }
    }
}

/// Outcome of scanning a version suffix for a label.  `Panic` marks the
/// inputs on which the scan would slice a string inside a multi-byte
/// character; the functions of this module require that it does not happen.
pub enum SuffixScan {
    Panic,
    Missing,
    Found(u64),
}

// ---------------------------------------------------------------------------
// Specification
// ---------------------------------------------------------------------------

pub open spec fn dev_labels() -> Seq<Seq<char>> {
    seq!["dev"@]
}

pub open spec fn alpha_labels() -> Seq<Seq<char>> {
    seq!["alpha"@, "a"@]
}

pub open spec fn beta_labels() -> Seq<Seq<char>> {
    seq!["beta"@, "b"@]
}

pub open spec fn rc_labels() -> Seq<Seq<char>> {
    seq!["preview"@, "pre"@, "rc"@, "c"@]
}

pub open spec fn post_labels() -> Seq<Seq<char>> {
    seq!["post"@, "rev"@, "r"@]
}

/// `s` is all ASCII digits.
pub open spec fn all_digits(s: Seq<char>) -> bool {
    forall|j: int| 0 <= j < s.len() ==> #[trigger] is_digit(s[j])
}

/// What `str::parse::<u64>().unwrap_or(0)` gives for a string without `+`.
pub open spec fn parse_decimal_or_zero(s: Seq<char>) -> u64 {
    if all_digits(s) {
        parse_u64_or_zero(s)
    } else {
        0
    }
}

/// Label `l` starts at `i` in `n` and is not followed by an ASCII letter.
pub open spec fn label_hit(n: Seq<char>, i: int, l: Seq<char>) -> bool {
    &&& starts_with(n.skip(i), l)
    &&& !(i + l.len() < n.len() && is_ascii_alpha(n[i + l.len()]))
}

/// Length of the first label of `labels` that hits at `i`.
pub open spec fn hit_len(n: Seq<char>, i: int, labels: Seq<Seq<char>>) -> Option<nat>
    decreases labels.len(),
{
    if labels.len() == 0 {
        None
    } else if label_hit(n, i, labels[0]) {
        Some(labels[0].len())
    } else {
        hit_len(n, i, labels.drop_first())
    }
}

/// The number that follows a label: leading dots skipped, then the leading
/// digits, read as `u64` (0 when absent or too large).
pub open spec fn suffix_numeric(rest: Seq<char>) -> u64 {
    let r = trim_start_char(rest, '.');
    parse_u64_or_zero(r.take(span(r, digit_pred()) as int))
}

/// Scans `n` from index `i` for the first label of `labels`.
pub open spec fn scan(n: Seq<char>, i: int, labels: Seq<Seq<char>>) -> SuffixScan
    decreases n.len() - i,
{
    if i < 0 || i >= n.len() {
        SuffixScan::Missing
    } else if n[i] == '.' {
        scan(n, i + 1, labels)
    } else {
        match hit_len(n, i, labels) {
            Some(k) => SuffixScan::Found(suffix_numeric(n.skip(i + k))),
            None => if !is_ascii(n[i]) {
                SuffixScan::Panic
            } else {
                scan(n, i + 1, labels)
            },
        }
    }
}

/// `-` and `_` read as `.`.
pub open spec fn dotted(s: Seq<char>) -> Seq<char> {
    Seq::new(s.len(), |i: int| if s[i] == '-' || s[i] == '_' { '.' } else { s[i] })
}

pub open spec fn suffix_number(suffix: Seq<char>, labels: Seq<Seq<char>>) -> SuffixScan {
    scan(dotted(suffix), 0, labels)
}

/// The release phase named by a suffix; `None` where the scan would panic.
pub open spec fn phase_of(suffix: Seq<char>) -> Option<PypiReleasePhase> {
    match suffix_number(suffix, dev_labels()) {
        SuffixScan::Panic => None,
        SuffixScan::Found(x) => Some(PypiReleasePhase::Dev(x)),
        SuffixScan::Missing => match suffix_number(suffix, alpha_labels()) {
            SuffixScan::Panic => None,
            SuffixScan::Found(x) => Some(PypiReleasePhase::Alpha(x)),
            SuffixScan::Missing => match suffix_number(suffix, beta_labels()) {
                SuffixScan::Panic => None,
                SuffixScan::Found(x) => Some(PypiReleasePhase::Beta(x)),
                SuffixScan::Missing => match suffix_number(suffix, rc_labels()) {
                    SuffixScan::Panic => None,
                    SuffixScan::Found(x) => Some(PypiReleasePhase::Rc(x)),
                    SuffixScan::Missing => Some(PypiReleasePhase::Final),
                },
            },
        },
    }
}

/// The post release number named by a suffix; `None` where the scan would
/// panic, `Some(None)` where there is none.
pub open spec fn post_of(suffix: Seq<char>) -> Option<Option<u64>> {
    match suffix_number(suffix, post_labels()) {
        SuffixScan::Panic => None,
        SuffixScan::Found(x) => Some(Some(x)),
        SuffixScan::Missing => Some(None),
    }
}

/// The release segments read from the front of `s`, with the number of
/// characters they take (a `.` after the last segment included).
pub open spec fn segments(s: Seq<char>) -> (Seq<u64>, int)
    decreases s.len(),
{
    let d = span(s, digit_pred()) as int;
    if d == 0 || d > s.len() {
        (Seq::empty(), 0)
    } else {
        let v = parse_u64_or_zero(s.take(d));
        if d == s.len() || s[d] != '.' {
            (seq![v], d)
        } else {
            let (rest, k) = segments(s.skip(d + 1));
            (seq![v] + rest, d + 1 + k)
        }
    }
}

/// Trailing zero segments removed.
pub open spec fn strip_zeros(r: Seq<u64>) -> Seq<u64>
    decreases r.len(),
{
    if r.len() > 0 && r.last() == 0 {
        strip_zeros(r.drop_last())
    } else {
        r
    }
}

/// The release segments as compared: trailing zeros removed, `[0]` if none.
pub open spec fn release_of(r: Seq<u64>) -> Seq<u64> {
    if strip_zeros(r).len() == 0 {
        seq![0u64]
    } else {
        strip_zeros(r)
    }
}

pub open spec fn is_sep(c: char) -> bool {
    c == '.' || c == '-' || c == '_'
}

pub open spec fn sep_pred() -> spec_fn(char) -> bool {
    |c: char| is_sep(c)
}

/// `str::trim_matches` with `.`, `-` and `_`.
pub open spec fn trim_seps(s: Seq<char>) -> Seq<char> {
    let a = s.skip(span(s, sep_pred()) as int);
    a.take(a.len() - rspan(a, sep_pred()))
}

/// The version text as compared: trimmed, leading `v`s dropped, lower-cased,
/// local label after `+` dropped.
pub open spec fn public_part(version: Seq<char>) -> Seq<char> {
    let lower = lower_seq(trim_start_char(trim(version), 'v'));
    match index_of(lower, '+') {
        Some(i) => lower.take(i),
        None => lower,
    }
}

pub open spec fn epoch_of(public: Seq<char>) -> u64 {
    match index_of(public, '!') {
        Some(i) => parse_decimal_or_zero(public.take(i)),
        None => 0,
    }
}

pub open spec fn after_epoch(public: Seq<char>) -> Seq<char> {
    match index_of(public, '!') {
        Some(i) => public.skip(i + 1),
        None => public,
    }
}

pub open spec fn suffix_of(version: Seq<char>) -> Seq<char> {
    let rest = after_epoch(public_part(version));
    trim_seps(rest.skip(segments(rest).1))
}

/// The comparison key of a version string; `None` exactly on the strings
/// whose key cannot be computed without slicing inside a character.
pub open spec fn pypi_key(version: Seq<char>) -> Option<PypiKeyModel> {
    let public = public_part(version);
    let rest = after_epoch(public);
    let suffix = suffix_of(version);
    match (phase_of(suffix), post_of(suffix)) {
        (Some(phase), Some(post)) => Some(
            PypiKeyModel {
                epoch: epoch_of(public),
                release: release_of(segments(rest).0),
                phase,
                post,
            },
        ),
        _ => None,
    }
}

/// A version string whose key can be computed.
pub open spec fn pypi_version_ok(version: Seq<char>) -> bool {
    pypi_key(version) is Some
}

// ---------------------------------------------------------------------------
// Lemmas
// ---------------------------------------------------------------------------

proof fn lemma_segments_bound(s: Seq<char>)
    ensures
        0 <= segments(s).1 <= s.len(),
    decreases s.len(),
{
    lemma_span_bound(s, digit_pred());
    let d = span(s, digit_pred()) as int;
    if d > 0 && d < s.len() && s[d] == '.' {
        lemma_segments_bound(s.skip(d + 1));
    }
}

proof fn lemma_hit_len_bound(n: Seq<char>, i: int, labels: Seq<Seq<char>>)
    requires
        0 <= i <= n.len(),
    ensures
        hit_len(n, i, labels) matches Some(k) ==> i + k <= n.len(),
    decreases labels.len(),
{
    assert(n.skip(i).len() == n.len() - i);
    if labels.len() > 0 && !label_hit(n, i, labels[0]) {
        lemma_hit_len_bound(n, i, labels.drop_first());
    }
}

// ---------------------------------------------------------------------------
// Implementation
// ---------------------------------------------------------------------------

fn label_hits(n: &[char], i: usize, l: &[char]) -> (b: bool)
    requires
        i <= n@.len(),
    ensures
        b == label_hit(n@, i as int, l@),
{
    let m = matches_at(n, l, i);
    proof {
        if l@.len() <= n@.len() - i {
            assert(n@.subrange(i as int, i + l@.len()) == n@.skip(i as int).take(l@.len() as int));
        }
    }
    if !m || l.len() > n.len() - i {
        return false;
    }
    let after = i + l.len();
    !(after < n.len() && is_ascii_alphabetic(n[after]))
}

/// Length of the first label that hits at `i`.
fn first_hit(n: &[char], i: usize, labels: &Vec<Vec<char>>) -> (r: Option<usize>)
    requires
        i <= n@.len(),
    ensures
        r matches Some(k) ==> hit_len(n@, i as int, seqs_of(labels@)) == Some(k as nat),
        r is None ==> hit_len(n@, i as int, seqs_of(labels@)) is None,
{
    let mut j: usize = 0;
    assert(seqs_of(labels@).skip(0) =~= seqs_of(labels@));
    while j < labels.len()
        invariant
            i <= n@.len(),
            j <= labels@.len(),
            hit_len(n@, i as int, seqs_of(labels@)) == hit_len(
                n@,
                i as int,
                seqs_of(labels@).skip(j as int),
            ),
        decreases labels.len() - j,
    {
        let ghost rest = seqs_of(labels@).skip(j as int);
        proof {
            assert(rest[0] == labels[j as int]@);
            assert(rest.drop_first() =~= seqs_of(labels@).skip(j + 1));
        }
        if label_hits(n, i, labels[j].as_slice()) {
            return Some(labels[j].len());
        }
        j = j + 1;
    }
    proof {
        assert(seqs_of(labels@).skip(j as int).len() == 0);
    }
    None
}

/// The number after a label (`pypi_suffix_numeric_value`).
fn pypi_suffix_numeric_value(rest: &[char]) -> (v: u64)
    ensures
        v == suffix_numeric(rest@),
{
    let r = trim_start_matches_char(rest, '.');
    let d = digit_span(r.as_slice());
    proof {
        lemma_span_bound(r@, digit_pred());
    }
    let digits = slice_of(r.as_slice(), 0, d);
    proof {
        assert(digits@ == r@.take(d as int));
        assert forall|j: int| 0 <= j < digits@.len() implies #[trigger] is_digit(digits@[j]) by {
            assert(digit_pred()(r@[j]));
        }
    }
    parse_digits_or_zero(digits.as_slice())
}

/// Scans a normalized suffix for a label (`pypi_suffix_number`, after the
/// `-`/`_` normalization).
fn suffix_scan(n: &[char], labels: &Vec<Vec<char>>) -> (r: SuffixScan)
    ensures
        r == scan(n@, 0, seqs_of(labels@)),
{
    let ghost ls = seqs_of(labels@);
    let mut i: usize = 0;
    while i < n.len()
        invariant
            i <= n@.len(),
            ls == seqs_of(labels@),
            scan(n@, 0, ls) == scan(n@, i as int, ls),
        decreases n.len() - i,
    {
        if n[i] == '.' {
            i = i + 1;
        } else {
            match first_hit(n, i, labels) {
                Some(k) => {
                    proof {
                        lemma_hit_len_bound(n@, i as int, ls);
                    }
                    let tail = suffix_from(n, i + k);
                    return SuffixScan::Found(pypi_suffix_numeric_value(tail.as_slice()));
                },
                None => {
                    if (n[i] as u32) >= 128 {
                        return SuffixScan::Panic;
                    }
                    i = i + 1;
                },
            }
        }
    }
    SuffixScan::Missing
}

fn dotted_chars(s: &[char]) -> (out: Vec<char>)
    ensures
        out@ == dotted(s@),
{
    let mut out: Vec<char> = Vec::new();
    let mut i: usize = 0;
    while i < s.len()
        invariant
            i <= s@.len(),
            out@ == dotted(s@).take(i as int),
        decreases s.len() - i,
    {
        let c = s[i];
        if c == '-' || c == '_' {
            out.push('.');
        } else {
            out.push(c);
        }
        i = i + 1;
        proof {
            assert(out@ =~= dotted(s@).take(i as int));
        }
    }
    assert(out@ =~= dotted(s@));
    out
}

/// The views of a list of character vectors.
pub open spec fn seqs_of(v: Seq<Vec<char>>) -> Seq<Seq<char>> {
    Seq::new(v.len(), |i: int| v[i]@)
}

/// The label list whose views are `words`.
fn labels_of(words: &[&str]) -> (out: Vec<Vec<char>>)
    ensures
        seqs_of(out@) == Seq::new(words@.len(), |i: int| words@[i]@),
{
    let mut out: Vec<Vec<char>> = Vec::new();
    let mut i: usize = 0;
    while i < words.len()
        invariant
            i <= words@.len(),
            out@.len() == i,
            forall|k: int| 0 <= k < i ==> #[trigger] out@[k]@ == words@[k]@,
        decreases words.len() - i,
    {
        out.push(chars_of(words[i]));
        i = i + 1;
    }
    assert(seqs_of(out@) =~= Seq::new(words@.len(), |k: int| words@[k]@));
    out
}

/// `pypi_suffix_number`: the number after the first of `labels` in `suffix`.
fn pypi_suffix_number(suffix: &[char], labels: &Vec<Vec<char>>) -> (r: SuffixScan)
    ensures
        r == suffix_number(suffix@, seqs_of(labels@)),
{
    let n = dotted_chars(suffix);
    suffix_scan(n.as_slice(), labels)
}

fn word_list(words: Vec<&str>) -> (out: Vec<Vec<char>>)
    ensures
        seqs_of(out@) == Seq::new(words@.len(), |i: int| words@[i]@),
{
    labels_of(words.as_slice())
}

/// `pypi_release_phase`: the phase named by a suffix.
pub fn pypi_release_phase(suffix: &[char]) -> (r: PypiReleasePhase)
    requires
        phase_of(suffix@) is Some,
    ensures
        Some(r) == phase_of(suffix@),
{
    let dev = word_list(vec!["dev"]);
    assert(seqs_of(dev@) =~= dev_labels());
    match pypi_suffix_number(suffix, &dev) {
        SuffixScan::Found(x) => {
            return PypiReleasePhase::Dev(x);
        },
        _ => {},
    }
    let alpha = word_list(vec!["alpha", "a"]);
    assert(seqs_of(alpha@) =~= alpha_labels());
    match pypi_suffix_number(suffix, &alpha) {
        SuffixScan::Found(x) => {
            return PypiReleasePhase::Alpha(x);
        },
        _ => {},
    }
    let beta = word_list(vec!["beta", "b"]);
    assert(seqs_of(beta@) =~= beta_labels());
    match pypi_suffix_number(suffix, &beta) {
        SuffixScan::Found(x) => {
            return PypiReleasePhase::Beta(x);
        },
        _ => {},
    }
    let rc = word_list(vec!["preview", "pre", "rc", "c"]);
    assert(seqs_of(rc@) =~= rc_labels());
    match pypi_suffix_number(suffix, &rc) {
        SuffixScan::Found(x) => {
            return PypiReleasePhase::Rc(x);
        },
        _ => {},
    }
    PypiReleasePhase::Final
}

/// `pypi_post_release`: the post release number of a suffix.
pub fn pypi_post_release(suffix: &[char]) -> (r: Option<u64>)
    requires
        post_of(suffix@) is Some,
    ensures
        Some(r) == post_of(suffix@),
{
    let post = word_list(vec!["post", "rev", "r"]);
    assert(seqs_of(post@) =~= post_labels());
    match pypi_suffix_number(suffix, &post) {
        SuffixScan::Found(x) => Some(x),
        _ => None,
    }
}

/// `pypi_release_segments`: the release segments at the front of `version`
/// (trailing zeros removed, `[0]` if none) and the index where the rest
/// starts.
pub fn pypi_release_segments(version: &[char]) -> (r: (Vec<u64>, usize))
    ensures
        r.0@ == release_of(segments(version@).0),
        r.1 == segments(version@).1,
{
    let mut release: Vec<u64> = Vec::new();
    let mut index: usize = 0;
    proof {
        lemma_segments_bound(version@);
        assert(version@.skip(0) =~= version@);
        assert(Seq::<u64>::empty() + segments(version@).0 =~= segments(version@).0);
    }
    loop
        invariant_except_break
            index <= version@.len(),
            segments(version@) == (release@ + segments(version@.skip(index as int)).0, index
                + segments(version@.skip(index as int)).1),
        ensures
            index <= version@.len(),
            segments(version@) == (release@, index as int),
        decreases version.len() - index,
    {
        let ghost rest = version@.skip(index as int);
        let tail = suffix_from(version, index);
        let d = digit_span(tail.as_slice());
        proof {
            lemma_span_bound(rest, digit_pred());
        }
        if d == 0 {
            proof {
                assert(segments(rest) == (Seq::<u64>::empty(), 0int));
                assert(release@ + Seq::<u64>::empty() =~= release@);
            }
            break;
        }
        let digits = slice_of(tail.as_slice(), 0, d);
        proof {
            assert(digits@ == rest.take(d as int));
            assert forall|j: int| 0 <= j < digits@.len() implies #[trigger] is_digit(digits@[j]) by {
                assert(digit_pred()(rest[j]));
            }
        }
        let v = parse_digits_or_zero(digits.as_slice());
        let ghost before = release@;
        release.push(v);
        let next = index + d;
        if next >= version.len() || version[next] != '.' {
            proof {
                assert(segments(rest) == (seq![v], d as int));
                assert(before + seq![v] =~= release@);
            }
            index = next;
            break;
        }
        proof {
            assert(rest.skip(d + 1) =~= version@.skip(next + 1));
            assert(segments(rest).0 == seq![v] + segments(version@.skip(next + 1)).0);
            lemma_segments_bound(version@.skip(next + 1));
        }
        index = next + 1;
        proof {
            let tl = segments(version@.skip(index as int)).0;
            assert(before + (seq![v] + tl) =~= release@ + tl);
        }
    }
    let ghost raw = release@;
    while release.len() > 0 && release[release.len() - 1] == 0
        invariant
            strip_zeros(raw) == strip_zeros(release@),
        decreases release.len(),
    {
        release.pop();
    }
    proof {
        assert(strip_zeros(release@) == release@);
    }
    if release.len() == 0 {
        release.push(0);
        proof {
            assert(release@ =~= seq![0u64]);
        }
    }
    (release, index)
}

} // verus!

verus! {

pub fn is_separator(c: char) -> (b: bool)
    ensures
        b == is_sep(c),
{
    c == '.' || c == '-' || c == '_'
}

/// `str::trim_matches` with `.`, `-` and `_`.
pub fn trim_separators(s: &[char]) -> (out: Vec<char>)
    ensures
        out@ == trim_seps(s@),
{
    let mut lo: usize = 0;
    while lo < s.len() && is_separator(s[lo])
        invariant
            lo <= s@.len(),
            forall|j: int| 0 <= j < lo ==> #[trigger] sep_pred()(s@[j]),
        decreases s.len() - lo,
    {
        lo = lo + 1;
    }
    proof {
        lemma_span_at(s@, sep_pred(), lo as int);
    }
    let a = suffix_from(s, lo);
    let mut hi: usize = a.len();
    while hi > 0 && is_separator(a[hi - 1])
        invariant
            hi <= a@.len(),
            forall|j: int| hi <= j < a@.len() ==> #[trigger] sep_pred()(a@[j]),
        decreases hi,
    {
        hi = hi - 1;
    }
    proof {
        lemma_rspan_at(a@, sep_pred(), hi as int);
        assert(a@.subrange(0, hi as int) == a@.take(hi as int));
    }
    slice_of(a.as_slice(), 0, hi)
}

/// `str::parse::<u64>().unwrap_or(0)` for a string without `+`.
pub fn parse_decimal(s: &[char]) -> (v: u64)
    ensures
        v == parse_decimal_or_zero(s@),
{
    let mut i: usize = 0;
    while i < s.len()
        invariant
            i <= s@.len(),
            forall|j: int| 0 <= j < i ==> #[trigger] is_digit(s@[j]),
        decreases s.len() - i,
    {
        if !is_ascii_digit(s[i]) {
            return 0;
        }
        i = i + 1;
    }
    parse_digits_or_zero(s)
}

/// The lower-cased version text before any `+` local label.
fn pypi_public_part(version: &str) -> (out: Vec<char>)
    ensures
        out@ == public_part(version@),
{
    let v = chars_of(version);
    let t = trim_chars(v.as_slice());
    let t2 = trim_start_matches_char(t.as_slice(), 'v');
    let lower = lower_chars(t2.as_slice());
    match find_char(lower.as_slice(), '+') {
        Some(i) => slice_of(lower.as_slice(), 0, i),
        None => lower,
    }
}

/// The epoch before `!`, and the text after it.
fn pypi_split_epoch(public: &[char]) -> (r: (u64, Vec<char>))
    ensures
        r.0 == epoch_of(public@),
        r.1@ == after_epoch(public@),
{
    let n = public.len();
    match find_char(public, '!') {
        Some(i) => {
            assert(i < n);
            let e = slice_of(public, 0, i);
            (parse_decimal(e.as_slice()), suffix_from(public, i + 1))
        },
        None => (0u64, slice_of(public, 0, public.len())),
    }
}

/// The suffix after the release segments, separators trimmed.
fn pypi_version_suffix(rest: &[char], idx: usize) -> (out: Vec<char>)
    requires
        idx == segments(rest@).1,
    ensures
        out@ == trim_seps(rest@.skip(idx as int)),
{
    proof {
        lemma_segments_bound(rest@);
    }
    let tail = suffix_from(rest, idx);
    trim_separators(tail.as_slice())
}

/// `comparable_pypi_version`: the comparison key of a version string.
pub fn comparable_pypi_version(version: &str) -> (k: PypiVersionKey)
    requires
        pypi_version_ok(version@),
    ensures
        Some(k@) == pypi_key(version@),
{
    let public = pypi_public_part(version);
    let (epoch, rest) = pypi_split_epoch(public.as_slice());
    let (release, idx) = pypi_release_segments(rest.as_slice());
    let suffix = pypi_version_suffix(rest.as_slice(), idx);
    assert(suffix@ == suffix_of(version@));
    let phase = pypi_release_phase(suffix.as_slice());
    let post = pypi_post_release(suffix.as_slice());
    PypiVersionKey { epoch, release, phase, post }
}

/// Whether the phase of a suffix can be read.
fn suffix_phase_readable(suffix: &[char]) -> (b: bool)
    ensures
        b == phase_of(suffix@) is Some,
{
    let dev = word_list(vec!["dev"]);
    assert(seqs_of(dev@) =~= dev_labels());
    match pypi_suffix_number(suffix, &dev) {
        SuffixScan::Panic => return false,
        SuffixScan::Found(_) => return true,
        SuffixScan::Missing => {},
    }
    let alpha = word_list(vec!["alpha", "a"]);
    assert(seqs_of(alpha@) =~= alpha_labels());
    match pypi_suffix_number(suffix, &alpha) {
        SuffixScan::Panic => return false,
        SuffixScan::Found(_) => return true,
        SuffixScan::Missing => {},
    }
    let beta = word_list(vec!["beta", "b"]);
    assert(seqs_of(beta@) =~= beta_labels());
    match pypi_suffix_number(suffix, &beta) {
        SuffixScan::Panic => return false,
        SuffixScan::Found(_) => return true,
        SuffixScan::Missing => {},
    }
    let rc = word_list(vec!["preview", "pre", "rc", "c"]);
    assert(seqs_of(rc@) =~= rc_labels());
    match pypi_suffix_number(suffix, &rc) {
        SuffixScan::Panic => false,
        _ => true,
    }
}

/// Whether a version string can be read as a PyPI version: the test that
/// callers make before comparing versions or matching them to a
/// requirement.
pub fn pypi_version_readable(version: &str) -> (b: bool)
    ensures
        b == pypi_version_ok(version@),
{
    let public = pypi_public_part(version);
    let (_epoch, rest) = pypi_split_epoch(public.as_slice());
    let (_release, idx) = pypi_release_segments(rest.as_slice());
    let suffix = pypi_version_suffix(rest.as_slice(), idx);
    assert(suffix@ == suffix_of(version@));
    let phase_ok = suffix_phase_readable(suffix.as_slice());
    let post = word_list(vec!["post", "rev", "r"]);
    assert(seqs_of(post@) =~= post_labels());
    let post_ok = match pypi_suffix_number(suffix.as_slice(), &post) {
        SuffixScan::Panic => false,
        _ => true,
    };
    phase_ok && post_ok
}

// ---------------------------------------------------------------------------
// What the comparison ignores
// ---------------------------------------------------------------------------

/// Text with no whitespace at either end.
pub open spec fn ends_not_blank(s: Seq<char>) -> bool {
    s.len() == 0 || (!is_ws(s[0]) && !is_ws(s.last()))
}

proof fn lemma_trim_unchanged(s: Seq<char>)
    requires
        ends_not_blank(s),
    ensures
        trim(s) == s,
{
    if s.len() > 0 {
        assert(span(s, ws_pred()) == 0);
        assert(s.skip(0) =~= s);
        assert(rspan(s, ws_pred()) == 0);
        assert(s.take(s.len() as int) =~= s);
    } else {
        assert(s.skip(0) =~= s);
        assert(s.take(0) =~= s);
    }
}

proof fn lemma_span_concat(a: Seq<char>, b: Seq<char>, p: spec_fn(char) -> bool)
    requires
        b.len() > 0,
        !p(b[0]),
    ensures
        span(a + b, p) == span(a, p),
    decreases a.len(),
{
    if a.len() > 0 {
        assert((a + b).drop_first() =~= a.drop_first() + b);
        if p(a[0]) {
            lemma_span_concat(a.drop_first(), b, p);
        }
    } else {
        assert(a + b =~= b);
    }
}

proof fn lemma_lower_concat(a: Seq<char>, b: Seq<char>)
    ensures
        lower_seq(a + b) == lower_seq(a) + lower_seq(b),
{
    assert(lower_seq(a + b) =~= lower_seq(a) + lower_seq(b));
}

/// A `+` local label does not change the text that is compared: for a
/// version with no `+` and no whitespace at its ends, and a label that
/// does not end in whitespace, `version+label` reads as `version`.
pub proof fn local_label_is_ignored(version: Seq<char>, label: Seq<char>)
    requires
        ends_not_blank(version),
        label.len() == 0 || !is_ws(label.last()),
        !version.contains('+'),
    ensures
        public_part(version + "+"@ + label) == public_part(version),
{
    reveal_strlit("+");
    let tail = "+"@ + label;
    let x = version + tail;
    assert(tail[0] == '+');
    assert(ends_not_blank(x)) by {
        if version.len() > 0 {
            assert(x[0] == version[0]);
        } else {
            assert(x[0] == '+');
        }
        if label.len() > 0 {
            assert(x.last() == label.last());
        } else {
            assert(x.last() == '+');
        }
    }
    lemma_trim_unchanged(x);
    lemma_trim_unchanged(version);
    lemma_span_concat(version, tail, char_pred('v'));
    let k = span(version, char_pred('v')) as int;
    lemma_span_bound(version, char_pred('v'));
    let rest = version.skip(k);
    assert(x.skip(k) =~= rest + tail);
    lemma_lower_concat(rest, tail);
    let lr = lower_seq(rest);
    assert forall|j: int| 0 <= j < lr.len() implies lr[j] != '+' by {
        assert(rest[j] == version[k + j]);
        if lr[j] == '+' {
            assert(lower_char(rest[j]) == '+');
            assert(version.contains(version[k + j]));
        }
    }
    let lx = lower_seq(rest + tail);
    assert(lx[lr.len() as int] == '+');
    assert forall|j: int| 0 <= j < lr.len() implies lx[j] != '+' by {
        assert(lx[j] == lr[j]);
    }
    lemma_index_of(lx, '+', lr.len() as int);
    assert(lx.take(lr.len() as int) =~= lr);
    lemma_index_of(lr, '+', lr.len() as int);
    assert(version + "+"@ + label =~= x);
    assert(trim_start_char(trim(x), 'v') == rest + tail);
    assert(trim_start_char(trim(version), 'v') == rest);
    assert(public_part(x) == lr);
    assert(public_part(version) == lr);
}

/// Leading `v`s do not change the text that is compared.
pub proof fn leading_v_is_ignored(version: Seq<char>)
    requires
        ends_not_blank(version),
    ensures
        public_part("v"@ + version) == public_part(version),
{
    reveal_strlit("v");
    let x = "v"@ + version;
    assert(ends_not_blank(x)) by {
        assert(x[0] == 'v');
        if version.len() > 0 {
            assert(x.last() == version.last());
        }
    }
    lemma_trim_unchanged(x);
    lemma_trim_unchanged(version);
    assert(x.drop_first() =~= version);
    assert(span(x, char_pred('v')) == 1 + span(version, char_pred('v')));
    lemma_span_bound(version, char_pred('v'));
    assert(x.skip(span(x, char_pred('v')) as int) =~= version.skip(span(version, char_pred('v')) as int));
}

/// Letter case does not change the text that is compared, for versions
/// that do not start with a `v` or `V` and have no whitespace at their
/// ends: `1.0RC1` reads as `1.0rc1`.
pub proof fn letter_case_is_ignored(a: Seq<char>, b: Seq<char>)
    requires
        ends_not_blank(a),
        ends_not_blank(b),
        a.len() == b.len(),
        forall|i: int| 0 <= i < a.len() ==> lower_char(#[trigger] a[i]) == lower_char(b[i]),
        a.len() > 0 ==> a[0] != 'v' && a[0] != 'V',
        b.len() > 0 ==> b[0] != 'v' && b[0] != 'V',
    ensures
        public_part(a) == public_part(b),
{
    lemma_trim_unchanged(a);
    lemma_trim_unchanged(b);
    if a.len() > 0 {
        assert(span(a, char_pred('v')) == 0);
        assert(span(b, char_pred('v')) == 0);
    }
    assert(a.skip(0) =~= a);
    assert(b.skip(0) =~= b);
    assert(lower_seq(a) =~= lower_seq(b));
}

} // verus!
