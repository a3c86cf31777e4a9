//! npm version ranges over SemVer versions: `^`, `~`, comparators, `x`
//! ranges and exact versions, as this project reads them.
use vstd::prelude::*;
use std::cmp::Ordering;
use crate::pypi_listing::{lemma_text_less_strict, text_less};
use crate::text::{
    chars_of, concat_chars, digits_value, ends_with, ends_with_chars, eq_chars, is_digit,
    is_ws, lower_seq, seqs_of, slice_of, split_char, split_chars, starts_with, starts_with_chars,
    suffix_from, trim, trim_chars, trim_end_char, trim_end_matches_char,
};

verus! {

// ---------------------------------------------------------------------------
// SemVer versions
// ---------------------------------------------------------------------------

/// A SemVer version as plain values: major, minor, patch, pre-release and
/// build metadata.
pub struct SemVer {
    pub major: u64,
    pub minor: u64,
    pub patch: u64,
    pub pre: String,
    pub build: String,
}

impl SemVer {
    pub open spec fn parts(&self) -> (u64, u64, u64, Seq<char>, Seq<char>) {
        (self.major, self.minor, self.patch, self.pre@, self.build@)
    }
}

/// What `semver::Version::parse` makes of a text.
pub uninterp spec fn parsed_semver(text: Seq<char>) -> Option<(u64, u64, u64, Seq<char>, Seq<char>)>;

/// Parses a version with `semver::Version::parse` and reads its fields.
/// The contract names the result; what the parser accepts is the `semver`
/// crate's grammar and is not restated.
#[verifier::external_body]
pub(crate) fn parse_semver(text: &str) -> (r: Option<SemVer>)
    ensures
        r matches Some(v) ==> parsed_semver(text@) == Some(v.parts()),
        r is None ==> parsed_semver(text@) is None,
{
    let v = semver::Version::parse(text).ok()?;
    Some(SemVer {
        major: v.major,
        minor: v.minor,
        patch: v.patch,
        pre: v.pre.as_str().to_owned(),
        build: v.build.as_str().to_owned(),
    })
}

/// Parts that a version can have: those of a parsed version, or bare
/// numbers.
pub open spec fn semver_valid(p: (u64, u64, u64, Seq<char>, Seq<char>)) -> bool {
    (p.3.len() == 0 && p.4.len() == 0) || exists|t: Seq<char>| parsed_semver(t) == Some(p)
}

/// The order of `semver::Version`: -1, 0 or 1.
pub uninterp spec fn semver_order(
    a: (u64, u64, u64, Seq<char>, Seq<char>),
    b: (u64, u64, u64, Seq<char>, Seq<char>),
) -> int;

/// The order of the numbers alone.
pub open spec fn numbers_order(
    a: (u64, u64, u64, Seq<char>, Seq<char>),
    b: (u64, u64, u64, Seq<char>, Seq<char>),
) -> int {
    if a.0 != b.0 {
        if a.0 < b.0 { -1 } else { 1 }
    } else if a.1 != b.1 {
        if a.1 < b.1 { -1 } else { 1 }
    } else if a.2 != b.2 {
        if a.2 < b.2 { -1 } else { 1 }
    } else {
        0
    }
}

/// Compares two versions with `Ord for semver::Version`.  `Version`
/// derives its order from its fields in declaration order, so the contract
/// states that the order is antisymmetric, as `Ord` asks; that different
/// numbers decide; that against a version without
/// pre-release or build (for equal numbers) a pre-release is lower, build
/// metadata higher and nothing else equal; and that the order is that of
/// `semver_order` otherwise.
#[verifier::external_body]
fn semver_compare(a: &SemVer, b: &SemVer) -> (r: i8)
    requires
        semver_valid(a.parts()),
        semver_valid(b.parts()),
    ensures
        r == semver_order(a.parts(), b.parts()),
        r == -semver_order(b.parts(), a.parts()),
        -1 <= r <= 1,
        numbers_order(a.parts(), b.parts()) != 0 ==> r == numbers_order(a.parts(), b.parts()),
        numbers_order(a.parts(), b.parts()) == 0 && b.pre@.len() == 0 && b.build@.len() == 0 ==> r
            == (if a.pre@.len() > 0 {
            -1int
        } else if a.build@.len() > 0 {
            1int
        } else {
            0int
        }),
{
    let mut x = semver::Version::new(a.major, a.minor, a.patch);
    x.pre = semver::Prerelease::new(&a.pre).unwrap_or(semver::Prerelease::EMPTY);
    x.build = semver::BuildMetadata::new(&a.build).unwrap_or(semver::BuildMetadata::EMPTY);
    let mut y = semver::Version::new(b.major, b.minor, b.patch);
    y.pre = semver::Prerelease::new(&b.pre).unwrap_or(semver::Prerelease::EMPTY);
    y.build = semver::BuildMetadata::new(&b.build).unwrap_or(semver::BuildMetadata::EMPTY);
    match x.cmp(&y) {
        std::cmp::Ordering::Less => -1,
        std::cmp::Ordering::Equal => 0,
        std::cmp::Ordering::Greater => 1,
    }
}

/// The text of a version, as `Display for semver::Version` writes it:
/// `major.minor.patch`, then `-pre` and `+build` when present.
pub open spec fn semver_text(p: (u64, u64, u64, Seq<char>, Seq<char>)) -> Seq<char> {
    decimal_u64(p.0 as nat) + "."@ + decimal_u64(p.1 as nat) + "."@ + decimal_u64(p.2 as nat) + (if p.3.len() > 0 {
        "-"@ + p.3
    } else {
        Seq::empty()
    }) + (if p.4.len() > 0 {
        "+"@ + p.4
    } else {
        Seq::empty()
    })
}

pub open spec fn digit_of(d: nat) -> char {
    if d == 0 { '0' } else if d == 1 { '1' } else if d == 2 { '2' } else if d == 3 { '3' }
    else if d == 4 { '4' } else if d == 5 { '5' } else if d == 6 { '6' } else if d == 7 { '7' }
    else if d == 8 { '8' } else { '9' }
}

/// The decimal text of `n`.
pub open spec fn decimal_u64(n: nat) -> Seq<char>
    decreases n,
{
    if n < 10 {
        seq![digit_of(n)]
    } else {
        decimal_u64(n / 10).push(digit_of(n % 10))
    }
}

fn digit_char_of(d: u64) -> (c: char)
    requires
        d < 10,
    ensures
        c == digit_of(d as nat),
{
    if d == 0 { '0' } else if d == 1 { '1' } else if d == 2 { '2' } else if d == 3 { '3' }
    else if d == 4 { '4' } else if d == 5 { '5' } else if d == 6 { '6' } else if d == 7 { '7' }
    else if d == 8 { '8' } else { '9' }
}

pub fn decimal_chars(n: u64) -> (out: Vec<char>)
    ensures
        out@ == decimal_u64(n as nat),
    decreases n,
{
    if n < 10 {
        let mut out: Vec<char> = Vec::new();
        out.push(digit_char_of(n));
        assert(out@ =~= seq![digit_of(n as nat)]);
        out
    } else {
        let mut out = decimal_chars(n / 10);
        out.push(digit_char_of(n % 10));
        out
    }
}

/// The text of a version.
pub fn semver_to_text(v: &SemVer) -> (out: Vec<char>)
    ensures
        out@ == semver_text(v.parts()),
{
    let dot = chars_of(".");
    let a = decimal_chars(v.major);
    let b = concat_chars(a.as_slice(), dot.as_slice());
    let c = concat_chars(b.as_slice(), decimal_chars(v.minor).as_slice());
    let d = concat_chars(c.as_slice(), dot.as_slice());
    let mut out = concat_chars(d.as_slice(), decimal_chars(v.patch).as_slice());
    let pre = chars_of(v.pre.as_str());
    if pre.len() > 0 {
        let dash = chars_of("-");
        let with_dash = concat_chars(out.as_slice(), dash.as_slice());
        out = concat_chars(with_dash.as_slice(), pre.as_slice());
    } else {
        assert(out@ + Seq::<char>::empty() =~= out@);
    }
    let build = chars_of(v.build.as_str());
    if build.len() > 0 {
        let plus = chars_of("+");
        let with_plus = concat_chars(out.as_slice(), plus.as_slice());
        out = concat_chars(with_plus.as_slice(), build.as_slice());
    } else {
        assert(out@ + Seq::<char>::empty() =~= out@);
    }
    out
}

// ---------------------------------------------------------------------------
// Numbers
// ---------------------------------------------------------------------------

pub open spec fn all_digit_chars(s: Seq<char>) -> bool {
    forall|i: int| 0 <= i < s.len() ==> #[trigger] is_digit(s[i])
}

/// `str::parse::<u64>`: an optional `+`, then decimal digits whose value
/// fits.
pub open spec fn u64_text(s: Seq<char>) -> Option<u64> {
    let d = if s.len() > 0 && s[0] == '+' {
        s.skip(1)
    } else {
        s
    };
    if d.len() > 0 && all_digit_chars(d) && digits_value(d) <= u64::MAX {
        Some(digits_value(d) as u64)
    } else {
        None
    }
}

proof fn lemma_digits_step(s: Seq<char>, i: int)
    requires
        0 <= i < s.len(),
        is_digit(s[i]),
    ensures
        digits_value(s.take(i + 1)) == digits_value(s.take(i)) * 10 + digit_value_of(s[i]),
{
    assert(s.take(i + 1).drop_last() =~= s.take(i));
}

pub open spec fn digit_value_of(c: char) -> nat {
    ((c as u32) - ('0' as u32)) as nat
}

/// Parses a decimal number the way `str::parse::<u64>` does.
pub fn parse_u64_text(s: &[char]) -> (r: Option<u64>)
    ensures
        r == u64_text(s@),
{
    let d = if s.len() > 0 && s[0] == '+' {
        suffix_from(s, 1)
    } else {
        slice_of(s, 0, s.len())
    };
    assert(s@.subrange(0, s@.len() as int) =~= s@);
    if d.len() == 0 {
        return None;
    }
    let mut value: u64 = 0;
    let mut i: usize = 0;
    while i < d.len()
        invariant
            d@ == (if s@.len() > 0 && s@[0] == '+' {
                s@.skip(1)
            } else {
                s@
            }),
            i <= d@.len(),
            d@.len() > 0,
            all_digit_chars(d@.take(i as int)),
            value as nat == digits_value(d@.take(i as int)),
        decreases d.len() - i,
    {
        let c = d[i];
        if !('0' <= c && c <= '9') {
            proof {
                assert(!is_digit(d@[i as int]));
            }
            return None;
        }
        proof {
            assert(is_digit(d@[i as int]));
            lemma_digits_step(d@, i as int);
            assert(d@.take(i + 1).drop_last() =~= d@.take(i as int));
        }
        let digit: u64 = (c as u32 - '0' as u32) as u64;
        if value > (u64::MAX - digit) / 10 {
            proof {
                assert(digits_value(d@.take(i + 1)) > u64::MAX) by (nonlinear_arith)
                    requires
                        digits_value(d@.take(i + 1)) == value * 10 + digit,
                        value > (u64::MAX - digit) / 10,
                        digit < 10,
                ;
                if all_digit_chars(d@) {
                    crate::text::lemma_digits_value_monotone(d@, (i + 1) as int);
                }
            }
            return None;
        }
        proof {
            assert(value * 10 + digit <= u64::MAX) by (nonlinear_arith)
                requires
                    value <= (u64::MAX - digit) / 10,
                    digit < 10,
            ;
        }
        value = value * 10 + digit;
        i = i + 1;
        proof {
            assert forall|k: int| 0 <= k < i implies #[trigger] is_digit(d@.take(i as int)[k]) by {
                if k < i - 1 {
                    assert(d@.take(i as int)[k] == d@.take(i - 1)[k]);
                }
            }
        }
    }
    assert(d@.take(d@.len() as int) =~= d@);
    Some(value)
}

// ---------------------------------------------------------------------------
// Ranges
// ---------------------------------------------------------------------------

/// A version with no pre-release or build.
pub open spec fn bare(b: (u64, u64, u64)) -> (u64, u64, u64, Seq<char>, Seq<char>) {
    (b.0, b.1, b.2, Seq::empty(), Seq::empty())
}

/// A number of a partial version, 0 when missing or not a number.
pub open spec fn number_or_zero(ps: Seq<Seq<char>>, k: int) -> u64 {
    if k < ps.len() {
        match u64_text(ps[k]) {
            Some(v) => v,
            None => 0,
        }
    } else {
        0
    }
}

/// A partial version `major[.minor[.patch]]`: the major number must read,
/// missing or unreadable minor and patch numbers are 0.
pub open spec fn partial_version(raw: Seq<char>) -> Option<(u64, u64, u64)> {
    let ps = split_char(trim(raw), '.');
    match u64_text(ps[0]) {
        None => None,
        Some(major) => Some((major, number_or_zero(ps, 1), number_or_zero(ps, 2))),
    }
}

/// Parses a partial version.
pub fn parse_partial_npm_version(raw: &[char]) -> (r: Option<(u64, u64, u64)>)
    ensures
        r == partial_version(raw@),
{
    let t = trim_chars(raw);
    let ps = split_chars(t.as_slice(), '.');
    proof {
        crate::text::lemma_split_char_nonempty(t@, '.');
        assert(seqs_of(ps@)[0] == ps@[0]@);
    }
    let major = match parse_u64_text(ps[0].as_slice()) {
        None => {
            return None;
        },
        Some(m) => m,
    };
    let minor = if ps.len() > 1 {
        proof {
            assert(seqs_of(ps@)[1] == ps@[1]@);
        }
        match parse_u64_text(ps[1].as_slice()) {
            Some(v) => v,
            None => 0,
        }
    } else {
        0
    };
    let patch = if ps.len() > 2 {
        proof {
            assert(seqs_of(ps@)[2] == ps@[2]@);
        }
        match parse_u64_text(ps[2].as_slice()) {
            Some(v) => v,
            None => 0,
        }
    } else {
        0
    };
    Some((major, minor, patch))
}

/// `v` is the version `b` exactly, with no pre-release or build.
pub open spec fn is_bare(v: (u64, u64, u64, Seq<char>, Seq<char>), b: (u64, u64, u64)) -> bool {
    v == bare(b)
}

/// One comparator holds of a version.
pub open spec fn comparator_holds(v: (u64, u64, u64, Seq<char>, Seq<char>), tok: Seq<char>) -> bool {
    if starts_with(tok, ">="@) {
        match partial_version(tok.skip(2)) {
            None => false,
            Some(b) => semver_order(v, bare(b)) >= 0,
        }
    } else if starts_with(tok, "<="@) {
        match partial_version(tok.skip(2)) {
            None => false,
            Some(b) => semver_order(v, bare(b)) <= 0,
        }
    } else if starts_with(tok, ">"@) {
        match partial_version(tok.skip(1)) {
            None => false,
            Some(b) => semver_order(v, bare(b)) > 0,
        }
    } else if starts_with(tok, "<"@) {
        match partial_version(tok.skip(1)) {
            None => false,
            Some(b) => semver_order(v, bare(b)) < 0,
        }
    } else if starts_with(tok, "="@) {
        match partial_version(tok.skip(1)) {
            None => false,
            Some(b) => is_bare(v, b),
        }
    } else if tok == "*"@ || lower_seq(tok) == "x"@ {
        true
    } else if ends_with(tok, ".x"@) || ends_with(tok, ".*"@) {
        starts_with(semver_text(v), trim_end_char(trim_end_char(tok, 'x'), '*'))
    } else {
        match partial_version(tok) {
            Some(b) => is_bare(v, b),
            None => false,
        }
    }
}

fn bare_version(b: (u64, u64, u64)) -> (v: SemVer)
    ensures
        v.parts() == bare(b),
        semver_valid(v.parts()),
{
    let v = SemVer { major: b.0, minor: b.1, patch: b.2, pre: String::new(), build: String::new() };
    assert(v.parts() =~~= bare(b));
    v
}

fn same_bare(v: &SemVer, b: (u64, u64, u64)) -> (r: bool)
    ensures
        r == is_bare(v.parts(), b),
{
    let pre = chars_of(v.pre.as_str());
    let build = chars_of(v.build.as_str());
    let r = v.major == b.0 && v.minor == b.1 && v.patch == b.2 && pre.len() == 0 && build.len() == 0;
    proof {
        if r {
            assert(v.pre@ =~= Seq::<char>::empty());
            assert(v.build@ =~= Seq::<char>::empty());
        }
    }
    r
}

fn starts_with_str(s: &[char], p: &str) -> (r: bool)
    ensures
        r == starts_with(s@, p@),
{
    let pc = chars_of(p);
    starts_with_chars(s, pc.as_slice())
}

fn ends_with_str(s: &[char], p: &str) -> (r: bool)
    ensures
        r == ends_with(s@, p@),
{
    let pc = chars_of(p);
    ends_with_chars(s, pc.as_slice())
}

fn order_against(v: &SemVer, b: (u64, u64, u64)) -> (r: i8)
    requires
        semver_valid(v.parts()),
    ensures
        r == semver_order(v.parts(), bare(b)),
{
    let w = bare_version(b);
    semver_compare(v, &w)
}

/// Whether one comparator holds of a version.
pub fn npm_comparator_satisfied(v: &SemVer, comparator: &[char]) -> (r: bool)
    requires
        semver_valid(v.parts()),
    ensures
        r == comparator_holds(v.parts(), comparator@),
{
    proof {
        reveal_strlit(">=");
        reveal_strlit("<=");
        reveal_strlit(">");
        reveal_strlit("<");
        reveal_strlit("=");
    }
    if starts_with_str(comparator, ">=") {
        let rest = suffix_from(comparator, 2);
        return match parse_partial_npm_version(rest.as_slice()) {
            None => false,
            Some(b) => order_against(v, b) >= 0,
        };
    }
    if starts_with_str(comparator, "<=") {
        let rest = suffix_from(comparator, 2);
        return match parse_partial_npm_version(rest.as_slice()) {
            None => false,
            Some(b) => order_against(v, b) <= 0,
        };
    }
    if starts_with_str(comparator, ">") {
        let rest = suffix_from(comparator, 1);
        return match parse_partial_npm_version(rest.as_slice()) {
            None => false,
            Some(b) => order_against(v, b) > 0,
        };
    }
    if starts_with_str(comparator, "<") {
        let rest = suffix_from(comparator, 1);
        return match parse_partial_npm_version(rest.as_slice()) {
            None => false,
            Some(b) => order_against(v, b) < 0,
        };
    }
    if starts_with_str(comparator, "=") {
        let rest = suffix_from(comparator, 1);
        return match parse_partial_npm_version(rest.as_slice()) {
            None => false,
            Some(b) => same_bare(v, b),
        };
    }
    let star = chars_of("*");
    let x = chars_of("x");
    let lowered = crate::text::lower_chars(comparator);
    if eq_chars(comparator, star.as_slice()) || eq_chars(lowered.as_slice(), x.as_slice()) {
        return true;
    }
    if ends_with_str(comparator, ".x") || ends_with_str(comparator, ".*") {
        let a = trim_end_matches_char(comparator, 'x');
        let prefix = trim_end_matches_char(a.as_slice(), '*');
        let text = semver_to_text(v);
        return starts_with_chars(text.as_slice(), prefix.as_slice());
    }
    match parse_partial_npm_version(comparator) {
        Some(b) => same_bare(v, b),
        None => false,
    }
}

/// `s` with each `,` replaced by a space.
pub open spec fn commas_to_spaces(s: Seq<char>) -> Seq<char> {
    Seq::new(s.len(), |i: int| if s[i] == ',' { ' ' } else { s[i] })
}

/// `str::split_whitespace`: the maximal runs of non-whitespace characters.
pub open spec fn ws_words(s: Seq<char>) -> Seq<Seq<char>>
    decreases s.len(),
{
    if s.len() == 0 {
        Seq::empty()
    } else {
        let prev = ws_words(s.drop_last());
        let c = s.last();
        if is_ws(c) {
            prev
        } else if s.len() >= 2 && !is_ws(s[s.len() - 2]) && prev.len() > 0 {
            prev.update(prev.len() - 1, prev.last().push(c))
        } else {
            prev.push(seq![c])
        }
    }
}

/// The words of a range.
pub fn split_range_words(s: &[char]) -> (out: Vec<Vec<char>>)
    ensures
        seqs_of(out@) == ws_words(commas_to_spaces(s@)),
{
    let ghost t = commas_to_spaces(s@);
    let mut out: Vec<Vec<char>> = Vec::new();
    let mut i: usize = 0;
    let mut prev_ws = true;
    assert(seqs_of(out@) =~= ws_words(t.take(0)));
    while i < s.len()
        invariant
            t == commas_to_spaces(s@),
            i <= s@.len(),
            seqs_of(out@) == ws_words(t.take(i as int)),
            i > 0 ==> prev_ws == crate::text::is_ws(t[i - 1]),
            i == 0 ==> prev_ws,
            !prev_ws ==> out@.len() > 0,
        decreases s.len() - i,
    {
        let c = if s[i] == ',' {
            ' '
        } else {
            s[i]
        };
        proof {
            assert(t.take(i + 1).drop_last() =~= t.take(i as int));
            assert(t.take(i + 1).last() == c);
            if i > 0 {
                assert(t.take(i + 1)[i - 1] == t[i - 1]);
            }
        }
        let ghost prev = seqs_of(out@);
        if crate::text::is_whitespace(c) {
            prev_ws = true;
        } else if !prev_ws {
            let last = out.len() - 1;
            let mut word = slice_of(out[last].as_slice(), 0, out[last].len());
            proof {
                assert(word@ =~= out@[last as int]@);
                assert(prev.last() == out@[last as int]@);
            }
            word.push(c);
            out.set(last, word);
            proof {
                assert(seqs_of(out@) =~= prev.update(prev.len() - 1, prev.last().push(c)));
            }
        } else {
            let mut word: Vec<char> = Vec::new();
            word.push(c);
            out.push(word);
            proof {
                assert(seqs_of(out@) =~= prev.push(seq![c]));
            }
            prev_ws = false;
        }
        i = i + 1;
    }
    assert(t.take(s@.len() as int) =~= t);
    out
}

/// The caret range's upper bound.
pub open spec fn caret_upper(b: (u64, u64, u64)) -> (u64, u64, u64) {
    if b.0 > 0 {
        ((b.0 + 1) as u64, 0, 0)
    } else if b.1 > 0 {
        (0, (b.1 + 1) as u64, 0)
    } else {
        (0, 0, (b.2 + 1) as u64)
    }
}

/// The number the caret range increments fits one more.
pub open spec fn caret_fits(b: (u64, u64, u64)) -> bool {
    if b.0 > 0 {
        b.0 < u64::MAX
    } else if b.1 > 0 {
        b.1 < u64::MAX
    } else {
        b.2 < u64::MAX
    }
}

/// A single range (at most one word): a caret or tilde range, or all of its
/// comparators.
pub open spec fn single_range_holds(v: (u64, u64, u64, Seq<char>, Seq<char>), r: Seq<char>) -> bool {
    if starts_with(r, "^"@) && partial_version(r.skip(1)) is Some {
        let b = partial_version(r.skip(1))->0;
        semver_order(v, bare(b)) >= 0 && semver_order(v, bare(caret_upper(b))) < 0
    } else if starts_with(r, "~"@) && partial_version(r.skip(1)) is Some {
        let b = partial_version(r.skip(1))->0;
        semver_order(v, bare(b)) >= 0 && semver_order(v, bare((b.0, (b.1 + 1) as u64, 0))) < 0
    } else {
        forall|k: int| 0 <= k < ws_words(commas_to_spaces(r)).len() ==> comparator_holds(
            v,
            #[trigger] ws_words(commas_to_spaces(r))[k],
        )
    }
}

/// The order `semver::Version` gives versions without pre-release or
/// build metadata: by major, minor and patch number (its derived `Ord`
/// compares those fields first, and the empty pre-release and build parts
/// then agree).
pub open spec fn bare_versions_order_by_numbers() -> bool {
    forall|x: (u64, u64, u64), y: (u64, u64, u64)|
        #[trigger] semver_order(bare(x), bare(y)) == numbers_order(bare(x), bare(y))
}

/// A tilde range `~M.m.p` holds of the version `M.m.p` itself and of every
/// bare version from it up to, but not including, the next minor version
/// `M.(m+1).0`, and of no bare version below it or at or above that bound.
pub proof fn tilde_range_spans_its_minor_version(r: Seq<char>, v: (u64, u64, u64))
    requires
        bare_versions_order_by_numbers(),
        starts_with(r, "~"@),
        partial_version(r.skip(1)) is Some,
        (partial_version(r.skip(1))->0).1 < u64::MAX,
    ensures
        single_range_holds(bare(partial_version(r.skip(1))->0), r),
        ({
            let b = partial_version(r.skip(1))->0;
            single_range_holds(bare(v), r) <==> (numbers_order(bare(v), bare(b)) >= 0 && numbers_order(
                bare(v),
                bare((b.0, (b.1 + 1) as u64, 0)),
            ) < 0)
        }),
{
    reveal_strlit("~");
    reveal_strlit("^");
    let b = partial_version(r.skip(1))->0;
    assert(r[0] == '~') by {
        assert(r.take(1)[0] == "~"@[0]);
    }
    assert(!starts_with(r, "^"@)) by {
        if starts_with(r, "^"@) {
            assert(r.take(1)[0] == "^"@[0]);
        }
    }
    assert(semver_order(bare(b), bare(b)) == numbers_order(bare(b), bare(b)));
    assert(semver_order(bare(b), bare((b.0, (b.1 + 1) as u64, 0))) == numbers_order(
        bare(b),
        bare((b.0, (b.1 + 1) as u64, 0)),
    ));
    assert(semver_order(bare(v), bare(b)) == numbers_order(bare(v), bare(b)));
    assert(semver_order(bare(v), bare((b.0, (b.1 + 1) as u64, 0))) == numbers_order(
        bare(v),
        bare((b.0, (b.1 + 1) as u64, 0)),
    ));
}

proof fn lemma_npm_op_starts(op: Seq<char>, t: Seq<char>)
    ensures
        starts_with(op + t, op),
        (op + t).skip(op.len() as int) == t,
{
    assert((op + t).take(op.len() as int) =~= op);
    assert((op + t).skip(op.len() as int) =~= t);
}

proof fn lemma_npm_op_differs(op: Seq<char>, t: Seq<char>, other: Seq<char>, k: int)
    requires
        0 <= k < other.len(),
        k < (op + t).len(),
        (op + t)[k] != other[k],
    ensures
        !starts_with(op + t, other),
{
    if starts_with(op + t, other) {
        assert((op + t).take(other.len() as int)[k] == other[k]);
    }
}

/// npm comparators against a version `b` hold of the version `b` itself as
/// `>=b`, `<=b` and `=b` do, and not as `>b` or `<b` do: the inclusive
/// comparators include their bound and the strict ones exclude it.
pub proof fn comparators_at_their_bound(t: Seq<char>)
    requires
        bare_versions_order_by_numbers(),
        partial_version(t) is Some,
        t.len() > 0,
        t[0] != '=',
    ensures
        comparator_holds(bare(partial_version(t)->0), ">="@ + t),
        comparator_holds(bare(partial_version(t)->0), "<="@ + t),
        comparator_holds(bare(partial_version(t)->0), "="@ + t),
        !comparator_holds(bare(partial_version(t)->0), ">"@ + t),
        !comparator_holds(bare(partial_version(t)->0), "<"@ + t),
{
    reveal_strlit(">=");
    reveal_strlit("<=");
    reveal_strlit(">");
    reveal_strlit("<");
    reveal_strlit("=");
    let b = partial_version(t)->0;
    assert(semver_order(bare(b), bare(b)) == numbers_order(bare(b), bare(b)));
    lemma_npm_op_starts(">="@, t);
    lemma_npm_op_starts("<="@, t);
    lemma_npm_op_starts(">"@, t);
    lemma_npm_op_starts("<"@, t);
    lemma_npm_op_starts("="@, t);
    lemma_npm_op_differs("<="@, t, ">="@, 0);
    lemma_npm_op_differs(">"@, t, ">="@, 1);
    lemma_npm_op_differs(">"@, t, "<="@, 0);
    lemma_npm_op_differs("<"@, t, ">="@, 0);
    lemma_npm_op_differs("<"@, t, "<="@, 1);
    lemma_npm_op_differs("<"@, t, ">"@, 0);
    lemma_npm_op_differs("="@, t, ">="@, 0);
    lemma_npm_op_differs("="@, t, "<="@, 0);
    lemma_npm_op_differs("="@, t, ">"@, 0);
    lemma_npm_op_differs("="@, t, "<"@, 0);
}

/// A caret range `^M.m.p` holds of the version `M.m.p` itself: caret ranges
/// include their lower bound too.
pub proof fn caret_range_holds_at_its_base(r: Seq<char>)
    requires
        bare_versions_order_by_numbers(),
        starts_with(r, "^"@),
        partial_version(r.skip(1)) is Some,
        caret_fits(partial_version(r.skip(1))->0),
    ensures
        single_range_holds(bare(partial_version(r.skip(1))->0), r),
{
    let b = partial_version(r.skip(1))->0;
    assert(semver_order(bare(b), bare(b)) == numbers_order(bare(b), bare(b)));
    assert(semver_order(bare(b), bare(caret_upper(b))) == numbers_order(bare(b), bare(caret_upper(b))));
}

/// A single range whose bounds can be computed.
pub open spec fn single_range_fits(r: Seq<char>) -> bool {
    if starts_with(r, "^"@) && partial_version(r.skip(1)) is Some {
        caret_fits(partial_version(r.skip(1))->0)
    } else if starts_with(r, "~"@) && partial_version(r.skip(1)) is Some {
        (partial_version(r.skip(1))->0).1 < u64::MAX
    } else {
        true
    }
}

/// A version satisfies a range: any version for a blank range, `*` or
/// `latest`; the exact version; each word of a range of several words;
/// else the single range.  `depth` bounds how often a range is taken
/// apart into words (its words are single words).
pub open spec fn satisfies_at(version: Seq<char>, requirement: Seq<char>, depth: nat) -> bool
    decreases depth,
{
    match parsed_semver(version) {
        None => false,
        Some(v) => {
            let r = trim(requirement);
            if r.len() == 0 || r == "*"@ || r == "latest"@ {
                true
            } else if parsed_semver(r) is Some {
                v == parsed_semver(r)->0
            } else {
                let words = ws_words(commas_to_spaces(r));
                if words.len() > 1 {
                    if depth == 0 {
                        false
                    } else {
                        forall|k: int| 0 <= k < words.len() ==> satisfies_at(
                            trim(version),
                            #[trigger] words[k],
                            (depth - 1) as nat,
                        )
                    }
                } else {
                    single_range_holds(v, r)
                }
            }
        },
    }
}

/// The range's bounds can be computed at every depth.
pub open spec fn fits_at(requirement: Seq<char>, depth: nat) -> bool
    decreases depth,
{
    let r = trim(requirement);
    if r.len() == 0 || r == "*"@ || r == "latest"@ || parsed_semver(r) is Some {
        true
    } else {
        let words = ws_words(commas_to_spaces(r));
        if words.len() > 1 {
            depth == 0 || forall|k: int| 0 <= k < words.len() ==> fits_at(
                #[trigger] words[k],
                (depth - 1) as nat,
            )
        } else {
            single_range_fits(r)
        }
    }
}

/// `npm_version_satisfies` as the project reads npm ranges.
pub open spec fn npm_satisfies(version: Seq<char>, requirement: Seq<char>) -> bool {
    satisfies_at(version, requirement, 1)
}

fn single_range(v: &SemVer, r: &[char]) -> (b: bool)
    requires
        semver_valid(v.parts()),
        single_range_fits(r@),
    ensures
        b == single_range_holds(v.parts(), r@),
{
    proof {
        reveal_strlit("^");
        reveal_strlit("~");
    }
    if starts_with_str(r, "^") {
        let rest = suffix_from(r, 1);
        if let Some(b) = parse_partial_npm_version(rest.as_slice()) {
            let upper = if b.0 > 0 {
                (b.0 + 1, 0, 0)
            } else if b.1 > 0 {
                (0, b.1 + 1, 0)
            } else {
                (0, 0, b.2 + 1)
            };
            assert(upper == caret_upper(b));
            return order_against(v, b) >= 0 && order_against(v, upper) < 0;
        }
    }
    if starts_with_str(r, "~") {
        let rest = suffix_from(r, 1);
        if let Some(b) = parse_partial_npm_version(rest.as_slice()) {
            let upper = (b.0, b.1 + 1, 0);
            return order_against(v, b) >= 0 && order_against(v, upper) < 0;
        }
    }
    let words = split_range_words(r);
    let ghost ws = ws_words(commas_to_spaces(r@));
    assert(single_range_holds(v.parts(), r@) == (forall|j: int|
        0 <= j < ws.len() ==> comparator_holds(v.parts(), #[trigger] ws[j])));
    let mut k: usize = 0;
    while k < words.len()
        invariant
            semver_valid(v.parts()),
            single_range_holds(v.parts(), r@) == (forall|j: int|
                0 <= j < ws.len() ==> comparator_holds(v.parts(), #[trigger] ws[j])),
            ws == seqs_of(words@),
            k <= words@.len(),
            forall|j: int| 0 <= j < k ==> comparator_holds(v.parts(), #[trigger] ws[j]),
        decreases words.len() - k,
    {
        if !npm_comparator_satisfied(v, words[k].as_slice()) {
            assert(!comparator_holds(v.parts(), ws[k as int]));
            return false;
        }
        assert(comparator_holds(v.parts(), ws[k as int]));
        k = k + 1;
    }
    true
}

fn same_version(a: &SemVer, b: &SemVer) -> (r: bool)
    ensures
        r == (a.parts() == b.parts()),
{
    let ap = chars_of(a.pre.as_str());
    let bp = chars_of(b.pre.as_str());
    let ab = chars_of(a.build.as_str());
    let bb = chars_of(b.build.as_str());
    let r = a.major == b.major && a.minor == b.minor && a.patch == b.patch && eq_chars(
        ap.as_slice(),
        bp.as_slice(),
    ) && eq_chars(ab.as_slice(), bb.as_slice());
    proof {
        if !r && a.parts() == b.parts() {
            assert(a.pre@ == b.pre@ && a.build@ == b.build@);
        }
    }
    r
}

fn satisfies_impl(version: &str, requirement: &[char], depth: u8) -> (b: bool)
    requires
        depth <= 1,
        fits_at(requirement@, depth as nat),
    ensures
        b == satisfies_at(version@, requirement@, depth as nat),
    decreases depth,
{
    let v = match parse_semver(version) {
        None => {
            return false;
        },
        Some(v) => v,
    };
    proof {
        assert(semver_valid(v.parts()));
    }
    let vc = chars_of(version);
    let raw_version = crate::text::string_from_chars(trim_chars(vc.as_slice()).as_slice());
    let r = trim_chars(requirement);
    let star = chars_of("*");
    let latest = chars_of("latest");
    if r.len() == 0 || eq_chars(r.as_slice(), star.as_slice()) || eq_chars(
        r.as_slice(),
        latest.as_slice(),
    ) {
        return true;
    }
    let rt = crate::text::string_from_chars(r.as_slice());
    if let Some(exact) = parse_semver(rt.as_str()) {
        return same_version(&v, &exact);
    }
    let words = split_range_words(r.as_slice());
    let ghost ws = ws_words(commas_to_spaces(r@));
    if words.len() > 1 {
        if depth == 0 {
            return false;
        }
        assert(satisfies_at(version@, requirement@, depth as nat) == (forall|j: int|
            0 <= j < ws.len() ==> satisfies_at(trim(version@), #[trigger] ws[j], 0)));
        let mut k: usize = 0;
        while k < words.len()
            invariant
                depth == 1,
                satisfies_at(version@, requirement@, depth as nat) == (forall|j: int|
                    0 <= j < ws.len() ==> satisfies_at(trim(version@), #[trigger] ws[j], 0)),
                ws == seqs_of(words@),
                ws.len() > 1,
                raw_version@ == trim(version@),
                forall|j: int| 0 <= j < ws.len() ==> fits_at(#[trigger] ws[j], 0),
                k <= words@.len(),
                forall|j: int| 0 <= j < k ==> satisfies_at(trim(version@), #[trigger] ws[j], 0),
            decreases words.len() - k,
        {
            assert(fits_at(ws[k as int], 0));
            if !satisfies_impl(raw_version.as_str(), words[k].as_slice(), 0) {
                assert(!satisfies_at(trim(version@), ws[k as int], 0));
                return false;
            }
            assert(satisfies_at(trim(version@), ws[k as int], 0));
            k = k + 1;
        }
        return true;
    }
    single_range(&v, r.as_slice())
}

/// Whether a version satisfies an npm range: `*`, `latest` and blank accept
/// any version; an exact version, a caret or tilde range, or comparators
/// (`>=`, `<=`, `>`, `<`, `=`, `x` ranges) separated by spaces or commas.
pub fn npm_version_satisfies(version: &str, requirement: &str) -> (b: bool)
    requires
        fits_at(requirement@, 1),
    ensures
        b == npm_satisfies(version@, requirement@),
{
    let rc = chars_of(requirement);
    satisfies_impl(version, rc.as_slice(), 1)
}

fn single_range_fits_impl(r: &[char]) -> (b: bool)
    ensures
        b == single_range_fits(r@),
{
    proof {
        reveal_strlit("^");
        reveal_strlit("~");
    }
    if starts_with_str(r, "^") {
        let rest = suffix_from(r, 1);
        if let Some(b) = parse_partial_npm_version(rest.as_slice()) {
            return if b.0 > 0 {
                b.0 < u64::MAX
            } else if b.1 > 0 {
                b.1 < u64::MAX
            } else {
                b.2 < u64::MAX
            };
        }
    }
    if starts_with_str(r, "~") {
        let rest = suffix_from(r, 1);
        if let Some(b) = parse_partial_npm_version(rest.as_slice()) {
            return b.1 < u64::MAX;
        }
    }
    true
}

fn range_fits_impl(requirement: &[char], depth: u8) -> (b: bool)
    requires
        depth <= 1,
    ensures
        b == fits_at(requirement@, depth as nat),
    decreases depth,
{
    let r = trim_chars(requirement);
    let star = chars_of("*");
    let latest = chars_of("latest");
    if r.len() == 0 || eq_chars(r.as_slice(), star.as_slice()) || eq_chars(
        r.as_slice(),
        latest.as_slice(),
    ) {
        return true;
    }
    let rt = crate::text::string_from_chars(r.as_slice());
    if parse_semver(rt.as_str()).is_some() {
        return true;
    }
    let words = split_range_words(r.as_slice());
    let ghost ws = ws_words(commas_to_spaces(r@));
    if words.len() > 1 {
        if depth == 0 {
            return true;
        }
        assert(fits_at(requirement@, depth as nat) == (forall|j: int|
            0 <= j < ws.len() ==> fits_at(#[trigger] ws[j], 0)));
        let mut k: usize = 0;
        while k < words.len()
            invariant
                depth == 1,
                fits_at(requirement@, depth as nat) == (forall|j: int|
                    0 <= j < ws.len() ==> fits_at(#[trigger] ws[j], 0)),
                ws == seqs_of(words@),
                k <= words@.len(),
                forall|j: int| 0 <= j < k ==> fits_at(#[trigger] ws[j], 0),
            decreases words.len() - k,
        {
            if !range_fits_impl(words[k].as_slice(), 0) {
                assert(!fits_at(ws[k as int], 0));
                return false;
            }
            k = k + 1;
        }
        return true;
    }
    single_range_fits_impl(r.as_slice())
}

/// Whether the bounds of an npm range fit in `u64`, so that
/// `npm_version_satisfies` can read it.
pub fn npm_range_fits(requirement: &str) -> (b: bool)
    ensures
        b == fits_at(requirement@, 1),
{
    let rc = chars_of(requirement);
    range_fits_impl(rc.as_slice(), 1)
}

/// Whether a version satisfies an npm range, for any range: nothing when
/// the range's bounds do not fit in `u64`.
pub fn npm_version_satisfies_checked(version: &str, requirement: &str) -> (r: Option<bool>)
    ensures
        r == (if fits_at(requirement@, 1) {
            Some(npm_satisfies(version@, requirement@))
        } else {
            None
        }),
{
    if npm_range_fits(requirement) {
        Some(npm_version_satisfies(version, requirement))
    } else {
        None
    }
}

/// Whether a requirement is an exact version.
pub fn is_exact_npm_version(requirement: &str) -> (b: bool)
    ensures
        b == parsed_semver(requirement@) is Some,
{
    parse_semver(requirement).is_some()
}

// ---------------------------------------------------------------------------
// Ordering versions
// ---------------------------------------------------------------------------

/// The order of two version texts: that of SemVer when both parse, else
/// that of the texts.
pub open spec fn npm_version_order(left: Seq<char>, right: Seq<char>) -> int {
    match (parsed_semver(left), parsed_semver(right)) {
        (Some(a), Some(b)) => semver_order(a, b),
        _ => if text_less(left, right) {
            -1
        } else if left == right {
            0
        } else {
            1
        },
    }
}

fn text_order(a: &[char], b: &[char]) -> (r: i8)
    ensures
        r == (if text_less(a@, b@) {
            -1int
        } else if a@ == b@ {
            0int
        } else {
            1int
        }),
{
    let mut i: usize = 0;
    assert(a@.skip(0) =~= a@);
    assert(b@.skip(0) =~= b@);
    while i < a.len() && i < b.len() && a[i] == b[i]
        invariant
            i <= a@.len(),
            i <= b@.len(),
            text_less(a@, b@) == text_less(a@.skip(i as int), b@.skip(i as int)),
            a@.take(i as int) == b@.take(i as int),
        decreases a.len() - i,
    {
        proof {
            assert(a@.skip(i as int).skip(1) =~= a@.skip(i + 1));
            assert(b@.skip(i as int).skip(1) =~= b@.skip(i + 1));
            assert(a@.take(i + 1) =~= a@.take(i as int).push(a@[i as int]));
            assert(b@.take(i + 1) =~= b@.take(i as int).push(b@[i as int]));
        }
        i = i + 1;
    }
    if i == a.len() && i == b.len() {
        assert(a@ =~= a@.take(i as int));
        assert(b@ =~= b@.take(i as int));
        0
    } else if i == a.len() {
        -1
    } else if i == b.len() {
        assert(a@ != b@) by {
            assert(a@.len() != b@.len());
        }
        1
    } else if a[i] < b[i] {
        -1
    } else {
        assert(a@ != b@) by {
            assert(a@[i as int] != b@[i as int]);
        }
        1
    }
}

/// Orders two version texts: by SemVer when both parse, else as texts.
pub fn compare_npm_versions(left: &str, right: &str) -> (o: Ordering)
    ensures
        match o {
            Ordering::Less => npm_version_order(left@, right@) == -1,
            Ordering::Equal => npm_version_order(left@, right@) == 0,
            Ordering::Greater => npm_version_order(left@, right@) == 1,
        },
        npm_version_order(right@, left@) == -npm_version_order(left@, right@),
{
    let parsed = (parse_semver(left), parse_semver(right));
    let r = match parsed {
        (Some(a), Some(b)) => semver_compare(&a, &b),
        _ => {
            let l = chars_of(left);
            let rc = chars_of(right);
            proof {
                lemma_text_less_strict(left@, right@);
            }
            text_order(l.as_slice(), rc.as_slice())
        },
    };
    if r < 0 {
        Ordering::Less
    } else if r == 0 {
        Ordering::Equal
    } else {
        Ordering::Greater
    }
}

// ---------------------------------------------------------------------------
// Engines and platforms
// ---------------------------------------------------------------------------

pub open spec fn engine_operator(t: Seq<char>) -> bool {
    t == ">"@ || t == ">="@ || t == "<"@ || t == "<="@ || t == "="@
}

/// An engine range with each operator joined to the version after it:
/// `>= 14` becomes `>=14`; words are otherwise joined with one space.
pub open spec fn engine_words(words: Seq<Seq<char>>) -> (Seq<char>, bool)
    decreases words.len(),
{
    if words.len() == 0 {
        (Seq::empty(), false)
    } else {
        let (prev, after_operator) = engine_words(words.drop_last());
        let w = words.last();
        if after_operator {
            (prev + w, false)
        } else {
            (if prev.len() > 0 {
                prev + " "@ + w
            } else {
                prev + w
            }, engine_operator(w))
        }
    }
}

/// Normalizes an engine range.
pub fn normalize_npm_engine_requirement(requirement: &[char]) -> (out: Vec<char>)
    ensures
        out@ == engine_words(ws_words(requirement@)).0,
{
    let words = split_words(requirement);
    let ghost ws = ws_words(requirement@);
    let mut out: Vec<char> = Vec::new();
    let mut after_operator = false;
    let mut i: usize = 0;
    while i < words.len()
        invariant
            ws == seqs_of(words@),
            i <= words@.len(),
            (out@, after_operator) == engine_words(ws.take(i as int)),
        decreases words.len() - i,
    {
        proof {
            assert(ws.take(i + 1).drop_last() =~= ws.take(i as int));
            assert(ws.take(i + 1).last() == words@[i as int]@);
        }
        let w = words[i].as_slice();
        if after_operator {
            out = concat_chars(out.as_slice(), w);
            after_operator = false;
        } else {
            if out.len() > 0 {
                let sp = chars_of(" ");
                let with_space = concat_chars(out.as_slice(), sp.as_slice());
                out = concat_chars(with_space.as_slice(), w);
            } else {
                out = concat_chars(out.as_slice(), w);
            }
            after_operator = eq_str(w, ">") || eq_str(w, ">=") || eq_str(w, "<") || eq_str(w, "<=")
                || eq_str(w, "=");
        }
        i = i + 1;
    }
    assert(ws.take(words@.len() as int) =~= ws);
    out
}

fn eq_str(a: &[char], b: &str) -> (r: bool)
    ensures
        r == (a@ == b@),
{
    let c = chars_of(b);
    eq_chars(a, c.as_slice())
}

/// `str::split_whitespace`.
pub fn split_words(s: &[char]) -> (out: Vec<Vec<char>>)
    ensures
        seqs_of(out@) == ws_words(s@),
{
    let mut out: Vec<Vec<char>> = Vec::new();
    let mut i: usize = 0;
    let mut prev_ws = true;
    assert(seqs_of(out@) =~= ws_words(s@.take(0)));
    while i < s.len()
        invariant
            i <= s@.len(),
            seqs_of(out@) == ws_words(s@.take(i as int)),
            i > 0 ==> prev_ws == crate::text::is_ws(s@[i - 1]),
            i == 0 ==> prev_ws,
            !prev_ws ==> out@.len() > 0,
        decreases s.len() - i,
    {
        let c = s[i];
        proof {
            assert(s@.take(i + 1).drop_last() =~= s@.take(i as int));
            assert(s@.take(i + 1).last() == c);
            if i > 0 {
                assert(s@.take(i + 1)[i - 1] == s@[i - 1]);
            }
        }
        let ghost prev = seqs_of(out@);
        if crate::text::is_whitespace(c) {
            prev_ws = true;
        } else if !prev_ws {
            let last = out.len() - 1;
            let mut word = slice_of(out[last].as_slice(), 0, out[last].len());
            proof {
                assert(word@ =~= out@[last as int]@);
                assert(prev.last() == out@[last as int]@);
            }
            word.push(c);
            out.set(last, word);
            proof {
                assert(seqs_of(out@) =~= prev.update(prev.len() - 1, prev.last().push(c)));
            }
        } else {
            let mut word: Vec<char> = Vec::new();
            word.push(c);
            out.push(word);
            proof {
                assert(seqs_of(out@) =~= prev.push(seq![c]));
            }
            prev_ws = false;
        }
        i = i + 1;
    }
    assert(s@.take(s@.len() as int) =~= s@);
    out
}

/// Whether an `os` / `cpu` / `libc` list allows the current value: a list
/// that is absent allows anything; a `!value` entry for the current value
/// refuses; otherwise the positive entries, if any, must name it.  With no
/// current value, only a list of negations allows.
pub open spec fn list_allows(list: Option<Seq<Seq<char>>>, current: Option<Seq<char>>) -> bool {
    match list {
        None => true,
        Some(values) => match current {
            None => all_negated(values),
            Some(c) => !names_negated(values, c) && (all_negated(values) || names_positive(values, c)),
        },
    }
}

/// Every entry is a negation `!value`.
pub open spec fn all_negated(values: Seq<Seq<char>>) -> bool {
    forall|i: int| 0 <= i < values.len() ==> starts_with(#[trigger] values[i], "!"@)
}

/// Some entry is `!c`.
pub open spec fn names_negated(values: Seq<Seq<char>>, c: Seq<char>) -> bool {
    exists|i: int| 0 <= i < values.len() && #[trigger] values[i] == "!"@ + c
}

/// Some positive entry is `c`.
pub open spec fn names_positive(values: Seq<Seq<char>>, c: Seq<char>) -> bool {
    exists|i: int| 0 <= i < values.len() && !starts_with(#[trigger] values[i], "!"@) && values[i] == c
}

/// Whether an `os` / `cpu` / `libc` list allows the current value.
pub fn npm_string_list_allows(list: Option<&Vec<String>>, current: Option<&str>) -> (b: bool)
    ensures
        b == list_allows(
            match list {
                Some(v) => Some(crate::policy_guidance::seqs_of_strings(v@)),
                None => None,
            },
            match current {
                Some(c) => Some(c@),
                None => None,
            },
        ),
{
    let values = match list {
        None => {
            return true;
        },
        Some(v) => v,
    };
    let ghost vs = crate::policy_guidance::seqs_of_strings(values@);
    let bang = chars_of("!");
    let mut i: usize = 0;
    let cur = match current {
        None => {
            while i < values.len()
                invariant
                    list == Some(values),
                    current is None,
                    vs == crate::policy_guidance::seqs_of_strings(values@),
                    bang@ == "!"@,
                    i <= values@.len(),
                    forall|j: int| 0 <= j < i ==> starts_with(#[trigger] vs[j], "!"@),
                decreases values.len() - i,
            {
                let v = chars_of(values[i].as_str());
                if !starts_with_chars(v.as_slice(), bang.as_slice()) {
                    assert(v@ == vs[i as int]);
                    assert(!starts_with(vs[i as int], "!"@));
                    assert(!all_negated(vs));
                    return false;
                }
                i = i + 1;
            }
            return true;
        },
        Some(c) => c,
    };
    let cc = chars_of(cur);
    let negated = concat_chars(bang.as_slice(), cc.as_slice());
    let mut any_positive = false;
    let mut found = false;
    while i < values.len()
        invariant
            list == Some(values),
            current == Some(cur),
            vs == crate::policy_guidance::seqs_of_strings(values@),
            bang@ == "!"@,
            cc@ == cur@,
            negated@ == "!"@ + cur@,
            i <= values@.len(),
            forall|j: int| 0 <= j < i ==> #[trigger] vs[j] != "!"@ + cur@,
            any_positive == !all_negated(vs.take(i as int)),
            found == names_positive(vs.take(i as int), cur@),
        decreases values.len() - i,
    {
        let v = chars_of(values[i].as_str());
        assert(v@ == vs[i as int]);
        if eq_chars(v.as_slice(), negated.as_slice()) {
            assert(names_negated(vs, cur@));
            return false;
        }
        let ghost before = vs.take(i as int);
        let ghost after = vs.take(i + 1);
        assert(after =~= before.push(vs[i as int]));
        if !starts_with_chars(v.as_slice(), bang.as_slice()) {
            any_positive = true;
            assert(!all_negated(after)) by {
                assert(after[i as int] == vs[i as int]);
            }
            if eq_chars(v.as_slice(), cc.as_slice()) {
                found = true;
                assert(names_positive(after, cur@)) by {
                    assert(after[i as int] == vs[i as int]);
                }
            } else {
                assert(names_positive(after, cur@) == names_positive(before, cur@)) by {
                    if names_positive(after, cur@) {
                        let j = choose|j: int| 0 <= j < after.len() && !starts_with(#[trigger] after[j], "!"@) && after[j] == cur@;
                        assert(j < i);
                        assert(before[j] == after[j]);
                    }
                    if names_positive(before, cur@) {
                        let j = choose|j: int| 0 <= j < before.len() && !starts_with(#[trigger] before[j], "!"@) && before[j] == cur@;
                        assert(after[j] == before[j]);
                    }
                }
            }
        } else {
            assert(all_negated(after) == all_negated(before)) by {
                if all_negated(before) {
                    assert forall|j: int| 0 <= j < after.len() implies starts_with(#[trigger] after[j], "!"@) by {
                        if j < i {
                            assert(after[j] == before[j]);
                        }
                    }
                }
                if all_negated(after) {
                    assert forall|j: int| 0 <= j < before.len() implies starts_with(#[trigger] before[j], "!"@) by {
                        assert(after[j] == before[j]);
                    }
                }
            }
            assert(names_positive(after, cur@) == names_positive(before, cur@)) by {
                if names_positive(after, cur@) {
                    let j = choose|j: int| 0 <= j < after.len() && !starts_with(#[trigger] after[j], "!"@) && after[j] == cur@;
                    assert(j < i);
                    assert(before[j] == after[j]);
                }
                if names_positive(before, cur@) {
                    let j = choose|j: int| 0 <= j < before.len() && !starts_with(#[trigger] before[j], "!"@) && before[j] == cur@;
                    assert(after[j] == before[j]);
                }
            }
        }
        i = i + 1;
    }
    proof {
        assert(vs.take(vs.len() as int) =~= vs);
        assert(!names_negated(vs, cur@));
    }
    !any_positive || found
}

} // verus!
