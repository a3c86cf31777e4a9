//! Character-sequence primitives shared by the parsers of this crate.
//!
//! Text is handled as a sequence of Unicode scalar values (`Seq<char>`), the
//! view that vstd gives to `str` and `String`.  Every helper here states its
//! result over that view.
use vstd::prelude::*;

verus! {

// ---------------------------------------------------------------------------
// Character classes
// ---------------------------------------------------------------------------

/// Unicode `White_Space`, the class that `char::is_whitespace` tests.
pub open spec fn is_ws(c: char) -> bool {
    ||| ('\u{9}' <= c && c <= '\u{d}')
    ||| c == ' '
    ||| c == '\u{85}'
    ||| c == '\u{a0}'
    ||| c == '\u{1680}'
    ||| ('\u{2000}' <= c && c <= '\u{200a}')
    ||| c == '\u{2028}'
    ||| c == '\u{2029}'
    ||| c == '\u{202f}'
    ||| c == '\u{205f}'
    ||| c == '\u{3000}'
}

pub open spec fn is_digit(c: char) -> bool {
    '0' <= c && c <= '9'
}

pub open spec fn is_ascii_upper(c: char) -> bool {
    'A' <= c && c <= 'Z'
}

pub open spec fn is_ascii_lower_letter(c: char) -> bool {
    'a' <= c && c <= 'z'
}

pub open spec fn is_ascii_alpha(c: char) -> bool {
    is_ascii_upper(c) || is_ascii_lower_letter(c)
}

pub open spec fn is_ascii(c: char) -> bool {
    (c as u32) < 128
}

pub open spec fn is_hex_digit(c: char) -> bool {
    is_digit(c) || ('a' <= c && c <= 'f') || ('A' <= c && c <= 'F')
}

/// ASCII lower-casing of one character; other characters are unchanged.
pub open spec fn lower_char(c: char) -> char {
    if is_ascii_upper(c) {
        ((c as u32) + 32) as char
    } else {
        c
    }
}

/// ASCII lower-casing of a whole sequence (`str::to_ascii_lowercase`).
pub open spec fn lower_seq(s: Seq<char>) -> Seq<char> {
    Seq::new(s.len(), |i: int| lower_char(s[i]))
}

pub fn is_whitespace(c: char) -> (b: bool)
    ensures
        b == is_ws(c),
{
    ('\u{9}' <= c && c <= '\u{d}') || c == ' ' || c == '\u{85}' || c == '\u{a0}' || c
        == '\u{1680}' || ('\u{2000}' <= c && c <= '\u{200a}') || c == '\u{2028}' || c
        == '\u{2029}' || c == '\u{202f}' || c == '\u{205f}' || c == '\u{3000}'
}

pub fn is_ascii_digit(c: char) -> (b: bool)
    ensures
        b == is_digit(c),
{
    '0' <= c && c <= '9'
}

pub fn is_ascii_alphabetic(c: char) -> (b: bool)
    ensures
        b == is_ascii_alpha(c),
{
    ('A' <= c && c <= 'Z') || ('a' <= c && c <= 'z')
}

pub fn to_ascii_lower(c: char) -> (r: char)
    ensures
        r == lower_char(c),
{
    if 'A' <= c && c <= 'Z' {
        let b: u32 = c as u32;
        proof {
            assert(65 <= b <= 90);
        }
        let l: u8 = (b + 32) as u8;
        l as char
    } else {
        c
    }
}

// ---------------------------------------------------------------------------
// Prefix/suffix spans, trimming
// ---------------------------------------------------------------------------

/// Length of the longest prefix of `s` whose characters all satisfy `p`.
pub open spec fn span(s: Seq<char>, p: spec_fn(char) -> bool) -> nat
    decreases s.len(),
{
    if s.len() > 0 && p(s[0]) {
        1 + span(s.drop_first(), p)
    } else {
        0
    }
}

/// Length of the longest suffix of `s` whose characters all satisfy `p`.
pub open spec fn rspan(s: Seq<char>, p: spec_fn(char) -> bool) -> nat
    decreases s.len(),
{
    if s.len() > 0 && p(s.last()) {
        1 + rspan(s.drop_last(), p)
    } else {
        0
    }
}

/// `span` is the index of the first character that fails `p`.
pub proof fn lemma_span_at(s: Seq<char>, p: spec_fn(char) -> bool, i: int)
    requires
        0 <= i <= s.len(),
        forall|j: int| 0 <= j < i ==> #[trigger] p(s[j]),
        i == s.len() || !p(s[i]),
    ensures
        span(s, p) == i,
    decreases i,
{
    if i > 0 {
        let t = s.drop_first();
        assert forall|j: int| 0 <= j < i - 1 implies #[trigger] p(t[j]) by {
            assert(t[j] == s[j + 1]);
        }
        if i - 1 < t.len() {
            assert(t[i - 1] == s[i]);
        }
        lemma_span_at(t, p, i - 1);
    }
}

/// `rspan` counts the characters after the last one that fails `p`.
pub proof fn lemma_rspan_at(s: Seq<char>, p: spec_fn(char) -> bool, i: int)
    requires
        0 <= i <= s.len(),
        forall|j: int| i <= j < s.len() ==> #[trigger] p(s[j]),
        i == 0 || !p(s[i - 1]),
    ensures
        rspan(s, p) == s.len() - i,
    decreases s.len() - i,
{
    if i < s.len() {
        let t = s.drop_last();
        assert forall|j: int| i <= j < t.len() implies #[trigger] p(t[j]) by {
            assert(t[j] == s[j]);
        }
        if i > 0 {
            assert(t[i - 1] == s[i - 1]);
        }
        lemma_rspan_at(t, p, i);
    }
}

pub proof fn lemma_span_bound(s: Seq<char>, p: spec_fn(char) -> bool)
    ensures
        span(s, p) <= s.len(),
        forall|j: int| 0 <= j < span(s, p) ==> #[trigger] p(s[j]),
        span(s, p) < s.len() ==> !p(s[span(s, p) as int]),
    decreases s.len(),
{
    if s.len() > 0 && p(s[0]) {
        let t = s.drop_first();
        lemma_span_bound(t, p);
        assert forall|j: int| 0 <= j < span(s, p) implies #[trigger] p(s[j]) by {
            if j > 0 {
                assert(s[j] == t[j - 1]);
            }
        }
        if span(s, p) < s.len() {
            assert(s[span(s, p) as int] == t[span(t, p) as int]);
        }
    }
}

pub proof fn lemma_rspan_bound(s: Seq<char>, p: spec_fn(char) -> bool)
    ensures
        rspan(s, p) <= s.len(),
        forall|j: int| s.len() - rspan(s, p) <= j < s.len() ==> #[trigger] p(s[j]),
        rspan(s, p) < s.len() ==> !p(s[s.len() - rspan(s, p) - 1]),
    decreases s.len(),
{
    if s.len() > 0 && p(s.last()) {
        let t = s.drop_last();
        lemma_rspan_bound(t, p);
        assert forall|j: int| s.len() - rspan(s, p) <= j < s.len() implies #[trigger] p(s[j]) by {
            if j < s.len() - 1 {
                assert(s[j] == t[j]);
            }
        }
        if rspan(s, p) < s.len() {
            assert(s[s.len() - rspan(s, p) - 1] == t[t.len() - rspan(t, p) - 1]);
        }
    }
}

pub open spec fn ws_pred() -> spec_fn(char) -> bool {
    |c: char| is_ws(c)
}

pub open spec fn digit_pred() -> spec_fn(char) -> bool {
    |c: char| is_digit(c)
}

pub open spec fn char_pred(x: char) -> spec_fn(char) -> bool {
    |c: char| c == x
}

/// `str::trim_start`.
pub open spec fn trim_start(s: Seq<char>) -> Seq<char> {
    s.skip(span(s, ws_pred()) as int)
}

/// `str::trim_end`.
pub open spec fn trim_end(s: Seq<char>) -> Seq<char> {
    s.take(s.len() - rspan(s, ws_pred()))
}

/// `str::trim`.
pub open spec fn trim(s: Seq<char>) -> Seq<char> {
    trim_end(trim_start(s))
}

/// `str::trim_start_matches(x)` for a single character `x`.
pub open spec fn trim_start_char(s: Seq<char>, x: char) -> Seq<char> {
    s.skip(span(s, char_pred(x)) as int)
}

/// `str::trim_end_matches(x)` for a single character `x`.
pub open spec fn trim_end_char(s: Seq<char>, x: char) -> Seq<char> {
    s.take(s.len() - rspan(s, char_pred(x)))
}

pub open spec fn starts_with(s: Seq<char>, p: Seq<char>) -> bool {
    p.len() <= s.len() && s.take(p.len() as int) == p
}

pub open spec fn ends_with(s: Seq<char>, p: Seq<char>) -> bool {
    p.len() <= s.len() && s.skip(s.len() - p.len()) == p
}

/// `p` occurs in `s` starting at index `i`.
pub open spec fn occurs_at(s: Seq<char>, p: Seq<char>, i: int) -> bool {
    0 <= i && i + p.len() <= s.len() && s.subrange(i, i + p.len()) == p
}

/// Index of the first occurrence of `p` in `s` (`str::find`).
#[verifier::opaque]
pub open spec fn first_occurrence(s: Seq<char>, p: Seq<char>) -> Option<int> {
    if exists|i: int| occurs_at(s, p, i) {
        Some(choose|i: int| occurs_at(s, p, i) && forall|j: int| 0 <= j < i ==> !occurs_at(s, p, j))
    } else {
        None
    }
}

/// Index of the first occurrence of the character `c` in `s`.
#[verifier::opaque]
pub open spec fn index_of(s: Seq<char>, c: char) -> Option<int> {
    if exists|i: int| 0 <= i < s.len() && s[i] == c {
        Some(choose|i: int| 0 <= i < s.len() && s[i] == c && forall|j: int| 0 <= j < i ==> s[j] != c)
    } else {
        None
    }
}

pub proof fn lemma_index_of(s: Seq<char>, c: char, k: int)
    requires
        0 <= k <= s.len(),
        forall|j: int| 0 <= j < k ==> s[j] != c,
        k == s.len() || s[k] == c,
    ensures
        k < s.len() ==> index_of(s, c) == Some(k),
        k == s.len() ==> index_of(s, c) is None,
{
    reveal(index_of);
    if k < s.len() {
        let w = choose|i: int| 0 <= i < s.len() && s[i] == c && forall|j: int| 0 <= j < i ==> s[j] != c;
        assert(0 <= w < s.len() && s[w] == c && forall|j: int| 0 <= j < w ==> s[j] != c);
        if w < k {
        } else if w > k {
            assert(s[k] != c);
        }
    }
}

pub proof fn lemma_first_occurrence(s: Seq<char>, p: Seq<char>, k: int)
    requires
        0 <= k,
        forall|j: int| 0 <= j < k ==> !occurs_at(s, p, j),
        occurs_at(s, p, k) || k + p.len() > s.len(),
    ensures
        occurs_at(s, p, k) ==> first_occurrence(s, p) == Some(k),
        !occurs_at(s, p, k) ==> first_occurrence(s, p) is None,
{
    reveal(first_occurrence);
    if occurs_at(s, p, k) {
        let w = choose|i: int| occurs_at(s, p, i) && forall|j: int| 0 <= j < i ==> !occurs_at(s, p, j);
        assert(occurs_at(s, p, w) && forall|j: int| 0 <= j < w ==> !occurs_at(s, p, j));
        if w < k {
        } else if w > k {
        }
    } else {
        assert forall|i: int| !occurs_at(s, p, i) by {
            if 0 <= i < k {
            } else if i >= k {
            }
        }
    }
}

/// The decimal value of a digit sequence.
pub open spec fn digits_value(s: Seq<char>) -> nat
    decreases s.len(),
{
    if s.len() == 0 {
        0
    } else {
        (digits_value(s.drop_last()) * 10 + ((s.last() as u32) - ('0' as u32))) as nat
    }
}

/// What `str::parse::<u64>().unwrap_or(0)` gives for a sequence of ASCII
/// digits: its value when it is non-empty and fits, else 0.
pub open spec fn parse_u64_or_zero(s: Seq<char>) -> u64 {
    if s.len() > 0 && digits_value(s) <= u64::MAX {
        digits_value(s) as u64
    } else {
        0
    }
}

pub proof fn lemma_digits_value_monotone(s: Seq<char>, k: int)
    requires
        0 <= k <= s.len(),
        forall|j: int| 0 <= j < s.len() ==> #[trigger] is_digit(s[j]),
    ensures
        digits_value(s.take(k)) <= digits_value(s),
    decreases s.len() - k,
{
    if k < s.len() {
        let t = s.drop_last();
        assert(t.take(k) == s.take(k));
        assert forall|j: int| 0 <= j < t.len() implies #[trigger] is_digit(t[j]) by {
            assert(t[j] == s[j]);
        }
        lemma_digits_value_monotone(t, k);
        assert(is_digit(s.last()));
        assert(digits_value(s) == (digits_value(t) * 10 + ((s.last() as u32) - ('0' as u32))) as nat);
    } else {
        assert(s.take(k) == s);
    }
}

// ---------------------------------------------------------------------------
// Executable helpers
// ---------------------------------------------------------------------------

/// The characters of a string slice, in order.
pub fn chars_of(s: &str) -> (out: Vec<char>)
    ensures
        out@ == s@,
{
    let mut out: Vec<char> = Vec::new();
    for c in it: s.chars()
        invariant
            out@ == it.seq().take(it.index() as int),
            it.seq() == s@,
    {
        out.push(c);
    }
    out
}

/// Builds a `String` from its characters, via `FromIterator<&char> for String`.
/// The contract claims that the string holds exactly the given characters in
/// order, which is what collecting characters into a `String` does.
#[verifier::external_body]
pub fn string_from_chars(v: &[char]) -> (s: String)
    ensures
        s@ == v@,
{
    v.iter().collect()
}

/// A copy of `s[lo..hi]`.
pub fn slice_of(s: &[char], lo: usize, hi: usize) -> (out: Vec<char>)
    requires
        lo <= hi <= s@.len(),
    ensures
        out@ == s@.subrange(lo as int, hi as int),
{
    let mut out: Vec<char> = Vec::new();
    let mut i: usize = lo;
    while i < hi
        invariant
            lo <= i <= hi <= s@.len(),
            out@ == s@.subrange(lo as int, i as int),
        decreases hi - i,
    {
        out.push(s[i]);
        i = i + 1;
    }
    out
}

/// A copy of `s[lo..]`.
pub fn suffix_from(s: &[char], lo: usize) -> (out: Vec<char>)
    requires
        lo <= s@.len(),
    ensures
        out@ == s@.skip(lo as int),
{
    slice_of(s, lo, s.len())
}

pub fn eq_chars(a: &[char], b: &[char]) -> (r: bool)
    ensures
        r == (a@ == b@),
{
    if a.len() != b.len() {
        return false;
    }
    let mut i: usize = 0;
    while i < a.len()
        invariant
            a@.len() == b@.len(),
            i <= a@.len(),
            forall|j: int| 0 <= j < i ==> a@[j] == b@[j],
        decreases a.len() - i,
    {
        if a[i] != b[i] {
            return false;
        }
        i = i + 1;
    }
    assert(a@ =~= b@);
    true
}

/// Whether `p` occurs in `s` at index `i`.
pub fn matches_at(s: &[char], p: &[char], i: usize) -> (r: bool)
    ensures
        r == occurs_at(s@, p@, i as int),
{
    if i > s.len() || p.len() > s.len() - i {
        return false;
    }
    let mut k: usize = 0;
    while k < p.len()
        invariant
            i + p@.len() <= s@.len(),
            s@.len() == s.len(),
            k <= p@.len(),
            forall|j: int| 0 <= j < k ==> s@[i + j] == p@[j],
        decreases p.len() - k,
    {
        if s[i + k] != p[k] {
            assert(s@.subrange(i as int, i + p@.len())[k as int] != p@[k as int]);
            return false;
        }
        k = k + 1;
    }
    assert(s@.subrange(i as int, i + p@.len()) =~= p@);
    true
}

pub fn starts_with_chars(s: &[char], p: &[char]) -> (r: bool)
    ensures
        r == starts_with(s@, p@),
{
    let r = matches_at(s, p, 0);
    proof {
        if p@.len() <= s@.len() {
            assert(s@.subrange(0, p@.len() as int) == s@.take(p@.len() as int));
        }
    }
    r
}

pub fn ends_with_chars(s: &[char], p: &[char]) -> (r: bool)
    ensures
        r == ends_with(s@, p@),
{
    if p.len() > s.len() {
        return false;
    }
    let r = matches_at(s, p, s.len() - p.len());
    proof {
        assert(s@.subrange(s@.len() - p@.len(), s@.len() as int) == s@.skip(s@.len() - p@.len()));
    }
    r
}

/// `str::find` for a pattern.
pub fn find_chars(s: &[char], p: &[char]) -> (r: Option<usize>)
    ensures
        r matches Some(i) ==> first_occurrence(s@, p@) == Some(i as int) && occurs_at(
            s@,
            p@,
            i as int,
        ) && forall|j: int| 0 <= j < i ==> !occurs_at(s@, p@, j),
        r is None ==> first_occurrence(s@, p@) is None,
        s@.len() <= usize::MAX,
{
    if p.len() > s.len() {
        proof {
            lemma_first_occurrence(s@, p@, 0);
        }
        return None;
    }
    if p.len() == 0 {
        proof {
            assert(s@.subrange(0, 0) =~= p@);
            lemma_first_occurrence(s@, p@, 0);
        }
        return Some(0);
    }
    let mut i: usize = 0;
    while i <= s.len() - p.len()
        invariant
            0 < p@.len() <= s@.len(),
            i <= s@.len() - p@.len() + 1,
            forall|j: int| 0 <= j < i ==> !occurs_at(s@, p@, j),
        decreases s.len() - i,
    {
        if matches_at(s, p, i) {
            proof {
                lemma_first_occurrence(s@, p@, i as int);
            }
            return Some(i);
        }
        i = i + 1;
    }
    proof {
        lemma_first_occurrence(s@, p@, i as int);
    }
    None
}

/// Index of the first `c` in `s`.
pub fn find_char(s: &[char], c: char) -> (r: Option<usize>)
    ensures
        r matches Some(i) ==> index_of(s@, c) == Some(i as int) && i < s@.len() && s@[i as int]
            == c && forall|j: int| 0 <= j < i ==> s@[j] != c,
        s@.len() <= usize::MAX,
        r is None ==> forall|j: int| 0 <= j < s@.len() ==> s@[j] != c,
        r is None ==> index_of(s@, c) is None,
{
    let mut i: usize = 0;
    while i < s.len()
        invariant
            i <= s@.len(),
            forall|j: int| 0 <= j < i ==> s@[j] != c,
        decreases s.len() - i,
    {
        if s[i] == c {
            proof {
                lemma_index_of(s@, c, i as int);
            }
            return Some(i);
        }
        i = i + 1;
    }
    proof {
        lemma_index_of(s@, c, i as int);
    }
    None
}

/// Number of leading whitespace characters.
pub fn ws_span(s: &[char]) -> (n: usize)
    ensures
        n == span(s@, ws_pred()),
{
    let mut i: usize = 0;
    while i < s.len() && is_whitespace(s[i])
        invariant
            i <= s@.len(),
            forall|j: int| 0 <= j < i ==> #[trigger] ws_pred()(s@[j]),
        decreases s.len() - i,
    {
        i = i + 1;
    }
    proof {
        lemma_span_at(s@, ws_pred(), i as int);
    }
    i
}

/// Number of trailing whitespace characters.
pub fn ws_rspan(s: &[char]) -> (n: usize)
    ensures
        n == rspan(s@, ws_pred()),
{
    let mut i: usize = s.len();
    while i > 0 && is_whitespace(s[i - 1])
        invariant
            i <= s@.len(),
            forall|j: int| i <= j < s@.len() ==> #[trigger] ws_pred()(s@[j]),
        decreases i,
    {
        i = i - 1;
    }
    proof {
        lemma_rspan_at(s@, ws_pred(), i as int);
    }
    s.len() - i
}

/// Number of leading occurrences of `x`.
pub fn char_span(s: &[char], x: char) -> (n: usize)
    ensures
        n == span(s@, char_pred(x)),
{
    let mut i: usize = 0;
    while i < s.len() && s[i] == x
        invariant
            i <= s@.len(),
            forall|j: int| 0 <= j < i ==> #[trigger] char_pred(x)(s@[j]),
        decreases s.len() - i,
    {
        i = i + 1;
    }
    proof {
        lemma_span_at(s@, char_pred(x), i as int);
    }
    i
}

/// Number of trailing occurrences of `x`.
pub fn char_rspan(s: &[char], x: char) -> (n: usize)
    ensures
        n == rspan(s@, char_pred(x)),
{
    let mut i: usize = s.len();
    while i > 0 && s[i - 1] == x
        invariant
            i <= s@.len(),
            forall|j: int| i <= j < s@.len() ==> #[trigger] char_pred(x)(s@[j]),
        decreases i,
    {
        i = i - 1;
    }
    proof {
        lemma_rspan_at(s@, char_pred(x), i as int);
    }
    s.len() - i
}

/// Number of leading ASCII digits.
pub fn digit_span(s: &[char]) -> (n: usize)
    ensures
        n == span(s@, digit_pred()),
{
    let mut i: usize = 0;
    while i < s.len() && is_ascii_digit(s[i])
        invariant
            i <= s@.len(),
            forall|j: int| 0 <= j < i ==> #[trigger] digit_pred()(s@[j]),
        decreases s.len() - i,
    {
        i = i + 1;
    }
    proof {
        lemma_span_at(s@, digit_pred(), i as int);
    }
    i
}

pub fn trim_start_chars(s: &[char]) -> (out: Vec<char>)
    ensures
        out@ == trim_start(s@),
{
    let n = ws_span(s);
    proof {
        lemma_span_bound(s@, ws_pred());
    }
    suffix_from(s, n)
}

pub fn trim_end_chars(s: &[char]) -> (out: Vec<char>)
    ensures
        out@ == trim_end(s@),
{
    let n = ws_rspan(s);
    proof {
        lemma_rspan_bound(s@, ws_pred());
    }
    let out = slice_of(s, 0, s.len() - n);
    proof {
        assert(s@.subrange(0, s@.len() - n) == s@.take(s@.len() - n));
    }
    out
}

pub fn trim_chars(s: &[char]) -> (out: Vec<char>)
    ensures
        out@ == trim(s@),
{
    let a = trim_start_chars(s);
    trim_end_chars(a.as_slice())
}

pub fn trim_start_matches_char(s: &[char], x: char) -> (out: Vec<char>)
    ensures
        out@ == trim_start_char(s@, x),
{
    let n = char_span(s, x);
    proof {
        lemma_span_bound(s@, char_pred(x));
    }
    suffix_from(s, n)
}

pub fn trim_end_matches_char(s: &[char], x: char) -> (out: Vec<char>)
    ensures
        out@ == trim_end_char(s@, x),
{
    let n = char_rspan(s, x);
    proof {
        lemma_rspan_bound(s@, char_pred(x));
    }
    let out = slice_of(s, 0, s.len() - n);
    proof {
        assert(s@.subrange(0, s@.len() - n) == s@.take(s@.len() - n));
    }
    out
}

pub fn lower_chars(s: &[char]) -> (out: Vec<char>)
    ensures
        out@ == lower_seq(s@),
{
    let mut out: Vec<char> = Vec::new();
    let mut i: usize = 0;
    while i < s.len()
        invariant
            i <= s@.len(),
            out@ == lower_seq(s@).take(i as int),
        decreases s.len() - i,
    {
        let c = to_ascii_lower(s[i]);
        out.push(c);
        i = i + 1;
        proof {
            assert(out@ =~= lower_seq(s@).take(i as int));
        }
    }
    assert(out@ =~= lower_seq(s@));
    out
}

/// `str::parse::<u64>().unwrap_or(0)` on a run of ASCII digits.
pub fn parse_digits_or_zero(s: &[char]) -> (v: u64)
    requires
        forall|j: int| 0 <= j < s@.len() ==> #[trigger] is_digit(s@[j]),
    ensures
        v == parse_u64_or_zero(s@),
{
    if s.len() == 0 {
        return 0;
    }
    let mut acc: u64 = 0;
    let mut i: usize = 0;
    while i < s.len()
        invariant
            0 < s@.len(),
            i <= s@.len(),
            forall|j: int| 0 <= j < s@.len() ==> #[trigger] is_digit(s@[j]),
            acc == digits_value(s@.take(i as int)),
        decreases s.len() - i,
    {
        proof {
            assert(is_digit(s@[i as int]));
        }
        let d: u64 = (s[i] as u32 - '0' as u32) as u64;
        proof {
            let t = s@.take(i as int + 1);
            assert(t.drop_last() == s@.take(i as int));
            assert(t.last() == s@[i as int]);
            assert(is_digit(s@[i as int]));
        }
        if acc > (u64::MAX - d) / 10 {
            proof {
                lemma_digits_value_monotone(s@, i as int + 1);
                assert(digits_value(s@.take(i as int + 1)) == acc * 10 + d);
                assert(acc * 10 + d > u64::MAX) by (nonlinear_arith)
                    requires
                        acc > (u64::MAX - d) / 10,
                        d <= 9,
                ;
            }
            return 0;
        }
        proof {
            assert(acc * 10 + d <= u64::MAX) by (nonlinear_arith)
                requires
                    acc <= (u64::MAX - d) / 10,
                    d <= 9,
            ;
        }
        acc = acc * 10 + d;
        i = i + 1;
    }
    assert(s@.take(s@.len() as int) == s@);
    acc
}


// ---------------------------------------------------------------------------
// Splitting and trimming by character sets
// ---------------------------------------------------------------------------

/// `str::split(c)`: the pieces between occurrences of `c`, read from the
/// front one character at a time.
pub open spec fn split_char(s: Seq<char>, c: char) -> Seq<Seq<char>>
    decreases s.len(),
{
    if s.len() == 0 {
        seq![Seq::<char>::empty()]
    } else {
        let prev = split_char(s.drop_last(), c);
        if s.last() == c {
            prev.push(Seq::<char>::empty())
        } else {
            prev.update(prev.len() - 1, prev.last().push(s.last()))
        }
    }
}

pub proof fn lemma_split_char_nonempty(s: Seq<char>, c: char)
    ensures
        split_char(s, c).len() >= 1,
    decreases s.len(),
{
    if s.len() > 0 {
        lemma_split_char_nonempty(s.drop_last(), c);
    }
}

/// The views of a list of character vectors.
pub open spec fn seqs_of(v: Seq<Vec<char>>) -> Seq<Seq<char>> {
    Seq::new(v.len(), |i: int| v[i]@)
}

/// Splits on every `c` (`str::split`).
pub fn split_chars(s: &[char], c: char) -> (out: Vec<Vec<char>>)
    ensures
        seqs_of(out@) == split_char(s@, c),
{
    let mut done: Vec<Vec<char>> = Vec::new();
    let mut cur: Vec<char> = Vec::new();
    let mut i: usize = 0;
    assert(s@.take(0) =~= Seq::<char>::empty());
    assert(seqs_of(done@).push(cur@) =~= split_char(s@.take(0), c));
    while i < s.len()
        invariant
            i <= s@.len(),
            seqs_of(done@).push(cur@) == split_char(s@.take(i as int), c),
        decreases s.len() - i,
    {
        let ghost prev = split_char(s@.take(i as int), c);
        proof {
            assert(s@.take(i + 1).drop_last() =~= s@.take(i as int));
            assert(s@.take(i + 1).last() == s@[i as int]);
        }
        if s[i] == c {
            let finished = cur;
            done.push(finished);
            cur = Vec::new();
            proof {
                assert(seqs_of(done@) =~= prev);
                assert(seqs_of(done@).push(cur@) =~= prev.push(Seq::<char>::empty()));
            }
        } else {
            cur.push(s[i]);
            proof {
                assert(seqs_of(done@).push(cur@) =~= prev.update(
                    prev.len() - 1,
                    prev.last().push(s@[i as int]),
                ));
            }
        }
        i = i + 1;
    }
    done.push(cur);
    proof {
        assert(s@.take(s@.len() as int) =~= s@);
        assert(seqs_of(done@) =~= split_char(s@, c));
    }
    done
}

/// Membership in a small set of characters.
pub open spec fn in_set(set: Seq<char>) -> spec_fn(char) -> bool {
    |c: char| set.contains(c)
}

/// `str::trim_matches` with a set of characters.
pub open spec fn trim_set(s: Seq<char>, set: Seq<char>) -> Seq<char> {
    let a = s.skip(span(s, in_set(set)) as int);
    a.take(a.len() - rspan(a, in_set(set)))
}

/// `str::trim_start_matches` with a set of characters.
pub open spec fn trim_start_set(s: Seq<char>, set: Seq<char>) -> Seq<char> {
    s.skip(span(s, in_set(set)) as int)
}

/// `str::trim_end_matches` with a set of characters.
pub open spec fn trim_end_set(s: Seq<char>, set: Seq<char>) -> Seq<char> {
    s.take(s.len() - rspan(s, in_set(set)))
}

pub fn contains_char(set: &[char], c: char) -> (b: bool)
    ensures
        b == set@.contains(c),
{
    let mut i: usize = 0;
    while i < set.len()
        invariant
            i <= set@.len(),
            forall|j: int| 0 <= j < i ==> set@[j] != c,
        decreases set.len() - i,
    {
        if set[i] == c {
            return true;
        }
        i = i + 1;
    }
    false
}

pub fn trim_start_set_chars(s: &[char], set: &[char]) -> (out: Vec<char>)
    ensures
        out@ == trim_start_set(s@, set@),
{
    let mut lo: usize = 0;
    while lo < s.len() && contains_char(set, s[lo])
        invariant
            lo <= s@.len(),
            forall|j: int| 0 <= j < lo ==> #[trigger] in_set(set@)(s@[j]),
        decreases s.len() - lo,
    {
        lo = lo + 1;
    }
    proof {
        lemma_span_at(s@, in_set(set@), lo as int);
    }
    suffix_from(s, lo)
}

pub fn trim_end_set_chars(s: &[char], set: &[char]) -> (out: Vec<char>)
    ensures
        out@ == trim_end_set(s@, set@),
{
    let mut hi: usize = s.len();
    while hi > 0 && contains_char(set, s[hi - 1])
        invariant
            hi <= s@.len(),
            forall|j: int| hi <= j < s@.len() ==> #[trigger] in_set(set@)(s@[j]),
        decreases hi,
    {
        hi = hi - 1;
    }
    proof {
        lemma_rspan_at(s@, in_set(set@), hi as int);
        assert(s@.subrange(0, hi as int) == s@.take(hi as int));
    }
    slice_of(s, 0, hi)
}

pub fn trim_set_chars(s: &[char], set: &[char]) -> (out: Vec<char>)
    ensures
        out@ == trim_set(s@, set@),
{
    let a = trim_start_set_chars(s, set);
    trim_end_set_chars(a.as_slice(), set)
}

/// Trimmed pieces, empty ones dropped.
pub open spec fn trimmed_nonempty(pieces: Seq<Seq<char>>) -> Seq<Seq<char>>
    decreases pieces.len(),
{
    if pieces.len() == 0 {
        Seq::empty()
    } else {
        let prev = trimmed_nonempty(pieces.drop_last());
        let t = trim(pieces.last());
        if t.len() > 0 {
            prev.push(t)
        } else {
            prev
        }
    }
}

/// Trims each piece and drops the empty ones.
pub fn trimmed_nonempty_pieces(pieces: &Vec<Vec<char>>) -> (out: Vec<Vec<char>>)
    ensures
        seqs_of(out@) == trimmed_nonempty(seqs_of(pieces@)),
{
    let mut out: Vec<Vec<char>> = Vec::new();
    let mut i: usize = 0;
    assert(seqs_of(pieces@).take(0) =~= Seq::<Seq<char>>::empty());
    assert(seqs_of(out@) =~= Seq::<Seq<char>>::empty());
    while i < pieces.len()
        invariant
            i <= pieces@.len(),
            seqs_of(out@) == trimmed_nonempty(seqs_of(pieces@).take(i as int)),
        decreases pieces.len() - i,
    {
        let ghost prev = seqs_of(out@);
        proof {
            assert(seqs_of(pieces@).take(i + 1).drop_last() =~= seqs_of(pieces@).take(i as int));
            assert(seqs_of(pieces@).take(i + 1).last() == pieces@[i as int]@);
        }
        let t = trim_chars(pieces[i].as_slice());
        if t.len() > 0 {
            out.push(t);
            proof {
                assert(seqs_of(out@) =~= prev.push(trim(pieces@[i as int]@)));
            }
        }
        i = i + 1;
    }
    assert(seqs_of(pieces@).take(pieces@.len() as int) =~= seqs_of(pieces@));
    out
}

// ---------------------------------------------------------------------------
// More splitting helpers
// ---------------------------------------------------------------------------

/// `str::split` on any character of `set`.
pub open spec fn split_set(s: Seq<char>, set: Seq<char>) -> Seq<Seq<char>>
    decreases s.len(),
{
    if s.len() == 0 {
        seq![Seq::<char>::empty()]
    } else {
        let prev = split_set(s.drop_last(), set);
        if set.contains(s.last()) {
            prev.push(Seq::<char>::empty())
        } else {
            prev.update(prev.len() - 1, prev.last().push(s.last()))
        }
    }
}

pub proof fn lemma_split_set_nonempty(s: Seq<char>, set: Seq<char>)
    ensures
        split_set(s, set).len() >= 1,
    decreases s.len(),
{
    if s.len() > 0 {
        lemma_split_set_nonempty(s.drop_last(), set);
    }
}

/// Splits on every character of `set`.
pub fn split_set_chars(s: &[char], set: &[char]) -> (out: Vec<Vec<char>>)
    ensures
        seqs_of(out@) == split_set(s@, set@),
{
    let mut done: Vec<Vec<char>> = Vec::new();
    let mut cur: Vec<char> = Vec::new();
    let mut i: usize = 0;
    assert(s@.take(0) =~= Seq::<char>::empty());
    assert(seqs_of(done@).push(cur@) =~= split_set(s@.take(0), set@));
    while i < s.len()
        invariant
            i <= s@.len(),
            seqs_of(done@).push(cur@) == split_set(s@.take(i as int), set@),
        decreases s.len() - i,
    {
        let ghost prev = split_set(s@.take(i as int), set@);
        proof {
            assert(s@.take(i + 1).drop_last() =~= s@.take(i as int));
            assert(s@.take(i + 1).last() == s@[i as int]);
        }
        if contains_char(set, s[i]) {
            let finished = cur;
            done.push(finished);
            cur = Vec::new();
            proof {
                assert(seqs_of(done@) =~= prev);
                assert(seqs_of(done@).push(cur@) =~= prev.push(Seq::<char>::empty()));
            }
        } else {
            cur.push(s[i]);
            proof {
                assert(seqs_of(done@).push(cur@) =~= prev.update(
                    prev.len() - 1,
                    prev.last().push(s@[i as int]),
                ));
            }
        }
        i = i + 1;
    }
    done.push(cur);
    proof {
        assert(s@.take(s@.len() as int) =~= s@);
        assert(seqs_of(done@) =~= split_set(s@, set@));
    }
    done
}

/// The pieces that are not empty, in order.
pub open spec fn nonempty_pieces(pieces: Seq<Seq<char>>) -> Seq<Seq<char>>
    decreases pieces.len(),
{
    if pieces.len() == 0 {
        Seq::empty()
    } else if pieces.last().len() > 0 {
        nonempty_pieces(pieces.drop_last()).push(pieces.last())
    } else {
        nonempty_pieces(pieces.drop_last())
    }
}

/// Drops the empty pieces.
pub fn nonempty_pieces_of(pieces: &Vec<Vec<char>>) -> (out: Vec<Vec<char>>)
    ensures
        seqs_of(out@) == nonempty_pieces(seqs_of(pieces@)),
{
    let mut out: Vec<Vec<char>> = Vec::new();
    let mut i: usize = 0;
    assert(seqs_of(pieces@).take(0) =~= Seq::<Seq<char>>::empty());
    assert(seqs_of(out@) =~= Seq::<Seq<char>>::empty());
    while i < pieces.len()
        invariant
            i <= pieces@.len(),
            seqs_of(out@) == nonempty_pieces(seqs_of(pieces@).take(i as int)),
        decreases pieces.len() - i,
    {
        let ghost prev = seqs_of(out@);
        proof {
            assert(seqs_of(pieces@).take(i + 1).drop_last() =~= seqs_of(pieces@).take(i as int));
            assert(seqs_of(pieces@).take(i + 1).last() == pieces@[i as int]@);
        }
        if pieces[i].len() > 0 {
            let p = slice_of(pieces[i].as_slice(), 0, pieces[i].len());
            proof {
                assert(p@ =~= pieces@[i as int]@);
            }
            out.push(p);
            proof {
                assert(seqs_of(out@) =~= prev.push(pieces@[i as int]@));
            }
        }
        i = i + 1;
    }
    assert(seqs_of(pieces@).take(pieces@.len() as int) =~= seqs_of(pieces@));
    out
}

/// `str::trim_start_matches(p)` for a pattern: `p` removed from the front
/// for as long as it is there.
pub open spec fn trim_start_pattern(s: Seq<char>, p: Seq<char>) -> Seq<char>
    decreases s.len(),
{
    if p.len() > 0 && starts_with(s, p) {
        trim_start_pattern(s.skip(p.len() as int), p)
    } else {
        s
    }
}

pub fn trim_start_pattern_chars(s: &[char], p: &[char]) -> (out: Vec<char>)
    ensures
        out@ == trim_start_pattern(s@, p@),
{
    let mut rest: Vec<char> = slice_of(s, 0, s.len());
    proof {
        assert(s@.subrange(0, s@.len() as int) =~= s@);
    }
    while p.len() > 0 && starts_with_chars(rest.as_slice(), p)
        invariant
            trim_start_pattern(rest@, p@) == trim_start_pattern(s@, p@),
        decreases rest@.len(),
    {
        rest = suffix_from(rest.as_slice(), p.len());
    }
    rest
}

/// `str::strip_suffix`.
pub open spec fn strip_suffix(s: Seq<char>, p: Seq<char>) -> Option<Seq<char>> {
    if ends_with(s, p) {
        Some(s.take(s.len() - p.len()))
    } else {
        None
    }
}

/// `str::strip_suffix(p).unwrap_or(s)`.
pub fn strip_suffix_or_keep(s: &[char], p: &[char]) -> (out: Vec<char>)
    ensures
        out@ == (match strip_suffix(s@, p@) {
            Some(t) => t,
            None => s@,
        }),
{
    if ends_with_chars(s, p) {
        let out = slice_of(s, 0, s.len() - p.len());
        proof {
            assert(s@.subrange(0, s@.len() - p@.len()) =~= s@.take(s@.len() - p@.len()));
        }
        out
    } else {
        slice_of(s, 0, s.len())
    }
}

/// Index of the last occurrence of `c`.
#[verifier::opaque]
pub open spec fn last_index_of(s: Seq<char>, c: char) -> Option<int> {
    if exists|i: int| 0 <= i < s.len() && s[i] == c {
        Some(choose|i: int| 0 <= i < s.len() && s[i] == c && forall|j: int| i < j < s.len() ==> s[j] != c)
    } else {
        None
    }
}

pub fn rfind_char(s: &[char], c: char) -> (r: Option<usize>)
    ensures
        r matches Some(i) ==> last_index_of(s@, c) == Some(i as int) && i < s@.len() && s@[i as int]
            == c && forall|j: int| i < j < s@.len() ==> s@[j] != c,
        r is None ==> last_index_of(s@, c) is None && forall|j: int| 0 <= j < s@.len() ==> s@[j] != c,
        s@.len() <= usize::MAX,
{
    let mut i: usize = s.len();
    while i > 0
        invariant
            i <= s@.len(),
            forall|j: int| i <= j < s@.len() ==> s@[j] != c,
        decreases i,
    {
        if s[i - 1] == c {
            proof {
                reveal(last_index_of);
                let k = (i - 1) as int;
                let w = choose|x: int| 0 <= x < s@.len() && s@[x] == c && forall|j: int| x < j < s@.len() ==> s@[j] != c;
                assert(0 <= k < s@.len() && s@[k] == c);
                assert(0 <= w < s@.len() && s@[w] == c && forall|j: int| w < j < s@.len() ==> s@[j] != c);
                if w < k {
                } else if w > k {
                }
            }
            return Some(i - 1);
        }
        i = i - 1;
    }
    proof {
        reveal(last_index_of);
    }
    None
}

/// `a + b`.
pub fn concat_chars(a: &[char], b: &[char]) -> (out: Vec<char>)
    ensures
        out@ == a@ + b@,
{
    let mut out = slice_of(a, 0, a.len());
    let mut i: usize = 0;
    proof {
        assert(a@.subrange(0, a@.len() as int) =~= a@);
    }
    while i < b.len()
        invariant
            i <= b@.len(),
            out@ == a@ + b@.take(i as int),
        decreases b.len() - i,
    {
        out.push(b[i]);
        i = i + 1;
        proof {
            assert(out@ =~= a@ + b@.take(i as int));
        }
    }
    assert(b@.take(b@.len() as int) =~= b@);
    out
}

/// Whether `c` occurs in `s`.
pub fn has_char(s: &[char], c: char) -> (b: bool)
    ensures
        b == s@.contains(c),
{
    contains_char(s, c)
}

/// `str::trim_end_matches(p)` for a pattern: `p` removed from the end for
/// as long as it is there.
pub open spec fn trim_end_pattern(s: Seq<char>, p: Seq<char>) -> Seq<char>
    decreases s.len(),
{
    if p.len() > 0 && ends_with(s, p) {
        trim_end_pattern(s.take(s.len() - p.len()), p)
    } else {
        s
    }
}

pub fn trim_end_pattern_chars(s: &[char], p: &[char]) -> (out: Vec<char>)
    ensures
        out@ == trim_end_pattern(s@, p@),
{
    let mut rest: Vec<char> = slice_of(s, 0, s.len());
    proof {
        assert(s@.subrange(0, s@.len() as int) =~= s@);
    }
    while p.len() > 0 && ends_with_chars(rest.as_slice(), p)
        invariant
            trim_end_pattern(rest@, p@) == trim_end_pattern(s@, p@),
        decreases rest@.len(),
    {
        let n = rest.len() - p.len();
        let next = slice_of(rest.as_slice(), 0, n);
        proof {
            assert(next@ =~= rest@.take(rest@.len() - p@.len()));
        }
        rest = next;
    }
    rest
}

} // verus!
