//! Reading literal values out of Python source (`setup.py`): string
//! literals, bracketed literals and `keyword = value` assignments.  The
//! scanners skip `#` comments and string literals, so that text inside them
//! is never taken for code.
use vstd::prelude::*;
use crate::text::{seqs_of, slice_of};

verus! {

// ---------------------------------------------------------------------------
// Model
// ---------------------------------------------------------------------------

/// ASCII whitespace as `u8::is_ascii_whitespace` knows it.
pub open spec fn py_ws(c: char) -> bool {
    c == ' ' || c == '\t' || c == '\n' || c == '\x0C' || c == '\r'
}

/// A character that can be part of an identifier (ASCII).
pub open spec fn py_ident(c: char) -> bool {
    ('a' <= c && c <= 'z') || ('A' <= c && c <= 'Z') || ('0' <= c && c <= '9') || c == '_'
}

pub open spec fn is_quote_char(c: char) -> bool {
    c == '\'' || c == '"'
}

/// The closing bracket of an opening one.
pub open spec fn closing_of(c: char) -> Option<char> {
    if c == '[' {
        Some(']')
    } else if c == '(' {
        Some(')')
    } else if c == '{' {
        Some('}')
    } else {
        None
    }
}

/// The end of a comment that starts at `i`: the index of the next line
/// break, or the end of the text.
pub open spec fn comment_end(s: Seq<char>, i: nat) -> nat
    decreases s.len() - i,
{
    if i >= s.len() || s[i as int] == '\n' {
        i
    } else {
        comment_end(s, i + 1)
    }
}

/// The first index at or after `i` that is neither whitespace nor inside a
/// comment.
pub open spec fn skip_ws_comments(s: Seq<char>, i: nat) -> nat
    decreases s.len() - i,
{
    if i >= s.len() {
        i
    } else if py_ws(s[i as int]) {
        skip_ws_comments(s, i + 1)
    } else if s[i as int] == '#' {
        let e = comment_end(s, i);
        if i < e <= s.len() {
            skip_ws_comments(s, e)
        } else {
            i
        }
    } else {
        i
    }
}

/// The string-prefix letters from `q`: the index of the first other
/// character, and whether a `b` or `f` prefix was seen.
pub open spec fn prefix_end(s: Seq<char>, q: nat) -> (nat, bool)
    decreases s.len() - q,
{
    if q >= s.len() {
        (q, false)
    } else {
        let c = s[q as int];
        if c == 'r' || c == 'R' || c == 'u' || c == 'U' || c == 'b' || c == 'B' || c == 'f' || c
            == 'F' {
            let rest = prefix_end(s, q + 1);
            (rest.0, rest.1 || c == 'b' || c == 'B' || c == 'f' || c == 'F')
        } else {
            (q, false)
        }
    }
}

/// The index of the closing quote of a string body starting at `i`.  In a
/// single-quoted string a backslash skips the next character.
pub open spec fn string_close(s: Seq<char>, quote: char, triple: bool, i: nat) -> Option<nat>
    decreases s.len() + 2 - i,
{
    if i >= s.len() {
        None
    } else if !triple && s[i as int] == '\\' {
        string_close(s, quote, triple, i + 2)
    } else if triple {
        if s[i as int] == quote && i + 2 < s.len() && s[i + 1 as int] == quote && s[i + 2 as int] == quote {
            Some(i)
        } else {
            string_close(s, quote, triple, i + 1)
        }
    } else if s[i as int] == quote {
        Some(i)
    } else {
        string_close(s, quote, triple, i + 1)
    }
}

/// The text of a string body with its escapes resolved: `\n`, `\r`, `\t`,
/// `\\`, `\'` and `\"`; any other backslash is kept.
pub open spec fn unescaped(r: Seq<char>) -> Seq<char>
    decreases r.len(),
{
    if r.len() == 0 {
        Seq::empty()
    } else if r[0] != '\\' {
        seq![r[0]] + unescaped(r.skip(1))
    } else if r.len() == 1 {
        seq!['\\']
    } else {
        let c = r[1];
        let e = if c == 'n' {
            seq!['\n']
        } else if c == 'r' {
            seq!['\r']
        } else if c == 't' {
            seq!['\t']
        } else if c == '\\' || c == '\'' || c == '"' {
            seq![c]
        } else {
            seq!['\\', c]
        };
        e + unescaped(r.skip(2))
    }
}

/// A string literal starting at `start` (after optional prefix letters):
/// its value (none for byte and f-strings) and the index after it.
pub open spec fn string_literal(s: Seq<char>, start: nat) -> Option<(Option<Seq<char>>, nat)> {
    let (q, dynamic) = prefix_end(s, start);
    if q >= s.len() || !is_quote_char(s[q as int]) {
        None
    } else {
        let quote = s[q as int];
        let triple = q + 2 < s.len() && s[q + 1 as int] == quote && s[q + 2 as int] == quote;
        let body = if triple {
            q + 3
        } else {
            q + 1
        };
        match string_close(s, quote, triple, body) {
            None => None,
            Some(close) => Some(
                (
                    if dynamic {
                        None
                    } else {
                        Some(unescaped(s.subrange(body as int, close as int)))
                    },
                    if triple {
                        close + 3
                    } else {
                        close + 1
                    },
                ),
            ),
        }
    }
}

/// The index after a bracketed literal, given the closers still expected
/// (innermost last) and the index `i` reached.
pub open spec fn balanced_from(s: Seq<char>, stack: Seq<char>, i: nat) -> Option<nat>
    decreases s.len() - i,
{
    if i >= s.len() {
        None
    } else if s[i as int] == '#' {
        let e = comment_end(s, i);
        if i < e <= s.len() {
            balanced_from(s, stack, e)
        } else {
            None
        }
    } else {
        match string_literal(s, i) {
            Some((_, end)) => if i < end <= s.len() {
                balanced_from(s, stack, end)
            } else {
                None
            },
            None => match closing_of(s[i as int]) {
                Some(close) => balanced_from(s, stack.push(close), i + 1),
                None => if stack.len() > 0 && stack.last() == s[i as int] {
                    if stack.len() == 1 {
                        Some(i + 1)
                    } else {
                        balanced_from(s, stack.drop_last(), i + 1)
                    }
                } else {
                    balanced_from(s, stack, i + 1)
                },
            },
        }
    }
}

/// The index after the literal value at `start`: a bracketed literal or a
/// string literal.
pub open spec fn literal_value_end(s: Seq<char>, start: nat) -> Option<nat> {
    if start >= s.len() {
        None
    } else {
        match closing_of(s[start as int]) {
            Some(close) => balanced_from(s, seq![close], start + 1),
            None => match string_literal(s, start) {
                Some((_, end)) => Some(end),
                None => None,
            },
        }
    }
}

/// `keyword` at `i` as a whole word.
pub open spec fn keyword_at(s: Seq<char>, keyword: Seq<char>, i: nat) -> bool {
    &&& i + keyword.len() <= s.len()
    &&& s.subrange(i as int, i + keyword.len() as int) == keyword
    &&& !(i > 0 && py_ident(s[i - 1]))
    &&& !(i + keyword.len() < s.len() && py_ident(s[i + keyword.len() as int]))
}

/// The values assigned with `keyword = value` from index `i` on, in order.
pub open spec fn keyword_values_from(s: Seq<char>, keyword: Seq<char>, i: nat) -> Seq<Seq<char>>
    decreases s.len() - i,
{
    if keyword.len() == 0 || i + keyword.len() > s.len() {
        Seq::empty()
    } else if s[i as int] == '#' {
        let e = comment_end(s, i);
        if i < e <= s.len() {
            keyword_values_from(s, keyword, e)
        } else {
            Seq::empty()
        }
    } else {
        match string_literal(s, i) {
            Some((_, end)) => if i < end <= s.len() {
                keyword_values_from(s, keyword, end)
            } else {
                Seq::empty()
            },
            None => if !keyword_at(s, keyword, i) {
                keyword_values_from(s, keyword, i + 1)
            } else {
                let eq = skip_ws_comments(s, i + keyword.len());
                if eq >= s.len() || s[eq as int] != '=' {
                    keyword_values_from(s, keyword, i + keyword.len())
                } else {
                    let start = skip_ws_comments(s, eq + 1);
                    match literal_value_end(s, start) {
                        None => keyword_values_from(s, keyword, i + keyword.len()),
                        Some(end) => if start <= end <= s.len() && end > i {
                            seq![s.subrange(start as int, end as int)] + keyword_values_from(
                                s,
                                keyword,
                                end,
                            )
                        } else {
                            Seq::empty()
                        },
                    }
                }
            },
        }
    }
}

/// The values of the string literals from index `i` on, in order; byte and
/// f-strings give none.
pub open spec fn string_values_from(s: Seq<char>, i: nat) -> Seq<Seq<char>>
    decreases s.len() - i,
{
    if i >= s.len() {
        Seq::empty()
    } else if s[i as int] == '#' {
        let e = comment_end(s, i);
        if i < e <= s.len() {
            string_values_from(s, e)
        } else {
            Seq::empty()
        }
    } else {
        match string_literal(s, i) {
            Some((value, end)) => if i < end <= s.len() {
                match value {
                    Some(v) => seq![v] + string_values_from(s, end),
                    None => string_values_from(s, end),
                }
            } else {
                Seq::empty()
            },
            None => string_values_from(s, i + 1),
        }
    }
}

// ---------------------------------------------------------------------------
// Scanners
// ---------------------------------------------------------------------------

/// The end of a comment starting at `index`.
pub fn skip_python_comment(s: &[char], index: usize) -> (end: usize)
    ensures
        end == comment_end(s@, index as nat),
{
    let mut i = index;
    while i < s.len() && s[i] != '\n'
        invariant
            index <= i,
            comment_end(s@, index as nat) == comment_end(s@, i as nat),
        decreases s.len() - i,
    {
        i = i + 1;
    }
    i
}

proof fn lemma_comment_end_bounds(s: Seq<char>, i: nat)
    ensures
        comment_end(s, i) >= i,
        i <= s.len() ==> comment_end(s, i) <= s.len(),
        i < s.len() && s[i as int] != '\n' ==> comment_end(s, i) > i,
    decreases s.len() - i,
{
    if i < s.len() && s[i as int] != '\n' {
        lemma_comment_end_bounds(s, i + 1);
    }
}

/// The first index at or after `index` outside whitespace and comments.
pub fn skip_python_ws_and_comments(s: &[char], index: usize) -> (end: usize)
    ensures
        end == skip_ws_comments(s@, index as nat),
{
    let mut i = index;
    while i < s.len() && (s[i] == ' ' || s[i] == '\t' || s[i] == '\n' || s[i] == '\x0C' || s[i]
        == '\r' || s[i] == '#')
        invariant
            skip_ws_comments(s@, index as nat) == skip_ws_comments(s@, i as nat),
        decreases s.len() - i,
    {
        if s[i] == '#' {
            proof {
                lemma_comment_end_bounds(s@, i as nat);
            }
            i = skip_python_comment(s, i);
        } else {
            i = i + 1;
        }
    }
    i
}

/// Whether a character can be part of an identifier.
pub fn python_identifier_char(c: char) -> (b: bool)
    ensures
        b == py_ident(c),
{
    ('a' <= c && c <= 'z') || ('A' <= c && c <= 'Z') || ('0' <= c && c <= '9') || c == '_'
}

/// The closing bracket of an opening one.
pub fn python_matching_close(c: char) -> (r: Option<char>)
    ensures
        r == closing_of(c),
{
    if c == '[' {
        Some(']')
    } else if c == '(' {
        Some(')')
    } else if c == '{' {
        Some('}')
    } else {
        None
    }
}

/// A string body with its escapes resolved.
pub fn unescape_python_string(raw: &[char]) -> (out: Vec<char>)
    ensures
        out@ == unescaped(raw@),
{
    let mut out: Vec<char> = Vec::new();
    let mut i: usize = 0;
    assert(raw@.skip(0) =~= raw@);
    while i < raw.len()
        invariant
            i <= raw@.len(),
            unescaped(raw@) == out@ + unescaped(raw@.skip(i as int)),
        decreases raw.len() - i,
    {
        let ghost rest = raw@.skip(i as int);
        let ghost prev = out@;
        if raw[i] != '\\' {
            out.push(raw[i]);
            proof {
                assert(rest.skip(1) =~= raw@.skip(i + 1));
                assert(prev + (seq![rest[0]] + unescaped(rest.skip(1))) =~= out@ + unescaped(
                    raw@.skip(i + 1),
                ));
            }
            i = i + 1;
        } else if i + 1 == raw.len() {
            out.push('\\');
            proof {
                assert(raw@.skip(i + 1) =~= Seq::<char>::empty());
                assert(prev + seq!['\\'] =~= out@ + unescaped(raw@.skip(i + 1)));
            }
            i = i + 1;
        } else {
            let c = raw[i + 1];
            if c == 'n' {
                out.push('\n');
            } else if c == 'r' {
                out.push('\r');
            } else if c == 't' {
                out.push('\t');
            } else if c == '\\' || c == '\'' || c == '"' {
                out.push(c);
            } else {
                out.push('\\');
                out.push(c);
            }
            proof {
                assert(rest.skip(2) =~= raw@.skip(i + 2));
                assert(rest[1] == c);
                let e = if c == 'n' {
                    seq!['\n']
                } else if c == 'r' {
                    seq!['\r']
                } else if c == 't' {
                    seq!['\t']
                } else if c == '\\' || c == '\'' || c == '"' {
                    seq![c]
                } else {
                    seq!['\\', c]
                };
                assert(out@ =~= prev + e);
                assert(prev + (e + unescaped(rest.skip(2))) =~= out@ + unescaped(raw@.skip(i + 2)));
            }
            i = i + 2;
        }
    }
    assert(raw@.skip(i as int) =~= Seq::<char>::empty());
    assert(out@ + Seq::<char>::empty() =~= out@);
    out
}

/// A string literal starting at `start`: its value (none for byte and
/// f-strings) and the index after it.
pub fn python_string_literal_at(s: &[char], start: usize) -> (r: Option<(Option<Vec<char>>, usize)>)
    requires
        s@.len() + 3 <= usize::MAX,
    ensures
        match r {
            None => string_literal(s@, start as nat) is None,
            Some((v, end)) => string_literal(s@, start as nat) == Some(
                (
                    match v {
                        Some(x) => Some(x@),
                        None => None,
                    },
                    end as nat,
                ),
            ),
        },
{
    let mut q = start;
    let mut dynamic = false;
    while q < s.len() && !(s[q] == '\'' || s[q] == '"')
        invariant
            s@.len() + 3 <= usize::MAX,
            start <= q,
            prefix_end(s@, start as nat) == (prefix_end(s@, q as nat).0, prefix_end(s@, q as nat).1
                || dynamic),
        decreases s.len() - q,
    {
        let c = s[q];
        if c == 'r' || c == 'R' || c == 'u' || c == 'U' || c == 'b' || c == 'B' || c == 'f' || c
            == 'F' {
            dynamic = dynamic || c == 'b' || c == 'B' || c == 'f' || c == 'F';
            q = q + 1;
            continue;
        }
        return None;
    }
    if q >= s.len() {
        return None;
    }
    let quote = s[q];
    let triple = q + 2 < s.len() && s[q + 1] == quote && s[q + 2] == quote;
    let body = if triple {
        q + 3
    } else {
        q + 1
    };
    assert(prefix_end(s@, q as nat) == (q as nat, false));
    let mut i = body;
    while i < s.len()
        invariant
            s@.len() + 3 <= usize::MAX,
            q < s@.len(),
            quote == s@[q as int],
            is_quote_char(quote),
            prefix_end(s@, start as nat) == (q as nat, dynamic),
            triple == (q + 2 < s@.len() && s@[q + 1] == quote && s@[q + 2] == quote),
            body == (if triple { q + 3 } else { q + 1 }),
            body <= i <= s@.len() + 1,
            string_close(s@, quote, triple, body as nat) == string_close(s@, quote, triple, i as nat),
        decreases s.len() + 2 - i,
    {
        if !triple && s[i] == '\\' {
            i = i + 2;
            continue;
        }
        if triple {
            if s[i] == quote && i + 2 < s.len() && s[i + 1] == quote && s[i + 2] == quote {
                let value = if dynamic {
                    None
                } else {
                    let raw = slice_of(s, body, i);
                    Some(unescape_python_string(raw.as_slice()))
                };
                return Some((value, i + 3));
            }
            i = i + 1;
            continue;
        }
        if s[i] == quote {
            let value = if dynamic {
                None
            } else {
                let raw = slice_of(s, body, i);
                Some(unescape_python_string(raw.as_slice()))
            };
            return Some((value, i + 1));
        }
        i = i + 1;
    }
    None
}

proof fn lemma_string_literal_end(s: Seq<char>, start: nat)
    ensures
        string_literal(s, start) matches Some((_, end)) ==> end > start && end <= s.len(),
{
    lemma_prefix_end(s, start);
    let (q, dynamic) = prefix_end(s, start);
    if q < s.len() && is_quote_char(s[q as int]) {
        let quote = s[q as int];
        let triple = q + 2 < s.len() && s[q + 1 as int] == quote && s[q + 2 as int] == quote;
        let body = if triple {
            q + 3
        } else {
            q + 1
        };
        lemma_string_close(s, quote, triple, body);
    }
}

proof fn lemma_prefix_end(s: Seq<char>, q: nat)
    ensures
        prefix_end(s, q).0 >= q,
    decreases s.len() - q,
{
    if q < s.len() {
        lemma_prefix_end(s, q + 1);
    }
}

proof fn lemma_string_close(s: Seq<char>, quote: char, triple: bool, i: nat)
    ensures
        string_close(s, quote, triple, i) matches Some(c) ==> c >= i && c < s.len() && (triple ==> c
            + 2 < s.len()),
    decreases s.len() + 2 - i,
{
    if i < s.len() {
        if !triple && s[i as int] == '\\' {
            lemma_string_close(s, quote, triple, i + 2);
        } else {
            lemma_string_close(s, quote, triple, i + 1);
        }
    }
}

/// The index after a bracketed literal whose opening bracket is at
/// `start`.
pub fn python_balanced_literal_end(s: &[char], start: usize) -> (r: Option<usize>)
    requires
        s@.len() + 3 <= usize::MAX,
        start < s@.len(),
        closing_of(s@[start as int]) is Some,
    ensures
        match r {
            None => balanced_from(s@, seq![closing_of(s@[start as int])->0], (start + 1) as nat) is None,
            Some(e) => balanced_from(s@, seq![closing_of(s@[start as int])->0], (start + 1) as nat) == Some(
                e as nat,
            ),
        },
{
    let mut stack: Vec<char> = Vec::new();
    let first = match python_matching_close(s[start]) {
        Some(c) => c,
        None => {
            return None;
        },
    };
    stack.push(first);
    let ghost goal = balanced_from(s@, stack@, (start + 1) as nat);
    assert(stack@ =~= seq![first]);
    let mut i = start + 1;
    while i < s.len()
        invariant
            s@.len() + 3 <= usize::MAX,
            start < s@.len(),
            stack@.len() > 0,
            goal == balanced_from(s@, stack@, i as nat),
            goal == balanced_from(s@, seq![closing_of(s@[start as int])->0], (start + 1) as nat),
        decreases s.len() - i,
    {
        let c = s[i];
        if c == '#' {
            proof {
                lemma_comment_end_bounds(s@, i as nat);
            }
            i = skip_python_comment(s, i);
            continue;
        }
        proof {
            lemma_string_literal_end(s@, i as nat);
        }
        match python_string_literal_at(s, i) {
            Some((_, end)) => {
                if end <= i {
                    return None;
                }
                i = end;
                continue;
            },
            None => {},
        }
        match python_matching_close(c) {
            Some(close) => {
                stack.push(close);
                i = i + 1;
                continue;
            },
            None => {},
        }
        if stack[stack.len() - 1] == c {
            if stack.len() == 1 {
                return Some(i + 1);
            }
            stack.pop();
            i = i + 1;
            continue;
        }
        i = i + 1;
    }
    None
}

/// The index after the literal value at `start`.
pub fn python_literal_value_end(s: &[char], start: usize) -> (r: Option<usize>)
    requires
        s@.len() + 3 <= usize::MAX,
    ensures
        match r {
            None => literal_value_end(s@, start as nat) is None,
            Some(e) => literal_value_end(s@, start as nat) == Some(e as nat),
        },
{
    if start >= s.len() {
        return None;
    }
    match python_matching_close(s[start]) {
        Some(_) => python_balanced_literal_end(s, start),
        None => match python_string_literal_at(s, start) {
            Some((_, end)) => Some(end),
            None => None,
        },
    }
}

proof fn lemma_skip_bounds(s: Seq<char>, i: nat)
    ensures
        skip_ws_comments(s, i) >= i,
        i <= s.len() ==> skip_ws_comments(s, i) <= s.len(),
    decreases s.len() - i,
{
    if i < s.len() {
        if py_ws(s[i as int]) {
            lemma_skip_bounds(s, i + 1);
        } else if s[i as int] == '#' {
            lemma_comment_end_bounds(s, i);
            lemma_skip_bounds(s, comment_end(s, i));
        }
    }
}

proof fn lemma_balanced_bounds(s: Seq<char>, stack: Seq<char>, i: nat)
    ensures
        balanced_from(s, stack, i) matches Some(e) ==> e > i && e <= s.len(),
    decreases s.len() - i,
{
    if i < s.len() {
        if s[i as int] == '#' {
            lemma_comment_end_bounds(s, i);
            let e = comment_end(s, i);
            if e > i {
                lemma_balanced_bounds(s, stack, e);
            }
        } else {
            lemma_string_literal_end(s, i);
            match string_literal(s, i) {
                Some((_, end)) => if end > i {
                    lemma_balanced_bounds(s, stack, end);
                },
                None => match closing_of(s[i as int]) {
                    Some(close) => lemma_balanced_bounds(s, stack.push(close), i + 1),
                    None => if stack.len() > 0 && stack.last() == s[i as int] {
                        if stack.len() != 1 {
                            lemma_balanced_bounds(s, stack.drop_last(), i + 1);
                        }
                    } else {
                        lemma_balanced_bounds(s, stack, i + 1);
                    },
                },
            }
        }
    }
}

/// The values assigned with `keyword = value` in a Python source: each a
/// bracketed or string literal, in order.
pub fn python_keyword_assignment_values(s: &[char], keyword: &[char]) -> (out: Vec<Vec<char>>)
    requires
        s@.len() + 3 <= usize::MAX,
        keyword@.len() > 0,
    ensures
        seqs_of(out@) == keyword_values_from(s@, keyword@, 0),
{
    let mut out: Vec<Vec<char>> = Vec::new();
    let mut i: usize = 0;
    let k = keyword.len();
    while k <= s.len() && i <= s.len() - k
        invariant
            s@.len() + 3 <= usize::MAX,
            k == keyword@.len(),
            k > 0,
            i <= s@.len(),
            keyword_values_from(s@, keyword@, 0) == seqs_of(out@) + keyword_values_from(
                s@,
                keyword@,
                i as nat,
            ),
        decreases s.len() - i,
    {
        let ghost prev = seqs_of(out@);
        if s[i] == '#' {
            proof {
                lemma_comment_end_bounds(s@, i as nat);
            }
            i = skip_python_comment(s, i);
            continue;
        }
        proof {
            lemma_string_literal_end(s@, i as nat);
        }
        match python_string_literal_at(s, i) {
            Some((_, end)) => {
                i = end;
                continue;
            },
            None => {},
        }
        let at_keyword = crate::text::matches_at(s, keyword, i) && !(i > 0
            && python_identifier_char(s[i - 1])) && !(i + k < s.len() && python_identifier_char(
            s[i + k],
        ));
        proof {
            if crate::text::occurs_at(s@, keyword@, i as int) {
                assert(s@.subrange(i as int, i + k) == keyword@);
            }
            assert(at_keyword == keyword_at(s@, keyword@, i as nat));
        }
        if !at_keyword {
            i = i + 1;
            continue;
        }
        proof {
            lemma_skip_bounds(s@, (i + k) as nat);
        }
        let eq = skip_python_ws_and_comments(s, i + k);
        if eq >= s.len() || s[eq] != '=' {
            i = i + k;
            continue;
        }
        proof {
            lemma_skip_bounds(s@, (eq + 1) as nat);
        }
        let start = skip_python_ws_and_comments(s, eq + 1);
        match python_literal_value_end(s, start) {
            None => {
                i = i + k;
                continue;
            },
            Some(end) => {
                proof {
                    if start < s@.len() {
                        match closing_of(s@[start as int]) {
                            Some(close) => lemma_balanced_bounds(s@, seq![close], (start + 1) as nat),
                            None => lemma_string_literal_end(s@, start as nat),
                        }
                    }
                }
                let v = slice_of(s, start, end);
                out.push(v);
                proof {
                    assert(seqs_of(out@) =~= prev.push(s@.subrange(start as int, end as int)));
                    assert(prev + (seq![s@.subrange(start as int, end as int)] + keyword_values_from(
                        s@,
                        keyword@,
                        end as nat,
                    )) =~= seqs_of(out@) + keyword_values_from(s@, keyword@, end as nat));
                }
                i = end;
            },
        }
    }
    proof {
        assert(keyword_values_from(s@, keyword@, i as nat) == Seq::<Seq<char>>::empty());
        assert(seqs_of(out@) + Seq::<Seq<char>>::empty() =~= seqs_of(out@));
    }
    out
}

/// The values of the string literals of a Python source, in order; byte and
/// f-strings give none.
pub fn python_string_literals(s: &[char]) -> (out: Vec<Vec<char>>)
    requires
        s@.len() + 3 <= usize::MAX,
    ensures
        seqs_of(out@) == string_values_from(s@, 0),
{
    let mut out: Vec<Vec<char>> = Vec::new();
    let mut i: usize = 0;
    assert(seqs_of(out@) + string_values_from(s@, 0) =~= string_values_from(s@, 0));
    while i < s.len()
        invariant
            s@.len() + 3 <= usize::MAX,
            string_values_from(s@, 0) == seqs_of(out@) + string_values_from(s@, i as nat),
        decreases s.len() - i,
    {
        let ghost prev = seqs_of(out@);
        if s[i] == '#' {
            proof {
                lemma_comment_end_bounds(s@, i as nat);
            }
            i = skip_python_comment(s, i);
            continue;
        }
        proof {
            lemma_string_literal_end(s@, i as nat);
        }
        match python_string_literal_at(s, i) {
            Some((value, end)) => {
                match value {
                    Some(v) => {
                        out.push(v);
                        proof {
                            assert(seqs_of(out@) =~= prev.push(out@[out@.len() - 1]@));
                            assert(prev + (seq![out@[out@.len() - 1]@] + string_values_from(
                                s@,
                                end as nat,
                            )) =~= seqs_of(out@) + string_values_from(s@, end as nat));
                        }
                    },
                    None => {},
                }
                i = end;
            },
            None => {
                i = i + 1;
            },
        }
    }
    proof {
        assert(string_values_from(s@, i as nat) == Seq::<Seq<char>>::empty());
        assert(seqs_of(out@) + Seq::<Seq<char>>::empty() =~= seqs_of(out@));
    }
    out
}

/// The string values of each assigned value, in order.
pub open spec fn strings_of_values(values: Seq<Seq<char>>) -> Seq<Seq<char>>
    decreases values.len(),
{
    if values.len() == 0 {
        Seq::empty()
    } else {
        strings_of_values(values.drop_last()) + string_values_from(values.last(), 0)
    }
}

/// Each piece is at most `n` long.
pub open spec fn all_within(v: Seq<Seq<char>>, n: nat) -> bool {
    forall|k: int| 0 <= k < v.len() ==> #[trigger] v[k].len() <= n
}

proof fn lemma_keyword_values_bounded(s: Seq<char>, keyword: Seq<char>, i: nat)
    ensures
        all_within(keyword_values_from(s, keyword, i), s.len()),
    decreases s.len() - i,
{
    if keyword.len() == 0 || i + keyword.len() > s.len() {
    } else if s[i as int] == '#' {
        let e = comment_end(s, i);
        if i < e <= s.len() {
            lemma_keyword_values_bounded(s, keyword, e);
        }
    } else {
        match string_literal(s, i) {
            Some((_, end)) => if i < end <= s.len() {
                lemma_keyword_values_bounded(s, keyword, end);
            },
            None => if !keyword_at(s, keyword, i) {
                lemma_keyword_values_bounded(s, keyword, i + 1);
            } else {
                let eq = skip_ws_comments(s, i + keyword.len());
                if eq >= s.len() || s[eq as int] != '=' {
                    lemma_keyword_values_bounded(s, keyword, i + keyword.len());
                } else {
                    let start = skip_ws_comments(s, eq + 1);
                    match literal_value_end(s, start) {
                        None => lemma_keyword_values_bounded(s, keyword, i + keyword.len()),
                        Some(end) => if start <= end <= s.len() && end > i {
                            lemma_keyword_values_bounded(s, keyword, end);
                            let rest = keyword_values_from(s, keyword, end);
                            let all = keyword_values_from(s, keyword, i);
                            assert(all == seq![s.subrange(start as int, end as int)] + rest);
                            assert forall|k: int| 0 <= k < all.len() implies #[trigger] all[k].len()
                                <= s.len() by {
                                if k > 0 {
                                    assert(all[k] == rest[k - 1]);
                                }
                            }
                        },
                    }
                }
            },
        }
    }
}

/// The requirement strings of `setup.py`: the string literals inside each
/// value assigned to `install_requires`.
pub fn setup_py_install_requires(content: &[char]) -> (out: Vec<Vec<char>>)
    requires
        content@.len() + 3 <= usize::MAX,
    ensures
        seqs_of(out@) == strings_of_values(keyword_values_from(content@, "install_requires"@, 0)),
{
    let keyword = crate::text::chars_of("install_requires");
    proof {
        reveal_strlit("install_requires");
    }
    let values = python_keyword_assignment_values(content, keyword.as_slice());
    let ghost vs = seqs_of(values@);
    proof {
        lemma_keyword_values_bounded(content@, "install_requires"@, 0);
        assert forall|k: int| 0 <= k < values@.len() implies values@[k]@.len() <= content@.len() by {
            assert(vs[k] == values@[k]@);
            assert(vs[k].len() <= content@.len());
        }
    }
    let mut out: Vec<Vec<char>> = Vec::new();
    let mut i: usize = 0;
    while i < values.len()
        invariant
            content@.len() + 3 <= usize::MAX,
            vs == seqs_of(values@),
            vs == keyword_values_from(content@, "install_requires"@, 0),
            i <= values@.len(),
            seqs_of(out@) == strings_of_values(vs.take(i as int)),
            forall|k: int| 0 <= k < values@.len() ==> values@[k]@.len() <= content@.len(),
        decreases values.len() - i,
    {
        proof {
            assert(vs.take(i + 1).drop_last() =~= vs.take(i as int));
            assert(vs.take(i + 1).last() == values@[i as int]@);
        }
        let strings = python_string_literals(values[i].as_slice());
        let ghost before = seqs_of(out@);
        let mut j: usize = 0;
        while j < strings.len()
            invariant
                j <= strings@.len(),
                seqs_of(out@) == before + seqs_of(strings@).take(j as int),
            decreases strings.len() - j,
        {
            let piece = slice_of(strings[j].as_slice(), 0, strings[j].len());
            let ghost prev = seqs_of(out@);
            out.push(piece);
            proof {
                assert(piece@ =~= strings@[j as int]@);
                assert(seqs_of(out@) =~= prev.push(piece@));
                assert(seqs_of(strings@).take(j + 1) =~= seqs_of(strings@).take(j as int).push(
                    strings@[j as int]@,
                ));
                assert(seqs_of(out@) =~= before + seqs_of(strings@).take(j + 1));
            }
            j = j + 1;
        }
        proof {
            assert(seqs_of(strings@).take(strings@.len() as int) =~= seqs_of(strings@));
        }
        i = i + 1;
    }
    proof {
        assert(vs.take(values@.len() as int) =~= vs);
    }
    out
}

} // verus!
