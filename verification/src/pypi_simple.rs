//! Reading the HTML pages of a PEP 503 simple index: the anchors it lists,
//! their attributes, and the hashes in their URL fragments.
use vstd::prelude::*;
use crate::npm_lock::{replace_all, replace_chars};
use crate::requirements::{normalize_sha256_hash, sha256_hash};
use crate::text::{
    chars_of, concat_chars, eq_chars, find_char, find_chars, first_occurrence, index_of, is_ws,
    is_whitespace, lower_chars, lower_seq, seqs_of, slice_of, split_char, split_chars,
    string_from_chars, suffix_from,
};

verus! {

// ---------------------------------------------------------------------------
// Attributes
// ---------------------------------------------------------------------------

/// The end of an unquoted attribute value: the first whitespace or `>`.
pub open spec fn unquoted_end(s: Seq<char>) -> int
    decreases s.len(),
{
    if s.len() == 0 || is_ws(s[0]) || s[0] == '>' {
        0
    } else {
        1 + unquoted_end(s.drop_first())
    }
}

/// The value of attribute `attr` in a tag: found after the first `attr=` in
/// the lower-cased tag, read up to the matching quote when quoted, else up
/// to whitespace or `>`; none where there is no `attr=`, nothing after it,
/// or no closing quote.
pub open spec fn attr_value(tag: Seq<char>, attr: Seq<char>) -> Option<Seq<char>> {
    let needle = attr.push('=');
    match first_occurrence(lower_seq(tag), needle) {
        None => None,
        Some(i) => {
            let rest = tag.skip(i + needle.len());
            if rest.len() == 0 {
                None
            } else if rest[0] == '"' || rest[0] == '\'' {
                let value = rest.skip(1);
                match index_of(value, rest[0]) {
                    None => None,
                    Some(end) => Some(value.take(end)),
                }
            } else {
                Some(rest.take(unquoted_end(rest)))
            }
        },
    }
}

fn unquoted_end_of(s: &[char]) -> (n: usize)
    ensures
        n == unquoted_end(s@),
        n <= s@.len(),
{
    let mut i: usize = 0;
    assert(s@.skip(0) =~= s@);
    while i < s.len() && !is_whitespace(s[i]) && s[i] != '>'
        invariant
            i <= s@.len(),
            unquoted_end(s@) == i + unquoted_end(s@.skip(i as int)),
        decreases s.len() - i,
    {
        proof {
            assert(s@.skip(i as int).drop_first() =~= s@.skip(i + 1));
        }
        i = i + 1;
    }
    proof {
        assert(unquoted_end(s@.skip(i as int)) == 0);
    }
    i
}

/// The value of attribute `attr` in a tag.
pub fn html_attr(tag: &str, attr: &str) -> (r: Option<String>)
    ensures
        match attr_value(tag@, attr@) {
            Some(v) => r matches Some(s) && s@ == v,
            None => r is None,
        },
{
    let tc = chars_of(tag);
    let lower = lower_chars(tc.as_slice());
    let mut needle = chars_of(attr);
    needle.push('=');
    let start = match find_chars(lower.as_slice(), needle.as_slice()) {
        Some(i) => i,
        None => {
            return None;
        },
    };
    let from = start + needle.len();
    assert(from <= tc@.len());
    let rest = suffix_from(tc.as_slice(), from);
    if rest.len() == 0 {
        return None;
    }
    let quote = rest[0];
    if quote == '"' || quote == '\'' {
        let value = suffix_from(rest.as_slice(), 1);
        match find_char(value.as_slice(), quote) {
            Some(end) => {
                let v = slice_of(value.as_slice(), 0, end);
                assert(v@ =~= value@.take(end as int));
                Some(string_from_chars(v.as_slice()))
            },
            None => None,
        }
    } else {
        let end = unquoted_end_of(rest.as_slice());
        let v = slice_of(rest.as_slice(), 0, end);
        assert(v@ =~= rest@.take(end as int));
        Some(string_from_chars(v.as_slice()))
    }
}

/// The five entities the index escapes, replaced in turn.
pub open spec fn unescaped(value: Seq<char>) -> Seq<char> {
    replace_all(
        replace_all(
            replace_all(replace_all(replace_all(value, "&amp;"@, "&"@), "&lt;"@, "<"@), "&gt;"@, ">"@),
            "&quot;"@,
            "\""@,
        ),
        "&#39;"@,
        "'"@,
    )
}

fn replaced(s: &Vec<char>, from: &str, to: &str) -> (out: Vec<char>)
    ensures
        out@ == replace_all(s@, from@, to@),
{
    let f = chars_of(from);
    let t = chars_of(to);
    replace_chars(s.as_slice(), f.as_slice(), t.as_slice())
}

pub fn html_unescape(value: &str) -> (r: String)
    ensures
        r@ == unescaped(value@),
{
    let v = chars_of(value);
    let a = replaced(&v, "&amp;", "&");
    let b = replaced(&a, "&lt;", "<");
    let c = replaced(&b, "&gt;", ">");
    let d = replaced(&c, "&quot;", "\"");
    let e = replaced(&d, "&#39;", "'");
    string_from_chars(e.as_slice())
}

// ---------------------------------------------------------------------------
// Fragments
// ---------------------------------------------------------------------------

/// The hash a fragment part gives: for a `sha256=…` part (the key in any
/// case), the normalized hash where it is one.
pub open spec fn part_sha256(part: Seq<char>) -> Option<Seq<char>> {
    match index_of(part, '=') {
        None => None,
        Some(i) => if lower_seq(part.take(i)) == "sha256"@ {
            sha256_hash("sha256:"@ + part.skip(i + 1))
        } else {
            None
        },
    }
}

/// The first hash among the fragment's parts from index `k` on.
pub open spec fn first_part_sha256(parts: Seq<Seq<char>>, k: nat) -> Option<Seq<char>>
    decreases parts.len() - k,
{
    if k >= parts.len() {
        None
    } else {
        match part_sha256(parts[k as int]) {
            Some(h) => Some(h),
            None => first_part_sha256(parts, k + 1),
        }
    }
}

/// The SHA-256 hash a URL fragment names: the first `sha256=` part of its
/// `&` separated parts that holds a hash.
pub open spec fn fragment_sha256(fragment: Seq<char>) -> Option<Seq<char>> {
    first_part_sha256(split_char(fragment, '&'), 0)
}

fn part_hash(part: &Vec<char>) -> (r: Option<Vec<char>>)
    ensures
        match part_sha256(part@) {
            Some(h) => r matches Some(x) && x@ == h,
            None => r is None,
        },
{
    match find_char(part.as_slice(), '=') {
        None => None,
        Some(i) => {
            let key = slice_of(part.as_slice(), 0, i);
            assert(key@ =~= part@.take(i as int));
            let lower = lower_chars(key.as_slice());
            let name = chars_of("sha256");
            if eq_chars(lower.as_slice(), name.as_slice()) {
                let prefix = chars_of("sha256:");
                let value = suffix_from(part.as_slice(), i + 1);
                let full = concat_chars(prefix.as_slice(), value.as_slice());
                normalize_sha256_hash(full.as_slice())
            } else {
                None
            }
        },
    }
}

pub fn simple_index_sha256_fragment(fragment: &str) -> (r: Option<String>)
    ensures
        match fragment_sha256(fragment@) {
            Some(h) => r matches Some(s) && s@ == h,
            None => r is None,
        },
{
    let c = chars_of(fragment);
    let parts = split_chars(c.as_slice(), '&');
    let ghost ps = seqs_of(parts@);
    let mut i: usize = 0;
    while i < parts.len()
        invariant
            i <= parts@.len(),
            ps == seqs_of(parts@),
            ps == split_char(fragment@, '&'),
            fragment_sha256(fragment@) == first_part_sha256(ps, i as nat),
        decreases parts.len() - i,
    {
        proof {
            assert(ps[i as int] == parts@[i as int]@);
        }
        match part_hash(&parts[i]) {
            Some(h) => {
                return Some(string_from_chars(h.as_slice()));
            },
            None => {},
        }
        i = i + 1;
    }
    None
}

// ---------------------------------------------------------------------------
// Anchors
// ---------------------------------------------------------------------------

/// What an index page says of one file: the target of its anchor (with
/// entities replaced), and its `data-requires-python` and
/// `data-upload-time` attributes.
#[derive(Clone, Debug, PartialEq, Eq)]
pub struct SimpleIndexAnchor {
    pub href: String,
    pub requires_python: Option<String>,
    pub upload_time: Option<String>,
}

pub open spec fn unescaped_opt(v: Option<Seq<char>>) -> Option<Seq<char>> {
    match v {
        Some(s) => Some(unescaped(s)),
        None => None,
    }
}

/// The anchors of a page from `rest` on: each tag that starts with `<a` (in
/// any case) and ends at the next `>`, those with an `href` kept, in order;
/// reading stops at a tag that does not end.
pub open spec fn page_anchors(rest: Seq<char>) -> Seq<(Seq<char>, Option<Seq<char>>, Option<Seq<char>>)>
    decreases rest.len(),
{
    match first_occurrence(lower_seq(rest), "<a"@) {
        None => Seq::empty(),
        Some(start) => if 0 <= start <= rest.len() {
            let r = rest.skip(start);
            match index_of(r, '>') {
                None => Seq::empty(),
                Some(end) => if 0 <= end < r.len() {
                    let tag = r.take(end + 1);
                    let next = r.skip(end + 1);
                    match attr_value(tag, "href"@) {
                        None => page_anchors(next),
                        Some(h) => seq![
                            (
                                unescaped(h),
                                unescaped_opt(attr_value(tag, "data-requires-python"@)),
                                unescaped_opt(attr_value(tag, "data-upload-time"@)),
                            ),
                        ] + page_anchors(next),
                    }
                } else {
                    Seq::empty()
                },
            }
        } else {
            Seq::empty()
        },
    }
}

pub open spec fn anchor_view(a: SimpleIndexAnchor) -> (Seq<char>, Option<Seq<char>>, Option<Seq<char>>) {
    (
        a.href@,
        match a.requires_python {
            Some(s) => Some(s@),
            None => None,
        },
        match a.upload_time {
            Some(s) => Some(s@),
            None => None,
        },
    )
}

pub open spec fn anchors_view(v: Seq<SimpleIndexAnchor>) -> Seq<(Seq<char>, Option<Seq<char>>, Option<Seq<char>>)> {
    Seq::new(v.len(), |i: int| anchor_view(v[i]))
}

fn unescaped_attr(tag: &str, attr: &str) -> (r: Option<String>)
    ensures
        match unescaped_opt(attr_value(tag@, attr@)) {
            Some(v) => r matches Some(s) && s@ == v,
            None => r is None,
        },
{
    match html_attr(tag, attr) {
        Some(v) => Some(html_unescape(v.as_str())),
        None => None,
    }
}

/// The anchors of a simple index page, in order: the part of reading its
/// links that comes before their targets are resolved against the page's
/// URL.
pub fn simple_index_anchors(html: &str) -> (r: Vec<SimpleIndexAnchor>)
    ensures
        anchors_view(r@) == page_anchors(html@),
{
    let mut out: Vec<SimpleIndexAnchor> = Vec::new();
    let mut rest = chars_of(html);
    let opener = chars_of("<a");
    assert(anchors_view(out@) + page_anchors(rest@) =~= page_anchors(html@));
    loop
        invariant
            opener@ == "<a"@,
            anchors_view(out@) + page_anchors(rest@) == page_anchors(html@),
        decreases rest.len(),
    {
        let lower = lower_chars(rest.as_slice());
        let start = match find_chars(lower.as_slice(), opener.as_slice()) {
            Some(s) => s,
            None => {
                assert(page_anchors(rest@) =~= Seq::empty());
                assert(anchors_view(out@) + Seq::empty() =~= anchors_view(out@));
                return out;
            },
        };
        let r = suffix_from(rest.as_slice(), start);
        let end = match find_char(r.as_slice(), '>') {
            Some(e) => e,
            None => {
                assert(page_anchors(rest@) =~= Seq::empty());
                assert(anchors_view(out@) + Seq::empty() =~= anchors_view(out@));
                return out;
            },
        };
        let tag_chars = slice_of(r.as_slice(), 0, end + 1);
        let next = suffix_from(r.as_slice(), end + 1);
        assert(tag_chars@ =~= r@.take(end + 1));
        let tag = string_from_chars(tag_chars.as_slice());
        match html_attr(tag.as_str(), "href") {
            None => {},
            Some(href) => {
                let anchor = SimpleIndexAnchor {
                    href: html_unescape(href.as_str()),
                    requires_python: unescaped_attr(tag.as_str(), "data-requires-python"),
                    upload_time: unescaped_attr(tag.as_str(), "data-upload-time"),
                };
                let ghost before = anchors_view(out@);
                let ghost av = anchor_view(anchor);
                out.push(anchor);
                proof {
                    assert(anchors_view(out@) =~= before.push(av));
                    assert(before.push(av) + page_anchors(next@) =~= before + (seq![av] + page_anchors(
                        next@,
                    )));
                }
            },
        }
        rest = next;
    }
}

} // verus!
