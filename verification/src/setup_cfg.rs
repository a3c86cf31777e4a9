//! `key = value` lines of `setup.cfg`.
use vstd::prelude::*;
use crate::text::{chars_of, find_char, index_of, lower_char, slice_of, suffix_from, trim, trim_chars};

verus! {

/// A character allowed in a `setup.cfg` key.
pub open spec fn cfg_key_char(c: char) -> bool {
    ('a' <= c && c <= 'z') || ('A' <= c && c <= 'Z') || ('0' <= c && c <= '9') || c == '_' || c
        == '-' || c == '.'
}

/// A key with `-` replaced by `_` and ASCII letters lowered.
pub open spec fn cfg_key(key: Seq<char>) -> Seq<char> {
    Seq::new(key.len(), |i: int| if key[i] == '-' { '_' } else { lower_char(key[i]) })
}

/// A trimmed line read as `key = value`: the key non-empty and made of
/// letters, digits, `_`, `-` and `.`, the value not starting with `=`.
pub open spec fn cfg_key_value(line: Seq<char>) -> Option<(Seq<char>, Seq<char>)> {
    match index_of(line, '=') {
        None => None,
        Some(i) => {
            let key = trim(line.take(i));
            let value = trim(line.skip(i + 1));
            if key.len() == 0 || (value.len() > 0 && value[0] == '=') {
                None
            } else if !(forall|k: int| 0 <= k < key.len() ==> #[trigger] cfg_key_char(key[k])) {
                None
            } else {
                Some((cfg_key(key), value))
            }
        },
    }
}

/// Reads a trimmed `setup.cfg` line as `key = value`, the key normalized.
pub fn setup_cfg_key_value(trimmed: &[char]) -> (r: Option<(Vec<char>, Vec<char>)>)
    ensures
        match r {
            None => cfg_key_value(trimmed@) is None,
            Some((k, v)) => cfg_key_value(trimmed@) == Some((k@, v@)),
        },
{
    let i = match find_char(trimmed, '=') {
        None => {
            return None;
        },
        Some(i) => i,
    };
    let raw_key = slice_of(trimmed, 0, i);
    assert(raw_key@ =~= trimmed@.take(i as int));
    let key = trim_chars(raw_key.as_slice());
    let after = suffix_from(trimmed, i + 1);
    let value = trim_chars(after.as_slice());
    if key.len() == 0 || (value.len() > 0 && value[0] == '=') {
        return None;
    }
    let mut out: Vec<char> = Vec::new();
    let mut j: usize = 0;
    while j < key.len()
        invariant
            index_of(trimmed@, '=') == Some(i as int),
            key@ == trim(trimmed@.take(i as int)),
            value@ == trim(trimmed@.skip(i + 1)),
            !(key@.len() == 0 || (value@.len() > 0 && value@[0] == '=')),
            j <= key@.len(),
            out@.len() == j,
            forall|k: int| 0 <= k < j ==> #[trigger] cfg_key_char(key@[k]),
            forall|k: int| 0 <= k < j ==> #[trigger] out@[k] == (if key@[k] == '-' {
                '_'
            } else {
                lower_char(key@[k])
            }),
        decreases key.len() - j,
    {
        let c = key[j];
        if !(('a' <= c && c <= 'z') || ('A' <= c && c <= 'Z') || ('0' <= c && c <= '9') || c == '_'
            || c == '-' || c == '.') {
            assert(!cfg_key_char(key@[j as int]));
            return None;
        }
        if c == '-' {
            out.push('_');
        } else {
            out.push(crate::text::to_ascii_lower(c));
        }
        j = j + 1;
    }
    assert(out@ =~= cfg_key(key@));
    Some((out, value))
}

} // verus!
