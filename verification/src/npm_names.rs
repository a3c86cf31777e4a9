//! Package names and versions as they appear in npm lockfiles, overrides and
//! selectors.
use vstd::prelude::*;
use crate::text::{
    chars_of, concat_chars, eq_chars, find_char, find_chars, first_occurrence, index_of,
    last_index_of, nonempty_pieces, occurs_at, rfind_char, seqs_of, slice_of, split_char,
    split_chars, starts_with, starts_with_chars, suffix_from, trim, trim_chars,
    trim_start_char, trim_start_matches_char, trim_start_pattern, trim_start_pattern_chars,
};

verus! {

/// The text before the first `c` (all of it when there is none).
pub open spec fn before_char(s: Seq<char>, c: char) -> Seq<char> {
    match index_of(s, c) {
        Some(i) => s.take(i),
        None => s,
    }
}

/// The text before the first `c`.
pub fn before_first(s: &[char], c: char) -> (out: Vec<char>)
    ensures
        out@ == before_char(s@, c),
{
    match find_char(s, c) {
        Some(i) => slice_of(s, 0, i),
        None => slice_of(s, 0, s.len()),
    }
}

// ---------------------------------------------------------------------------
// Constraint versions
// ---------------------------------------------------------------------------

/// `npm_constraint_version`: the trimmed version, unless it is empty, a
/// `$` reference, a `file:`/`link:`/`workspace:` protocol or a URL.
pub open spec fn constraint_version(version: Seq<char>) -> Option<Seq<char>> {
    let v = trim(version);
    if v.len() == 0 || starts_with(v, "$"@) || starts_with(v, "file:"@) || starts_with(v, "link:"@)
        || starts_with(v, "workspace:"@) || first_occurrence(v, "://"@) is Some {
        None
    } else {
        Some(v)
    }
}

/// `npm_constraint_version`.
pub fn npm_constraint_version(version: &str) -> (r: Option<Vec<char>>)
    ensures
        r matches Some(v) ==> constraint_version(version@) == Some(v@),
        r is None ==> constraint_version(version@) is None,
{
    let raw = chars_of(version);
    let v = trim_chars(raw.as_slice());
    let dollar = chars_of("$");
    let file = chars_of("file:");
    let link = chars_of("link:");
    let workspace = chars_of("workspace:");
    let url = chars_of("://");
    if v.len() == 0 || starts_with_chars(v.as_slice(), dollar.as_slice()) || starts_with_chars(
        v.as_slice(),
        file.as_slice(),
    ) || starts_with_chars(v.as_slice(), link.as_slice()) || starts_with_chars(
        v.as_slice(),
        workspace.as_slice(),
    ) || find_chars(v.as_slice(), url.as_slice()).is_some() {
        None
    } else {
        Some(v)
    }
}

// ---------------------------------------------------------------------------
// Override selectors
// ---------------------------------------------------------------------------

/// `strip_npm_selector_version`: `name@range` to `name`, keeping the scope of
/// `@scope/name@range`.
pub open spec fn strip_selector_version(selector: Seq<char>) -> Seq<char> {
    if starts_with(selector, "@"@) {
        let rest = selector.skip(1);
        match index_of(rest, '/') {
            None => selector,
            Some(i) => "@"@ + rest.take(i) + "/"@ + before_char(rest.skip(i + 1), '@'),
        }
    } else {
        before_char(selector, '@')
    }
}

/// `strip_npm_selector_version`.
pub fn strip_npm_selector_version(selector: &[char]) -> (out: Vec<char>)
    ensures
        out@ == strip_selector_version(selector@),
{
    let at = vec!['@'];
    let slash = vec!['/'];
    proof {
        assert(at@ =~= "@"@) by {
            reveal_strlit("@");
        }
        assert(slash@ =~= "/"@) by {
            reveal_strlit("/");
        }
    }
    if starts_with_chars(selector, at.as_slice()) {
        let rest = suffix_from(selector, 1);
        match find_char(rest.as_slice(), '/') {
            None => slice_of(selector, 0, selector.len()),
            Some(i) => {
                let scope = slice_of(rest.as_slice(), 0, i);
                let package_full = suffix_from(rest.as_slice(), i + 1);
                let package = before_first(package_full.as_slice(), '@');
                let a = concat_chars(at.as_slice(), scope.as_slice());
                let b = concat_chars(a.as_slice(), slash.as_slice());
                let out = concat_chars(b.as_slice(), package.as_slice());
                proof {
                    assert(scope@ == rest@.take(i as int));
                }
                out
            },
        }
    } else {
        before_first(selector, '@')
    }
}

/// The text after the last `c` (all of it when there is none), as
/// `str::rsplit(c).next()` gives it.
pub open spec fn after_last(s: Seq<char>, c: char) -> Seq<char> {
    match last_index_of(s, c) {
        Some(i) => s.skip(i + 1),
        None => s,
    }
}

/// A selector segment that names a package: not empty, `*` or `**`.
pub open spec fn named_segment(seg: Seq<char>) -> bool {
    seg.len() > 0 && seg != "*"@ && seg != "**"@
}

/// The named segments, in order.
pub open spec fn named_segments(pieces: Seq<Seq<char>>) -> Seq<Seq<char>>
    decreases pieces.len(),
{
    if pieces.len() == 0 {
        Seq::empty()
    } else if named_segment(pieces.last()) {
        named_segments(pieces.drop_last()).push(pieces.last())
    } else {
        named_segments(pieces.drop_last())
    }
}

/// `npm_selector_package_name`: the package an override selector such as
/// `a>b@1`, `**/@scope/name@2` or `name` is about.
pub open spec fn selector_package_name(selector: Seq<char>) -> Option<Seq<char>> {
    let s = trim_start_pattern(trim(after_last(selector, '>')), "**/"@);
    let segs = named_segments(split_char(s, '/'));
    if segs.len() == 0 {
        None
    } else {
        let candidate = if segs.len() >= 2 && starts_with(segs[segs.len() - 2], "@"@) {
            segs[segs.len() - 2] + "/"@ + segs[segs.len() - 1]
        } else {
            segs.last()
        };
        let name = strip_selector_version(candidate);
        if name.len() > 0 {
            Some(name)
        } else {
            None
        }
    }
}

fn named_segments_of(pieces: &Vec<Vec<char>>) -> (out: Vec<Vec<char>>)
    ensures
        seqs_of(out@) == named_segments(seqs_of(pieces@)),
{
    let star = vec!['*'];
    let stars = vec!['*', '*'];
    proof {
        assert(star@ =~= "*"@) by {
            reveal_strlit("*");
        }
        assert(stars@ =~= "**"@) by {
            reveal_strlit("**");
        }
    }
    let mut out: Vec<Vec<char>> = Vec::new();
    let mut i: usize = 0;
    assert(seqs_of(pieces@).take(0) =~= Seq::<Seq<char>>::empty());
    assert(seqs_of(out@) =~= Seq::<Seq<char>>::empty());
    while i < pieces.len()
        invariant
            i <= pieces@.len(),
            star@ == "*"@,
            stars@ == "**"@,
            seqs_of(out@) == named_segments(seqs_of(pieces@).take(i as int)),
        decreases pieces.len() - i,
    {
        let ghost prev = seqs_of(out@);
        proof {
            assert(seqs_of(pieces@).take(i + 1).drop_last() =~= seqs_of(pieces@).take(i as int));
            assert(seqs_of(pieces@).take(i + 1).last() == pieces@[i as int]@);
        }
        let seg = pieces[i].as_slice();
        if seg.len() > 0 && !eq_chars(seg, star.as_slice()) && !eq_chars(seg, stars.as_slice()) {
            let p = slice_of(seg, 0, seg.len());
            proof {
                assert(p@ =~= pieces@[i as int]@);
            }
            out.push(p);
            proof {
                assert(seqs_of(out@) =~= prev.push(pieces@[i as int]@));
            }
        }
        i = i + 1;
    }
    assert(seqs_of(pieces@).take(pieces@.len() as int) =~= seqs_of(pieces@));
    out
}

/// `npm_selector_package_name`.
pub fn npm_selector_package_name(selector: &str) -> (r: Option<Vec<char>>)
    ensures
        r matches Some(n) ==> selector_package_name(selector@) == Some(n@),
        r is None ==> selector_package_name(selector@) is None,
{
    let raw = chars_of(selector);
    let last = match rfind_char(raw.as_slice(), '>') {
        Some(i) => suffix_from(raw.as_slice(), i + 1),
        None => slice_of(raw.as_slice(), 0, raw.len()),
    };
    let t = trim_chars(last.as_slice());
    let prefix = vec!['*', '*', '/'];
    proof {
        assert(prefix@ =~= "**/"@) by {
            reveal_strlit("**/");
        }
    }
    let s = trim_start_pattern_chars(t.as_slice(), prefix.as_slice());
    let pieces = split_chars(s.as_slice(), '/');
    let segs = named_segments_of(&pieces);
    let n = segs.len();
    proof {
        assert(last@ == after_last(selector@, '>'));
        assert(s@ == trim_start_pattern(trim(after_last(selector@, '>')), "**/"@));
        assert(seqs_of(segs@).len() == n);
    }
    if n == 0 {
        return None;
    }
    let at = vec!['@'];
    let slash = vec!['/'];
    proof {
        assert(at@ =~= "@"@) by {
            reveal_strlit("@");
        }
        assert(slash@ =~= "/"@) by {
            reveal_strlit("/");
        }
        assert(seqs_of(segs@)[n - 1] == segs@[n - 1]@);
        if n >= 2 {
            assert(seqs_of(segs@)[n - 2] == segs@[n - 2]@);
        }
    }
    let candidate = if n >= 2 && starts_with_chars(segs[n - 2].as_slice(), at.as_slice()) {
        let a = concat_chars(segs[n - 2].as_slice(), slash.as_slice());
        concat_chars(a.as_slice(), segs[n - 1].as_slice())
    } else {
        slice_of(segs[n - 1].as_slice(), 0, segs[n - 1].len())
    };
    proof {
        let sg = seqs_of(segs@);
        assert(candidate@ == (if sg.len() >= 2 && starts_with(sg[sg.len() - 2], "@"@) {
            sg[sg.len() - 2] + "/"@ + sg[sg.len() - 1]
        } else {
            sg.last()
        }));
    }
    let name = strip_npm_selector_version(candidate.as_slice());
    if name.len() > 0 {
        Some(name)
    } else {
        None
    }
}

// ---------------------------------------------------------------------------
// package-lock.json paths and pnpm keys
// ---------------------------------------------------------------------------

/// The package named by the last `node_modules/<name>` (or
/// `node_modules/@scope/<name>`) of a lock path, reading the components from
/// index `i` with `name` found so far; `None` when a `node_modules` is not
/// followed by a complete name.
pub open spec fn lock_path_name(comps: Seq<Seq<char>>, i: int, name: Option<Seq<char>>) -> Option<
    Seq<char>,
>
    decreases comps.len() - i,
{
    if i < 0 || i >= comps.len() {
        name
    } else if comps[i] != "node_modules"@ {
        lock_path_name(comps, i + 1, name)
    } else if i + 1 >= comps.len() {
        None
    } else if starts_with(comps[i + 1], "@"@) {
        if i + 2 >= comps.len() {
            None
        } else {
            lock_path_name(comps, i + 3, Some(comps[i + 1] + "/"@ + comps[i + 2]))
        }
    } else {
        lock_path_name(comps, i + 2, Some(comps[i + 1]))
    }
}

/// `npm_package_name_from_lock_path`.
pub fn npm_package_name_from_lock_path(path: &str) -> (r: Option<Vec<char>>)
    ensures
        r matches Some(n) ==> lock_path_name(split_char(path@, '/'), 0, None) == Some(n@),
        r is None ==> lock_path_name(split_char(path@, '/'), 0, None) is None,
{
    let p = chars_of(path);
    let comps = split_chars(p.as_slice(), '/');
    let ghost cs = seqs_of(comps@);
    let node_modules = chars_of("node_modules");
    let at = vec!['@'];
    let slash = vec!['/'];
    proof {
        assert(at@ =~= "@"@) by {
            reveal_strlit("@");
        }
        assert(slash@ =~= "/"@) by {
            reveal_strlit("/");
        }
    }
    let mut name: Option<Vec<char>> = None;
    let mut i: usize = 0;
    while i < comps.len()
        invariant
            cs == seqs_of(comps@),
            cs == split_char(path@, '/'),
            node_modules@ == "node_modules"@,
            at@ == "@"@,
            slash@ == "/"@,
            i <= comps@.len(),
            lock_path_name(cs, 0, None) == lock_path_name(
                cs,
                i as int,
                match name {
                    Some(n) => Some(n@),
                    None => None,
                },
            ),
        decreases comps.len() - i,
    {
        proof {
            assert(cs[i as int] == comps@[i as int]@);
        }
        if !eq_chars(comps[i].as_slice(), node_modules.as_slice()) {
            i = i + 1;
        } else {
            if i + 1 >= comps.len() {
                return None;
            }
            proof {
                assert(cs[i + 1] == comps@[i + 1]@);
            }
            if starts_with_chars(comps[i + 1].as_slice(), at.as_slice()) {
                if i + 2 >= comps.len() {
                    return None;
                }
                proof {
                    assert(cs[i + 2] == comps@[i + 2]@);
                }
                let a = concat_chars(comps[i + 1].as_slice(), slash.as_slice());
                name = Some(concat_chars(a.as_slice(), comps[i + 2].as_slice()));
                i = i + 3;
            } else {
                name = Some(slice_of(comps[i + 1].as_slice(), 0, comps[i + 1].len()));
                proof {
                    assert(comps@[i + 1]@.subrange(0, comps@[i + 1]@.len() as int) =~= comps@[i
                        + 1]@);
                }
                i = i + 2;
            }
        }
    }
    name
}

/// `pnpm_locked_version`: the version of a pnpm importer entry without its
/// peer suffix `(...)`, unless it is a `link:`, `workspace:`, `file:` or
/// `patch:` reference.
pub open spec fn pnpm_version(version: Seq<char>) -> Option<Seq<char>> {
    let v = trim(version);
    if v.len() == 0 || starts_with(v, "link:"@) || starts_with(v, "workspace:"@) || starts_with(
        v,
        "file:"@,
    ) || starts_with(v, "patch:"@) {
        None
    } else {
        let w = trim(before_char(v, '('));
        if w.len() > 0 {
            Some(w)
        } else {
            None
        }
    }
}

/// `pnpm_locked_version`.
pub fn pnpm_locked_version(version: &str) -> (r: Option<Vec<char>>)
    ensures
        r matches Some(v) ==> pnpm_version(version@) == Some(v@),
        r is None ==> pnpm_version(version@) is None,
{
    let raw = chars_of(version);
    let v = trim_chars(raw.as_slice());
    let link = chars_of("link:");
    let workspace = chars_of("workspace:");
    let file = chars_of("file:");
    let patch = chars_of("patch:");
    if v.len() == 0 || starts_with_chars(v.as_slice(), link.as_slice()) || starts_with_chars(
        v.as_slice(),
        workspace.as_slice(),
    ) || starts_with_chars(v.as_slice(), file.as_slice()) || starts_with_chars(
        v.as_slice(),
        patch.as_slice(),
    ) {
        return None;
    }
    let b = before_first(v.as_slice(), '(');
    let w = trim_chars(b.as_slice());
    if w.len() > 0 {
        Some(w)
    } else {
        None
    }
}

/// `pnpm_package_key_name_and_version`: `/name@1.0.0(peer)` to its name and
/// version.
pub open spec fn pnpm_key_name_version(key: Seq<char>) -> Option<(Seq<char>, Seq<char>)> {
    let k = before_char(trim_start_char(trim(key), '/'), '(');
    match last_index_of(k, '@') {
        None => None,
        Some(r) => if r == 0 || k.take(r).len() == 0 || k.skip(r + 1).len() == 0 {
            None
        } else {
            Some((k.take(r), k.skip(r + 1)))
        },
    }
}

/// `pnpm_package_key_name_and_version`.
pub fn pnpm_package_key_name_and_version(key: &str) -> (r: Option<(Vec<char>, Vec<char>)>)
    ensures
        r matches Some((n, v)) ==> pnpm_key_name_version(key@) == Some((n@, v@)),
        r is None ==> pnpm_key_name_version(key@) is None,
{
    let raw = chars_of(key);
    let t = trim_chars(raw.as_slice());
    let u = trim_start_matches_char(t.as_slice(), '/');
    let k = before_first(u.as_slice(), '(');
    match rfind_char(k.as_slice(), '@') {
        None => None,
        Some(r) => {
            if r == 0 {
                return None;
            }
            let name = slice_of(k.as_slice(), 0, r);
            let version = suffix_from(k.as_slice(), r + 1);
            proof {
                assert(name@ =~= k@.take(r as int));
            }
            if name.len() == 0 || version.len() == 0 {
                return None;
            }
            Some((name, version))
        },
    }
}

} // verus!
