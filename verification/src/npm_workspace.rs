//! Matching package directories against npm `workspaces` glob patterns such
//! as `packages/*`, `apps/**` or `!packages/private`.
use vstd::prelude::*;
use crate::text::{
    char_pred, chars_of, eq_chars, find_chars, first_occurrence, has_char, nonempty_pieces,
    nonempty_pieces_of, occurs_at, rspan, seqs_of, split_char, split_chars, split_set,
    split_set_chars, starts_with, starts_with_chars, ends_with, ends_with_chars,
    strip_suffix, strip_suffix_or_keep, suffix_from, trim, trim_chars, trim_end_char,
    trim_end_matches_char, trim_start_pattern, trim_start_pattern_chars,
};

verus! {

// ---------------------------------------------------------------------------
// One path segment against one pattern segment
// ---------------------------------------------------------------------------

/// The greedy left-to-right match of the literal parts of a `*` pattern: the
/// first part is anchored at the start when the pattern does not begin with
/// `*`; every later part is found at its first occurrence after the previous.
pub open spec fn parts_match(rest: Seq<char>, parts: Seq<Seq<char>>, anchored: bool) -> bool
    decreases parts.len(),
{
    if parts.len() == 0 {
        true
    } else if anchored {
        starts_with(rest, parts[0]) && parts_match(
            rest.skip(parts[0].len() as int),
            parts.drop_first(),
            false,
        )
    } else {
        match first_occurrence(rest, parts[0]) {
            None => false,
            Some(i) => 0 <= i && i + parts[0].len() <= rest.len() && parts_match(
                rest.skip(i + parts[0].len()),
                parts.drop_first(),
                false,
            ),
        }
    }
}

/// `workspace_segment_matches`: a segment without `*` must equal the value;
/// otherwise the literal parts between stars must be found in order, anchored
/// at the start unless the pattern starts with `*`, and the last part must end
/// the value unless the pattern ends with `*`.
pub open spec fn segment_matches(pattern: Seq<char>, value: Seq<char>) -> bool {
    if !pattern.contains('*') {
        pattern == value
    } else {
        let parts = nonempty_pieces(split_char(pattern, '*'));
        let anchored = !starts_with(pattern, "*"@);
        let tail_ok = parts.len() == 0 || ends_with(pattern, "*"@) || ends_with(
            value,
            parts.last(),
        );
        parts.len() == 0 || (parts_match(value, parts, anchored) && tail_ok)
    }
}

/// `workspace_segments_match`: `**` matches any number of segments; any other
/// pattern segment matches exactly one path segment.
pub open spec fn segments_match(pattern: Seq<Seq<char>>, path: Seq<Seq<char>>) -> bool
    decreases pattern.len(), path.len(),
{
    if pattern.len() == 0 {
        path.len() == 0
    } else if pattern[0] == "**"@ {
        segments_match(pattern.drop_first(), path) || (path.len() > 0 && segments_match(
            pattern,
            path.drop_first(),
        ))
    } else {
        path.len() > 0 && segment_matches(pattern[0], path[0]) && segments_match(
            pattern.drop_first(),
            path.drop_first(),
        )
    }
}

/// The segments of a workspace pattern: trimmed, leading `./` removed,
/// trailing `/` and `\` removed, a trailing `package.json` removed, split on
/// `/` and `\`, empty segments dropped.
pub open spec fn pattern_segments(pattern: Seq<char>) -> Seq<Seq<char>> {
    let a = trim_start_pattern(trim(pattern), "./"@);
    let b = trim_end_char(trim_end_char(a, '/'), '\\');
    let c = match strip_suffix(b, "/package.json"@) {
        Some(t) => t,
        None => b,
    };
    let d = match strip_suffix(c, "\\package.json"@) {
        Some(t) => t,
        None => c,
    };
    nonempty_pieces(split_set(d, seq!['/', '\\']))
}

/// Some pattern of `patterns` matches the path.
pub open spec fn any_pattern_matches(patterns: Seq<Seq<char>>, path: Seq<Seq<char>>) -> bool {
    exists|i: int|
        0 <= i < patterns.len() && segments_match(
            pattern_segments(#[trigger] patterns[i]),
            path,
        )
}

// ---------------------------------------------------------------------------
// Laws
// ---------------------------------------------------------------------------

/// The pattern `**` matches every path.
pub proof fn double_star_matches_every_path(path: Seq<Seq<char>>)
    ensures
        segments_match(seq!["**"@], path),
    decreases path.len(),
{
    let p = seq!["**"@];
    assert(p[0] == "**"@);
    assert(p.drop_first() =~= Seq::<Seq<char>>::empty());
    if path.len() > 0 {
        double_star_matches_every_path(path.drop_first());
    }
    assert(segments_match(p, path) == (segments_match(p.drop_first(), path) || (path.len() > 0
        && segments_match(p, path.drop_first()))));
}

/// A pattern segment without `*` matches exactly the equal path segment.
pub proof fn literal_segment_matches_only_itself(pattern: Seq<char>, value: Seq<char>)
    requires
        !pattern.contains('*'),
    ensures
        segment_matches(pattern, value) <==> pattern == value,
{
}

/// Patterns without wildcards match exactly the paths with the same segments.
pub proof fn literal_pattern_matches_only_itself(pattern: Seq<Seq<char>>, path: Seq<Seq<char>>)
    requires
        forall|i: int| 0 <= i < pattern.len() ==> !(#[trigger] pattern[i]).contains('*'),
    ensures
        segments_match(pattern, path) <==> pattern == path,
    decreases pattern.len(),
{
    if pattern.len() > 0 {
        assert(!pattern[0].contains('*'));
        if pattern[0] == "**"@ {
            reveal_strlit("**");
            assert(pattern[0].len() == 2 && pattern[0][0] == '*');
            assert(pattern[0].contains('*'));
        }
        let pd = pattern.drop_first();
        assert forall|i: int| 0 <= i < pd.len() implies !(#[trigger] pd[i]).contains('*') by {
            assert(pd[i] == pattern[i + 1]);
        }
        if path.len() > 0 {
            literal_pattern_matches_only_itself(pd, path.drop_first());
            if pattern[0] == path[0] && pd == path.drop_first() {
                assert(pattern =~= seq![pattern[0]] + pd);
                assert(path =~= seq![path[0]] + path.drop_first());
            }
            if pattern == path {
                assert(pattern[0] == path[0]);
                assert(pd =~= path.drop_first());
            }
        } else {
            assert(pattern != path);
        }
    } else {
        if path.len() == 0 {
            assert(pattern =~= path);
        }
    }
}

// ---------------------------------------------------------------------------
// Implementation
// ---------------------------------------------------------------------------

/// The greedy match of the literal parts from index `k` on.
fn parts_match_from(rest: &[char], parts: &Vec<Vec<char>>, k: usize, anchored: bool) -> (b: bool)
    requires
        k <= parts@.len(),
    ensures
        b == parts_match(rest@, seqs_of(parts@).skip(k as int), anchored),
    decreases parts@.len() - k,
{
    let ghost ps = seqs_of(parts@).skip(k as int);
    if k == parts.len() {
        return true;
    }
    proof {
        assert(ps[0] == parts@[k as int]@);
        assert(ps.drop_first() =~= seqs_of(parts@).skip(k + 1));
    }
    let part = parts[k].as_slice();
    if anchored {
        if !starts_with_chars(rest, part) {
            return false;
        }
        let next = suffix_from(rest, part.len());
        parts_match_from(next.as_slice(), parts, k + 1, false)
    } else {
        match find_chars(rest, part) {
            None => false,
            Some(i) => {
                let rl = rest.len();
                assert(i + part.len() <= rl);
                let next = suffix_from(rest, i + part.len());
                parts_match_from(next.as_slice(), parts, k + 1, false)
            },
        }
    }
}

/// `workspace_segment_matches`.
pub fn workspace_segment_matches(pattern: &[char], value: &[char]) -> (b: bool)
    ensures
        b == segment_matches(pattern@, value@),
{
    if !has_char(pattern, '*') {
        return eq_chars(pattern, value);
    }
    let star = vec!['*'];
    proof {
        assert(star@ =~= "*"@) by {
            reveal_strlit("*");
        }
    }
    let starts_with_star = starts_with_chars(pattern, star.as_slice());
    let ends_with_star = ends_with_chars(pattern, star.as_slice());
    let pieces = split_chars(pattern, '*');
    let parts = nonempty_pieces_of(&pieces);
    if parts.len() == 0 {
        return true;
    }
    proof {
        assert(seqs_of(parts@).skip(0) =~= seqs_of(parts@));
    }
    if !parts_match_from(value, &parts, 0, !starts_with_star) {
        return false;
    }
    if !ends_with_star {
        let last = parts.len() - 1;
        proof {
            assert(seqs_of(parts@).last() == parts@[last as int]@);
        }
        return ends_with_chars(value, parts[last].as_slice());
    }
    true
}

/// `workspace_segments_match` from pattern index `i` and path index `j`.
fn segments_match_from(
    pattern: &Vec<Vec<char>>,
    i: usize,
    path: &Vec<Vec<char>>,
    j: usize,
) -> (b: bool)
    requires
        i <= pattern@.len(),
        j <= path@.len(),
    ensures
        b == segments_match(seqs_of(pattern@).skip(i as int), seqs_of(path@).skip(j as int)),
    decreases pattern@.len() - i, path@.len() - j,
{
    let ghost ps = seqs_of(pattern@).skip(i as int);
    let ghost qs = seqs_of(path@).skip(j as int);
    if i == pattern.len() {
        return j == path.len();
    }
    proof {
        assert(ps[0] == pattern@[i as int]@);
        assert(ps.drop_first() =~= seqs_of(pattern@).skip(i + 1));
        if j < path@.len() {
            assert(qs[0] == path@[j as int]@);
            assert(qs.drop_first() =~= seqs_of(path@).skip(j + 1));
        }
    }
    let double_star = vec!['*', '*'];
    proof {
        assert(double_star@ =~= "**"@) by {
            reveal_strlit("**");
        }
    }
    if eq_chars(pattern[i].as_slice(), double_star.as_slice()) {
        if segments_match_from(pattern, i + 1, path, j) {
            return true;
        }
        return j < path.len() && segments_match_from(pattern, i, path, j + 1);
    }
    if j == path.len() {
        return false;
    }
    workspace_segment_matches(pattern[i].as_slice(), path[j].as_slice())
        && segments_match_from(pattern, i + 1, path, j + 1)
}

/// `workspace_segments_match`.
pub fn workspace_segments_match(pattern_segments: &Vec<Vec<char>>, path_segments: &Vec<Vec<char>>) -> (b:
    bool)
    ensures
        b == segments_match(seqs_of(pattern_segments@), seqs_of(path_segments@)),
{
    proof {
        assert(seqs_of(pattern_segments@).skip(0) =~= seqs_of(pattern_segments@));
        assert(seqs_of(path_segments@).skip(0) =~= seqs_of(path_segments@));
    }
    segments_match_from(pattern_segments, 0, path_segments, 0)
}

/// `workspace_pattern_segments`.
pub fn workspace_pattern_segments(pattern: &str) -> (out: Vec<Vec<char>>)
    ensures
        seqs_of(out@) == pattern_segments(pattern@),
{
    let p = chars_of(pattern);
    let t = trim_chars(p.as_slice());
    let dot_slash = vec!['.', '/'];
    let package_json = chars_of("/package.json");
    let package_json_back = chars_of("\\package.json");
    let seps = vec!['/', '\\'];
    proof {
        assert(dot_slash@ =~= "./"@) by {
            reveal_strlit("./");
        }
        assert(seps@ =~= seq!['/', '\\']);
    }
    let a = trim_start_pattern_chars(t.as_slice(), dot_slash.as_slice());
    let b0 = trim_end_matches_char(a.as_slice(), '/');
    let b = trim_end_matches_char(b0.as_slice(), '\\');
    let c = strip_suffix_or_keep(b.as_slice(), package_json.as_slice());
    let d = strip_suffix_or_keep(c.as_slice(), package_json_back.as_slice());
    let pieces = split_set_chars(d.as_slice(), seps.as_slice());
    nonempty_pieces_of(&pieces)
}

/// `workspace_pattern_matches`: whether a pattern matches a path given as its
/// segments.
pub fn workspace_pattern_matches(pattern: &str, path_segments: &Vec<Vec<char>>) -> (b: bool)
    ensures
        b == segments_match(pattern_segments(pattern@), seqs_of(path_segments@)),
{
    let segments = workspace_pattern_segments(pattern);
    workspace_segments_match(&segments, path_segments)
}

/// The character sequences of a list of strings.
pub open spec fn strings_view(v: Seq<String>) -> Seq<Seq<char>> {
    Seq::new(v.len(), |i: int| v[i]@)
}

fn any_matches(patterns: &Vec<String>, path_segments: &Vec<Vec<char>>) -> (b: bool)
    ensures
        b == any_pattern_matches(strings_view(patterns@), seqs_of(path_segments@)),
{
    let ghost ps = strings_view(patterns@);
    let mut i: usize = 0;
    while i < patterns.len()
        invariant
            i <= patterns@.len(),
            ps == strings_view(patterns@),
            forall|k: int|
                0 <= k < i ==> !segments_match(
                    pattern_segments(#[trigger] ps[k]),
                    seqs_of(path_segments@),
                ),
        decreases patterns.len() - i,
    {
        if workspace_pattern_matches(patterns[i].as_str(), path_segments) {
            proof {
                assert(ps[i as int] == patterns@[i as int]@);
            }
            return true;
        }
        proof {
            assert(ps[i as int] == patterns@[i as int]@);
        }
        i = i + 1;
    }
    false
}

/// `workspace_patterns_match`: some include pattern matches the directory
/// (given as its path segments) and no exclude pattern does.
pub fn workspace_patterns_match(
    includes: &Vec<String>,
    excludes: &Vec<String>,
    relative_dir: &Vec<Vec<char>>,
) -> (b: bool)
    ensures
        b == (any_pattern_matches(strings_view(includes@), seqs_of(relative_dir@))
            && !any_pattern_matches(strings_view(excludes@), seqs_of(relative_dir@))),
{
    any_matches(includes, relative_dir) && !any_matches(excludes, relative_dir)
}

/// A `package.json`'s `workspaces`: a list of patterns, or a table with
/// its `packages` patterns.
#[derive(Debug)]
pub enum ProjectWorkspaces {
    Patterns(Vec<String>),
    Config { packages: Vec<String> },
}

impl ProjectWorkspaces {
    /// The workspace patterns, in either form.
    pub fn patterns(&self) -> (r: &Vec<String>)
        ensures
            r@ == match *self {
                ProjectWorkspaces::Patterns(p) => p@,
                ProjectWorkspaces::Config { packages } => packages@,
            },
    {
        match self {
            ProjectWorkspaces::Patterns(patterns) => patterns,
            ProjectWorkspaces::Config { packages } => packages,
        }
    }
}

} // verus!
