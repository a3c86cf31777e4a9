//! Checking the arguments of npm registry commands: packages, scopes,
//! teams, orgs, users, roles and deprecation ranges.
use vstd::prelude::*;
use crate::error::OmcRegistryError;
use crate::npm_semver::{
    commas_to_spaces, parse_partial_npm_version, parsed_semver, partial_version, split_range_words,
    ws_words,
};
use crate::text::{
    chars_of, concat_chars, ends_with, ends_with_chars, eq_chars, find_char, has_char, index_of,
    lower_chars, lower_seq, seqs_of, slice_of, starts_with, starts_with_chars, string_from_chars,
    suffix_from, trim, trim_chars, trim_start_char, trim_start_matches_char, trim_start_set,
    trim_start_set_chars,
};

verus! {

pub fn message(head: &str, value: &[char], tail: &str) -> (m: String)
    ensures
        m@ == head@ + value@ + tail@,
{
    let h = chars_of(head);
    let t = chars_of(tail);
    let a = concat_chars(h.as_slice(), value);
    let b = concat_chars(a.as_slice(), t.as_slice());
    string_from_chars(b.as_slice())
}

pub fn fixed(text: &str) -> (m: String)
    ensures
        m@ == text@,
{
    let c = chars_of(text);
    string_from_chars(c.as_slice())
}

/// The view of a result carrying text: the text, or the refusal's message.
pub open spec fn text_result(r: Result<String, OmcRegistryError>) -> Result<Seq<char>, Seq<char>> {
    match r {
        Ok(s) => Ok(s@),
        Err(OmcRegistryError::UnsupportedSpec(m)) => Err(m@),
        Err(_) => Err(Seq::empty()),
    }
}

// ---------------------------------------------------------------------------
// Packages
// ---------------------------------------------------------------------------

/// A trust command's package: the trimmed text, which must not be empty.
pub open spec fn trust_package(value: Seq<char>) -> Result<Seq<char>, Seq<char>> {
    if trim(value).len() == 0 {
        Err("npm trust needs a package"@)
    } else {
        Ok(trim(value))
    }
}

/// The package of a trust command.
pub fn npm_trust_package_name(package: &str) -> (r: Result<String, OmcRegistryError>)
    ensures
        text_result(r) == trust_package(package@),
        r is Err ==> r matches Err(OmcRegistryError::UnsupportedSpec(_)),
{
    let p = chars_of(package);
    let t = trim_chars(p.as_slice());
    if t.len() == 0 {
        return Err(OmcRegistryError::UnsupportedSpec(fixed("npm trust needs a package")));
    }
    Ok(string_from_chars(t.as_slice()))
}

/// A package name is scoped: `@scope/name`, neither part empty.
pub open spec fn scoped_package(package: Seq<char>) -> bool {
    package.len() > 0 && package[0] == '@' && match index_of(package.skip(1), '/') {
        Some(i) => i > 0 && i + 1 < package.len() - 1,
        None => false,
    }
}

/// Whether a package name is scoped.
pub fn npm_access_package_is_scoped(package: &[char]) -> (b: bool)
    ensures
        b == scoped_package(package@),
{
    if package.len() == 0 || package[0] != '@' {
        return false;
    }
    let rest = suffix_from(package, 1);
    match find_char(rest.as_slice(), '/') {
        Some(i) => i > 0 && i + 1 < rest.len(),
        None => false,
    }
}

/// The words shown for an access level.
pub open spec fn permission_text(value: Seq<char>) -> Seq<char> {
    if value == "read"@ {
        "read-only"@
    } else if value == "write"@ {
        "read-write"@
    } else {
        value
    }
}

/// The words shown for an access level.
pub fn npm_access_permission_text(value: &[char]) -> (out: Vec<char>)
    ensures
        out@ == permission_text(value@),
{
    let read = chars_of("read");
    let write = chars_of("write");
    if eq_chars(value, read.as_slice()) {
        chars_of("read-only")
    } else if eq_chars(value, write.as_slice()) {
        chars_of("read-write")
    } else {
        slice_of(value, 0, value.len())
    }
}

// ---------------------------------------------------------------------------
// Scopes and teams
// ---------------------------------------------------------------------------

/// `scope[:team]`, after trimming and dropping leading `@`: the scope must
/// not be empty, nor the team when a `:` is written.
pub open spec fn scope_team(value: Seq<char>) -> Result<(Seq<char>, Option<Seq<char>>), Seq<char>> {
    let v = trim_start_char(trim(value), '@');
    if v.len() == 0 {
        Err("npm access scope/team cannot be empty"@)
    } else {
        let (scope, team) = match index_of(v, ':') {
            Some(i) => (v.take(i), Some(v.skip(i + 1))),
            None => (v, None),
        };
        if scope.len() == 0 || team == Some(Seq::<char>::empty()) {
            Err("invalid npm access scope/team `"@ + v + "`"@)
        } else {
            Ok((scope, team))
        }
    }
}

pub open spec fn pair_result(r: Result<(String, Option<String>), OmcRegistryError>) -> Result<
    (Seq<char>, Option<Seq<char>>),
    Seq<char>,
> {
    match r {
        Ok((a, b)) => Ok(
            (
                a@,
                match b {
                    Some(x) => Some(x@),
                    None => None,
                },
            ),
        ),
        Err(OmcRegistryError::UnsupportedSpec(m)) => Err(m@),
        Err(_) => Err(Seq::empty()),
    }
}

/// Reads `scope[:team]`.
pub fn npm_access_scope_team(value: &str) -> (r: Result<(String, Option<String>), OmcRegistryError>)
    ensures
        pair_result(r) == scope_team(value@),
        r is Err ==> r matches Err(OmcRegistryError::UnsupportedSpec(_)),
{
    let raw = chars_of(value);
    let t = trim_chars(raw.as_slice());
    let v = trim_start_matches_char(t.as_slice(), '@');
    if v.len() == 0 {
        return Err(OmcRegistryError::UnsupportedSpec(fixed("npm access scope/team cannot be empty")));
    }
    let (scope, team) = match find_char(v.as_slice(), ':') {
        Some(i) => {
            let s = slice_of(v.as_slice(), 0, i);
            assert(s@ =~= v@.take(i as int));
            (s, Some(suffix_from(v.as_slice(), i + 1)))
        },
        None => (slice_of(v.as_slice(), 0, v.len()), None),
    };
    proof {
        assert(v@.subrange(0, v@.len() as int) =~= v@);
    }
    let empty_team = match &team {
        Some(t) => t.len() == 0,
        None => false,
    };
    proof {
        match &team {
            Some(t) => {
                if t@.len() == 0 {
                    assert(t@ =~= Seq::<char>::empty());
                }
            },
            None => {},
        }
    }
    if scope.len() == 0 || empty_team {
        return Err(
            OmcRegistryError::UnsupportedSpec(
                message("invalid npm access scope/team `", v.as_slice(), "`"),
            ),
        );
    }
    Ok(
        (
            string_from_chars(scope.as_slice()),
            match team {
                Some(t) => Some(string_from_chars(t.as_slice())),
                None => None,
            },
        ),
    )
}

/// A team written `scope:team`.
pub open spec fn team_entity(value: Seq<char>) -> Result<(Seq<char>, Seq<char>), Seq<char>> {
    match scope_team(value) {
        Err(m) => Err(m),
        Ok((scope, None)) => Err("team must be in format `scope:team`"@),
        Ok((scope, Some(team))) => Ok((scope, team)),
    }
}

/// Reads a team written `scope:team`.
pub fn npm_team_entity(value: &str) -> (r: Result<(String, String), OmcRegistryError>)
    ensures
        match r {
            Ok((a, b)) => team_entity(value@) == Ok::<(Seq<char>, Seq<char>), Seq<char>>((a@, b@)),
            Err(OmcRegistryError::UnsupportedSpec(m)) => team_entity(value@) == Err::<
                (Seq<char>, Seq<char>),
                Seq<char>,
            >(m@),
            Err(_) => false,
        },
{
    match npm_access_scope_team(value) {
        Err(e) => Err(e),
        Ok((scope, None)) => Err(
            OmcRegistryError::UnsupportedSpec(fixed("team must be in format `scope:team`")),
        ),
        Ok((scope, Some(team))) => Ok((scope, team)),
    }
}

/// A team scope: trimmed, leading `@` dropped, not empty and without `:`.
pub open spec fn team_scope(value: Seq<char>) -> Result<Seq<char>, Seq<char>> {
    let s = trim_start_char(trim(value), '@');
    if s.len() == 0 || s.contains(':') {
        Err("invalid npm team scope `"@ + value + "`"@)
    } else {
        Ok(s)
    }
}

/// Reads a team scope.
pub fn npm_team_scope(value: &str) -> (r: Result<String, OmcRegistryError>)
    ensures
        text_result(r) == team_scope(value@),
        r is Err ==> r matches Err(OmcRegistryError::UnsupportedSpec(_)),
{
    let raw = chars_of(value);
    let t = trim_chars(raw.as_slice());
    let s = trim_start_matches_char(t.as_slice(), '@');
    if s.len() == 0 || has_char(s.as_slice(), ':') {
        return Err(
            OmcRegistryError::UnsupportedSpec(message("invalid npm team scope `", raw.as_slice(), "`")),
        );
    }
    Ok(string_from_chars(s.as_slice()))
}

/// A team user: the trimmed text, not empty.
pub open spec fn team_user(value: Seq<char>) -> Result<Seq<char>, Seq<char>> {
    if trim(value).len() == 0 {
        Err("npm team user cannot be empty"@)
    } else {
        Ok(trim(value))
    }
}

/// Reads a team user.
pub fn npm_team_user(value: &str) -> (r: Result<String, OmcRegistryError>)
    ensures
        text_result(r) == team_user(value@),
        r is Err ==> r matches Err(OmcRegistryError::UnsupportedSpec(_)),
{
    let raw = chars_of(value);
    let t = trim_chars(raw.as_slice());
    if t.len() == 0 {
        return Err(OmcRegistryError::UnsupportedSpec(fixed("npm team user cannot be empty")));
    }
    Ok(string_from_chars(t.as_slice()))
}

// ---------------------------------------------------------------------------
// Orgs
// ---------------------------------------------------------------------------

/// An org: trimmed, leading `@` dropped, not empty and without `/` or `:`.
pub open spec fn org_name(value: Seq<char>) -> Result<Seq<char>, Seq<char>> {
    let o = trim_start_char(trim(value), '@');
    if o.len() == 0 || o.contains('/') || o.contains(':') {
        Err("invalid npm org `"@ + value + "`"@)
    } else {
        Ok(o)
    }
}

/// Reads an org.
pub fn npm_org_name(value: &str) -> (r: Result<String, OmcRegistryError>)
    ensures
        text_result(r) == org_name(value@),
        r is Err ==> r matches Err(OmcRegistryError::UnsupportedSpec(_)),
{
    let raw = chars_of(value);
    let t = trim_chars(raw.as_slice());
    let o = trim_start_matches_char(t.as_slice(), '@');
    if o.len() == 0 || has_char(o.as_slice(), '/') || has_char(o.as_slice(), ':') {
        return Err(OmcRegistryError::UnsupportedSpec(message("invalid npm org `", raw.as_slice(), "`")));
    }
    Ok(string_from_chars(o.as_slice()))
}

/// An org user: trimmed, leading `@` and `~` dropped, not empty.
pub open spec fn org_user(value: Seq<char>) -> Result<Seq<char>, Seq<char>> {
    let u = trim_start_set(trim(value), "@~"@);
    if u.len() == 0 {
        Err("npm org user cannot be empty"@)
    } else {
        Ok(u)
    }
}

/// Reads an org user.
pub fn npm_org_user(value: &str) -> (r: Result<String, OmcRegistryError>)
    ensures
        text_result(r) == org_user(value@),
        r is Err ==> r matches Err(OmcRegistryError::UnsupportedSpec(_)),
{
    let raw = chars_of(value);
    let t = trim_chars(raw.as_slice());
    let set = chars_of("@~");
    let u = trim_start_set_chars(t.as_slice(), set.as_slice());
    if u.len() == 0 {
        return Err(OmcRegistryError::UnsupportedSpec(fixed("npm org user cannot be empty")));
    }
    Ok(string_from_chars(u.as_slice()))
}

/// An org role: `owner`, `admin` or `developer`, trimmed.
pub open spec fn org_role(value: Seq<char>) -> Result<Seq<char>, Seq<char>> {
    let r = trim(value);
    if r == "owner"@ || r == "admin"@ || r == "developer"@ {
        Ok(r)
    } else {
        Err("npm org role must be owner, admin, or developer"@)
    }
}

/// Reads an org role.
pub fn npm_org_role(value: &str) -> (r: Result<String, OmcRegistryError>)
    ensures
        text_result(r) == org_role(value@),
        r is Err ==> r matches Err(OmcRegistryError::UnsupportedSpec(_)),
{
    let raw = chars_of(value);
    let t = trim_chars(raw.as_slice());
    let owner = chars_of("owner");
    let admin = chars_of("admin");
    let developer = chars_of("developer");
    if eq_chars(t.as_slice(), owner.as_slice()) || eq_chars(t.as_slice(), admin.as_slice())
        || eq_chars(t.as_slice(), developer.as_slice()) {
        Ok(string_from_chars(t.as_slice()))
    } else {
        Err(
            OmcRegistryError::UnsupportedSpec(
                fixed("npm org role must be owner, admin, or developer"),
            ),
        )
    }
}

// ---------------------------------------------------------------------------
// Deprecation ranges
// ---------------------------------------------------------------------------

/// A comparator of a deprecation range reads: an operator and a partial
/// version, `x`, an `x` range over a partial version, or a partial version.
pub open spec fn comparator_valid(c: Seq<char>) -> bool {
    if starts_with(c, ">="@) {
        partial_version(c.skip(2)) is Some
    } else if starts_with(c, "<="@) {
        partial_version(c.skip(2)) is Some
    } else if starts_with(c, ">"@) {
        partial_version(c.skip(1)) is Some
    } else if starts_with(c, "<"@) {
        partial_version(c.skip(1)) is Some
    } else if starts_with(c, "="@) {
        partial_version(c.skip(1)) is Some
    } else if lower_seq(c) == "x"@ {
        true
    } else if ends_with(c, ".x"@) || ends_with(c, ".*"@) {
        partial_version(c.take(c.len() - 2)) is Some
    } else {
        partial_version(c) is Some
    }
}

/// Whether a comparator of a deprecation range reads.
pub fn npm_deprecate_comparator_valid(comparator: &[char]) -> (b: bool)
    ensures
        b == comparator_valid(comparator@),
{
    proof {
        reveal_strlit(">=");
        reveal_strlit("<=");
        reveal_strlit(">");
        reveal_strlit("<");
        reveal_strlit("=");
        reveal_strlit(".x");
        reveal_strlit(".*");
    }
    let ge = chars_of(">=");
    let le = chars_of("<=");
    let gt = chars_of(">");
    let lt = chars_of("<");
    let eq = chars_of("=");
    if starts_with_chars(comparator, ge.as_slice()) || starts_with_chars(comparator, le.as_slice()) {
        let rest = suffix_from(comparator, 2);
        return parse_partial_npm_version(rest.as_slice()).is_some();
    }
    if starts_with_chars(comparator, gt.as_slice()) || starts_with_chars(comparator, lt.as_slice())
        || starts_with_chars(comparator, eq.as_slice()) {
        let rest = suffix_from(comparator, 1);
        return parse_partial_npm_version(rest.as_slice()).is_some();
    }
    let lowered = lower_chars(comparator);
    let x = chars_of("x");
    if eq_chars(lowered.as_slice(), x.as_slice()) {
        return true;
    }
    let dot_x = chars_of(".x");
    let dot_star = chars_of(".*");
    if ends_with_chars(comparator, dot_x.as_slice()) || ends_with_chars(comparator, dot_star.as_slice()) {
        let prefix = slice_of(comparator, 0, comparator.len() - 2);
        assert(prefix@ =~= comparator@.take(comparator@.len() - 2));
        return parse_partial_npm_version(prefix.as_slice()).is_some();
    }
    parse_partial_npm_version(comparator).is_some()
}

/// A deprecation range reads, `depth` bounding how often it is taken apart
/// into words (its words are single words).
pub open spec fn deprecate_valid_at(requirement: Seq<char>, depth: nat) -> bool
    decreases depth,
{
    let r = trim(requirement);
    if r.len() == 0 {
        false
    } else if r == "*"@ || parsed_semver(r) is Some {
        true
    } else {
        let words = ws_words(commas_to_spaces(r));
        if words.len() > 1 {
            depth > 0 && forall|k: int| 0 <= k < words.len() ==> deprecate_valid_at(
                #[trigger] words[k],
                (depth - 1) as nat,
            )
        } else if (starts_with(r, "^"@) && partial_version(r.skip(1)) is Some) || (starts_with(r, "~"@)
            && partial_version(r.skip(1)) is Some) {
            true
        } else {
            comparator_valid(r)
        }
    }
}

fn deprecate_valid_impl(requirement: &[char], depth: u8) -> (b: bool)
    requires
        depth <= 1,
    ensures
        b == deprecate_valid_at(requirement@, depth as nat),
    decreases depth,
{
    let r = trim_chars(requirement);
    if r.len() == 0 {
        return false;
    }
    let star = chars_of("*");
    if eq_chars(r.as_slice(), star.as_slice()) {
        return true;
    }
    let rt = string_from_chars(r.as_slice());
    if crate::npm_semver::is_exact_npm_version(rt.as_str()) {
        return true;
    }
    let words = split_range_words(r.as_slice());
    let ghost ws = ws_words(commas_to_spaces(r@));
    if words.len() > 1 {
        if depth == 0 {
            return false;
        }
        assert(deprecate_valid_at(requirement@, depth as nat) == (forall|j: int|
            0 <= j < ws.len() ==> deprecate_valid_at(#[trigger] ws[j], 0)));
        let mut k: usize = 0;
        while k < words.len()
            invariant
                depth == 1,
                deprecate_valid_at(requirement@, depth as nat) == (forall|j: int|
                    0 <= j < ws.len() ==> deprecate_valid_at(#[trigger] ws[j], 0)),
                ws == seqs_of(words@),
                k <= words@.len(),
                forall|j: int| 0 <= j < k ==> deprecate_valid_at(#[trigger] ws[j], 0),
            decreases words.len() - k,
        {
            if !deprecate_valid_impl(words[k].as_slice(), 0) {
                assert(!deprecate_valid_at(ws[k as int], 0));
                return false;
            }
            assert(deprecate_valid_at(ws[k as int], 0));
            k = k + 1;
        }
        return true;
    }
    proof {
        reveal_strlit("^");
        reveal_strlit("~");
    }
    let caret = chars_of("^");
    let tilde = chars_of("~");
    if starts_with_chars(r.as_slice(), caret.as_slice()) {
        let rest = suffix_from(r.as_slice(), 1);
        if parse_partial_npm_version(rest.as_slice()).is_some() {
            return true;
        }
    }
    if starts_with_chars(r.as_slice(), tilde.as_slice()) {
        let rest = suffix_from(r.as_slice(), 1);
        if parse_partial_npm_version(rest.as_slice()).is_some() {
            return true;
        }
    }
    npm_deprecate_comparator_valid(r.as_slice())
}

/// Whether a deprecation range reads: not blank; `*`, an exact version,
/// words each of which reads, a caret or tilde range, or a comparator.
pub fn npm_deprecate_valid_requirement(requirement: &str) -> (b: bool)
    ensures
        b == deprecate_valid_at(requirement@, 1),
{
    let rc = chars_of(requirement);
    deprecate_valid_impl(rc.as_slice(), 1)
}

} // verus!
