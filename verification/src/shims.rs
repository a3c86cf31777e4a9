//! Names and texts of the files that installs write: command shims, script
//! names, policy file names.
use vstd::prelude::*;
use crate::npm_lock::{replace_all, replace_chars};
use crate::text::{chars_of, concat_chars, eq_chars, string_from_chars};

verus! {

/// A value quoted for a POSIX shell: in single quotes, each `'` written as
/// `'\''`.
pub open spec fn single_quoted(value: Seq<char>) -> Seq<char> {
    "'"@ + replace_all(value, "'"@, "'\\''"@) + "'"@
}

pub fn shell_single_quote(value: &str) -> (r: String)
    ensures
        r@ == single_quoted(value@),
{
    let v = chars_of(value);
    let q = chars_of("'");
    let escaped = chars_of("'\\''");
    let body = replace_chars(v.as_slice(), q.as_slice(), escaped.as_slice());
    let a = concat_chars(q.as_slice(), body.as_slice());
    let b = concat_chars(a.as_slice(), q.as_slice());
    string_from_chars(b.as_slice())
}

/// The POSIX shim that runs a package's command from `source`.
pub open spec fn command_shim(source: Seq<char>) -> Seq<char> {
    "#!/bin/sh\n# OMC npm bin shim\nNODE_OPTIONS='--preserve-symlinks --preserve-symlinks-main'\nexport NODE_OPTIONS\nexec "@
        + single_quoted(source) + " \"$@\"\n"@
}

pub fn command_shim_text(source: &str) -> (r: String)
    ensures
        r@ == command_shim(source@),
{
    let head = chars_of(
        "#!/bin/sh\n# OMC npm bin shim\nNODE_OPTIONS='--preserve-symlinks --preserve-symlinks-main'\nexport NODE_OPTIONS\nexec ",
    );
    let quoted = shell_single_quote(source);
    let qc = chars_of(quoted.as_str());
    let tail = chars_of(" \"$@\"\n");
    let a = concat_chars(head.as_slice(), qc.as_slice());
    let b = concat_chars(a.as_slice(), tail.as_slice());
    string_from_chars(b.as_slice())
}

/// A script name that stays inside the directory it is written to: not
/// empty, not `.` or `..`, and without a path separator.
pub open spec fn safe_script_name(name: Seq<char>) -> bool {
    &&& name.len() > 0
    &&& forall|i: int| 0 <= i < name.len() ==> name[i] != '/' && name[i] != '\\'
    &&& name != "."@
    &&& name != ".."@
}

pub fn is_safe_script_name(name: &str) -> (b: bool)
    ensures
        b == safe_script_name(name@),
{
    let c = chars_of(name);
    if c.len() == 0 {
        return false;
    }
    let mut i: usize = 0;
    while i < c.len()
        invariant
            i <= c@.len(),
            c@ == name@,
            forall|j: int| 0 <= j < i ==> c@[j] != '/' && c@[j] != '\\',
        decreases c.len() - i,
    {
        if c[i] == '/' || c[i] == '\\' {
            return false;
        }
        i = i + 1;
    }
    let dot = chars_of(".");
    let dots = chars_of("..");
    !eq_chars(c.as_slice(), dot.as_slice()) && !eq_chars(c.as_slice(), dots.as_slice())
}

/// A character kept in a policy file name: ASCII letters and digits, `-`,
/// `_`, `.` and `@`.
pub open spec fn policy_name_char(c: char) -> bool {
    ('a' <= c && c <= 'z') || ('A' <= c && c <= 'Z') || ('0' <= c && c <= '9') || c == '-' || c
        == '_' || c == '.' || c == '@'
}

/// A package name made a file name: every other character becomes `_`.
pub open spec fn policy_file_stem(name: Seq<char>) -> Seq<char> {
    Seq::new(name.len(), |i: int| if policy_name_char(name[i]) { name[i] } else { '_' })
}

pub fn sanitize_policy_filename(name: &str) -> (r: String)
    ensures
        r@ == policy_file_stem(name@),
{
    let c = chars_of(name);
    let mut out: Vec<char> = Vec::new();
    let mut i: usize = 0;
    while i < c.len()
        invariant
            i <= c@.len(),
            c@ == name@,
            out@ =~= policy_file_stem(name@).take(i as int),
        decreases c.len() - i,
    {
        let ch = c[i];
        let keep = ('a' <= ch && ch <= 'z') || ('A' <= ch && ch <= 'Z') || ('0' <= ch && ch <= '9')
            || ch == '-' || ch == '_' || ch == '.' || ch == '@';
        if keep {
            out.push(ch);
        } else {
            out.push('_');
        }
        i = i + 1;
    }
    assert(policy_file_stem(name@).take(c@.len() as int) =~= policy_file_stem(name@));
    string_from_chars(out.as_slice())
}

/// The file a package's personal policy is written to.
pub fn policy_file_name(name: &str) -> (r: String)
    ensures
        r@ == policy_file_stem(name@) + ".omc.policy"@,
{
    let stem = sanitize_policy_filename(name);
    let sc = chars_of(stem.as_str());
    let ext = chars_of(".omc.policy");
    let all = concat_chars(sc.as_slice(), ext.as_slice());
    string_from_chars(all.as_slice())
}

} // verus!
