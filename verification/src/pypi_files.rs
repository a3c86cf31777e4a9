//! Choosing the file of a PyPI release to install: the tags an interpreter
//! accepts in wheel names, and the preference between wheels and source
//! archives.
use vstd::prelude::*;
use crate::npm_semver::{decimal_chars, decimal_u64, parse_u64_text, u64_text};
use crate::pypi_release::{contains_string, normalize_pypi_name, normalized_name, PypiBinaryMode};
use crate::pypi_requirement::{pypi_version_satisfies, pypi_version_satisfies_checked, version_satisfies};
use crate::set_map::{distinct_strings, insert_distinct, string_set};
use crate::text::{
    chars_of, concat_chars, ends_with, ends_with_chars, eq_chars, find_char, find_chars,
    first_occurrence, index_of, lemma_split_char_nonempty, lower_chars, lower_seq, seqs_of,
    last_index_of, rfind_char, slice_of, split_char, split_chars, starts_with, starts_with_chars,
    string_from_chars, suffix_from, trim, trim_chars,
};
use crate::requirements::{lines, text_lines};

verus! {

/// The tags of wheel names that an interpreter accepts.
#[derive(Clone, Debug)]
pub struct PythonWheelCompatibility {
    pub python_tags: Vec<String>,
    pub abi_tags: Vec<String>,
    pub platform_tags: Vec<String>,
}

impl PythonWheelCompatibility {
    /// No tag is listed twice.
    pub open spec fn wf(&self) -> bool {
        &&& distinct_strings(self.python_tags@)
        &&& distinct_strings(self.abi_tags@)
        &&& distinct_strings(self.platform_tags@)
    }

    pub open spec fn pythons(&self) -> Set<Seq<char>> {
        string_set(self.python_tags@)
    }

    pub open spec fn abis(&self) -> Set<Seq<char>> {
        string_set(self.abi_tags@)
    }

    pub open spec fn platforms(&self) -> Set<Seq<char>> {
        string_set(self.platform_tags@)
    }
}

// ---------------------------------------------------------------------------
// Target versions and tags
// ---------------------------------------------------------------------------

/// A dotless target version whose first character is not ASCII: splitting
/// off its first byte would cut that character in two.
pub open spec fn target_version_splits_char(value: Seq<char>) -> bool {
    let v = trim(value);
    v.len() > 0 && index_of(v, '.') is None && (v[0] as u32) >= 128
}

/// The major and minor number of a target Python version: `3.11` or
/// `3.11.4` by its first two parts, `311` by its first digit and the rest,
/// `3` as `3.0`.
pub open spec fn target_python_version(value: Seq<char>) -> Option<(u64, u64)> {
    let v = trim(value);
    if v.len() == 0 {
        None
    } else {
        match index_of(v, '.') {
            Some(i) => match (u64_text(v.take(i)), u64_text(split_char(v.skip(i + 1), '.')[0])) {
                (Some(a), Some(b)) => Some((a, b)),
                _ => None,
            },
            None => if v.len() >= 2 {
                match (u64_text(v.take(1)), u64_text(v.skip(1))) {
                    (Some(a), Some(b)) => Some((a, b)),
                    _ => None,
                }
            } else {
                match u64_text(v) {
                    Some(a) => Some((a, 0)),
                    None => None,
                }
            },
        }
    }
}

/// The major and minor number of a target Python version.
pub fn parse_target_python_version(value: &str) -> (r: Option<(u64, u64)>)
    requires
        !target_version_splits_char(value@),
    ensures
        r == target_python_version(value@),
{
    let c = chars_of(value);
    let v = trim_chars(c.as_slice());
    if v.len() == 0 {
        return None;
    }
    match find_char(v.as_slice(), '.') {
        Some(i) => {
            let head = slice_of(v.as_slice(), 0, i);
            let rest = suffix_from(v.as_slice(), i + 1);
            let pieces = split_chars(rest.as_slice(), '.');
            proof {
                lemma_split_char_nonempty(rest@, '.');
                assert(seqs_of(pieces@)[0] == pieces@[0]@);
                assert(head@ =~= v@.take(i as int));
            }
            let a = parse_u64_text(head.as_slice());
            let b = parse_u64_text(pieces[0].as_slice());
            match (a, b) {
                (Some(a), Some(b)) => Some((a, b)),
                _ => None,
            }
        },
        None => {
            if v.len() >= 2 {
                let head = slice_of(v.as_slice(), 0, 1);
                let tail = suffix_from(v.as_slice(), 1);
                proof {
                    assert(head@ =~= v@.take(1));
                }
                let a = parse_u64_text(head.as_slice());
                let b = parse_u64_text(tail.as_slice());
                match (a, b) {
                    (Some(a), Some(b)) => Some((a, b)),
                    _ => None,
                }
            } else {
                match parse_u64_text(v.as_slice()) {
                    Some(a) => Some((a, 0)),
                    None => None,
                }
            }
        },
    }
}

/// An implementation name as a tag maker knows it: trimmed, lower-cased,
/// with `cp` read as `cpython`.
pub open spec fn implementation_tag(value: Seq<char>) -> Seq<char> {
    let t = lower_seq(trim(value));
    if t == "cp"@ || t == "cpython"@ {
        "cpython"@
    } else {
        t
    }
}

pub fn normalize_python_implementation_tag(value: &str) -> (r: String)
    ensures
        r@ == implementation_tag(value@),
{
    let c = chars_of(value);
    let t = trim_chars(c.as_slice());
    let l = lower_chars(t.as_slice());
    let cp = chars_of("cp");
    let cpython = chars_of("cpython");
    if eq_chars(l.as_slice(), cp.as_slice()) || eq_chars(l.as_slice(), cpython.as_slice()) {
        string_from_chars(cpython.as_slice())
    } else {
        string_from_chars(l.as_slice())
    }
}

/// A platform name with each `-` and `.` made `_`.
pub open spec fn wheel_platform(value: Seq<char>) -> Seq<char> {
    Seq::new(value.len(), |i: int| if value[i] == '-' || value[i] == '.' { '_' } else { value[i] })
}

fn wheel_platform_chars(value: &[char]) -> (out: Vec<char>)
    ensures
        out@ == wheel_platform(value@),
{
    let mut out: Vec<char> = Vec::new();
    let mut i: usize = 0;
    while i < value.len()
        invariant
            i <= value@.len(),
            out@ =~= wheel_platform(value@).take(i as int),
        decreases value.len() - i,
    {
        let ch = value[i];
        if ch == '-' || ch == '.' {
            out.push('_');
        } else {
            out.push(ch);
        }
        i = i + 1;
    }
    assert(wheel_platform(value@).take(value@.len() as int) =~= wheel_platform(value@));
    out
}

pub fn normalize_wheel_platform(value: &str) -> (r: String)
    ensures
        r@ == wheel_platform(value@),
{
    let c = chars_of(value);
    let out = wheel_platform_chars(c.as_slice());
    string_from_chars(out.as_slice())
}

/// A source archive name: `.tar.gz`, `.tgz` or `.zip`, in any case.
pub open spec fn sdist_filename(filename: Seq<char>) -> bool {
    let l = lower_seq(filename);
    ends_with(l, ".tar.gz"@) || ends_with(l, ".tgz"@) || ends_with(l, ".zip"@)
}

pub fn is_python_sdist_filename(filename: &str) -> (b: bool)
    ensures
        b == sdist_filename(filename@),
{
    let c = chars_of(filename);
    let l = lower_chars(c.as_slice());
    let a = chars_of(".tar.gz");
    let b = chars_of(".tgz");
    let z = chars_of(".zip");
    ends_with_chars(l.as_slice(), a.as_slice()) || ends_with_chars(l.as_slice(), b.as_slice())
        || ends_with_chars(l.as_slice(), z.as_slice())
}

// ---------------------------------------------------------------------------
// Wheel names
// ---------------------------------------------------------------------------

/// The python, ABI and platform tags of a wheel's name, each split at `.`:
/// the last three `-` separated parts before `.whl`; none unless the name
/// ends with `.whl` and has at least four such parts.
pub open spec fn wheel_tags(filename: Seq<char>) -> Option<
    (Seq<Seq<char>>, Seq<Seq<char>>, Seq<Seq<char>>),
> {
    if !ends_with(filename, ".whl"@) {
        None
    } else {
        let p = split_char(filename.take(filename.len() - 4), '-');
        if p.len() < 4 {
            None
        } else {
            Some(
                (
                    split_char(p[p.len() - 3], '.'),
                    split_char(p[p.len() - 2], '.'),
                    split_char(p[p.len() - 1], '.'),
                ),
            )
        }
    }
}

/// Some tag is accepted.
pub open spec fn meets(tags: Seq<Seq<char>>, accepted: Set<Seq<char>>) -> bool {
    exists|i: int| 0 <= i < tags.len() && accepted.contains(tags[i])
}

/// A wheel fits the interpreter: its name has tags, and each of its three
/// tag lists has one the interpreter accepts.
pub open spec fn wheel_compatible(filename: Seq<char>, c: PythonWheelCompatibility) -> bool {
    match wheel_tags(filename) {
        None => false,
        Some((py, abi, plat)) => meets(py, c.pythons()) && meets(abi, c.abis()) && meets(
            plat,
            c.platforms(),
        ),
    }
}

/// Some tag of a list is among some accepted tags.
pub open spec fn shares_tag(tags: Seq<Seq<char>>, accepted: Seq<String>) -> bool {
    exists|i: int, j: int| 0 <= i < tags.len() && 0 <= j < accepted.len() && #[trigger] tags[i]
        == #[trigger] accepted[j]@
}

/// A wheel fits an interpreter exactly when its file name carries wheel
/// tags and each of its python, ABI and platform tag lists names a tag the
/// interpreter accepts.  So a wheel none of whose ABI tags (or python
/// tags, or platform tags) the interpreter accepts does not fit.
pub proof fn wheel_fits_exactly_when_each_tag_list_is_accepted(filename: Seq<char>, c: PythonWheelCompatibility)
    ensures
        wheel_compatible(filename, c) <==> (wheel_tags(filename) matches Some((py, abi, plat)) && shares_tag(
            py,
            c.python_tags@,
        ) && shares_tag(abi, c.abi_tags@) && shares_tag(plat, c.platform_tags@)),
        wheel_compatible(filename, c) ==> (wheel_tags(filename) matches Some((py, abi, plat)) && shares_tag(
            abi,
            c.abi_tags@,
        )),
{
    match wheel_tags(filename) {
        None => {},
        Some((py, abi, plat)) => {
            lemma_meets_shares(py, c.python_tags@);
            lemma_meets_shares(abi, c.abi_tags@);
            lemma_meets_shares(plat, c.platform_tags@);
        },
    }
}

proof fn lemma_meets_shares(tags: Seq<Seq<char>>, accepted: Seq<String>)
    ensures
        meets(tags, string_set(accepted)) <==> shares_tag(tags, accepted),
{
    if meets(tags, string_set(accepted)) {
        let i = choose|i: int| 0 <= i < tags.len() && string_set(accepted).contains(tags[i]);
        assert(string_set(accepted).contains(tags[i]));
        let j = choose|j: int| 0 <= j < accepted.len() && accepted[j]@ == tags[i];
        assert(tags[i] == accepted[j]@);
    }
    if shares_tag(tags, accepted) {
        let (i, j) = choose|i: int, j: int| 0 <= i < tags.len() && 0 <= j < accepted.len() && #[trigger] tags[i]
            == #[trigger] accepted[j]@;
        assert(string_set(accepted).contains(tags[i]));
    }
}

fn any_accepted(tags: &Vec<Vec<char>>, accepted: &Vec<String>) -> (b: bool)
    ensures
        b == meets(seqs_of(tags@), string_set(accepted@)),
{
    let mut i: usize = 0;
    while i < tags.len()
        invariant
            i <= tags@.len(),
            forall|j: int| 0 <= j < i ==> !string_set(accepted@).contains(#[trigger] tags@[j]@),
        decreases tags.len() - i,
    {
        if contains_string(accepted, tags[i].as_slice()) {
            proof {
                assert(seqs_of(tags@)[i as int] == tags@[i as int]@);
            }
            return true;
        }
        i = i + 1;
    }
    proof {
        assert forall|j: int| 0 <= j < seqs_of(tags@).len() implies !string_set(accepted@).contains(
            #[trigger] seqs_of(tags@)[j],
        ) by {
            assert(seqs_of(tags@)[j] == tags@[j]@);
        }
    }
    false
}

/// Whether a wheel's name carries tags the interpreter accepts.
pub fn wheel_tag_compatible(filename: &str, compatibility: &PythonWheelCompatibility) -> (b: bool)
    ensures
        b == wheel_compatible(filename@, *compatibility),
{
    let c = chars_of(filename);
    let whl = chars_of(".whl");
    if !ends_with_chars(c.as_slice(), whl.as_slice()) {
        return false;
    }
    let stem = slice_of(c.as_slice(), 0, c.len() - whl.len());
    let p = split_chars(stem.as_slice(), '-');
    proof {
        reveal_strlit(".whl");
        assert(stem@ =~= c@.take(c@.len() - 4));
    }
    let n = p.len();
    if n < 4 {
        return false;
    }
    let py = split_chars(p[n - 3].as_slice(), '.');
    let abi = split_chars(p[n - 2].as_slice(), '.');
    let plat = split_chars(p[n - 1].as_slice(), '.');
    proof {
        assert(seqs_of(p@)[n - 3] == p@[n - 3]@);
        assert(seqs_of(p@)[n - 2] == p@[n - 2]@);
        assert(seqs_of(p@)[n - 1] == p@[n - 1]@);
    }
    any_accepted(&py, &compatibility.python_tags) && any_accepted(&abi, &compatibility.abi_tags)
        && any_accepted(&plat, &compatibility.platform_tags)
}


// ---------------------------------------------------------------------------
// The interpreter's own tags
// ---------------------------------------------------------------------------

/// The macOS major version the tags reach: the first `.` part of the
/// reported version where that is a number of at least 11, else 15.
pub open spec fn mac_major(mac_version: Seq<char>) -> u64 {
    match u64_text(split_char(mac_version, '.')[0]) {
        Some(m) => if m >= 11 {
            m
        } else {
            15
        },
        None => 15,
    }
}

pub open spec fn ten_tag(m: nat, arch: Seq<char>) -> Seq<char> {
    "macosx_10_"@ + decimal_u64(m) + "_"@ + arch
}

pub open spec fn major_tag(m: nat, arch: Seq<char>) -> Seq<char> {
    "macosx_"@ + decimal_u64(m) + "_0_"@ + arch
}

/// The tags of macOS 10.`m` for a machine.
pub open spec fn ten_tags_at(t: Seq<char>, m: nat, machine: Seq<char>) -> bool {
    ||| t == ten_tag(m, "universal2"@)
    ||| machine == "x86_64"@ && (t == ten_tag(m, "x86_64"@) || t == ten_tag(m, "intel"@))
}

/// The tags of macOS `m`.0 for a machine.
pub open spec fn major_tags_at(t: Seq<char>, m: nat, machine: Seq<char>) -> bool {
    ||| t == major_tag(m, "universal2"@)
    ||| (machine == "arm64"@ || machine == "aarch64"@) && t == major_tag(m, "arm64"@)
    ||| machine == "x86_64"@ && t == major_tag(m, "x86_64"@)
}

pub open spec fn ten_upto(k: nat, machine: Seq<char>) -> Set<Seq<char>> {
    Set::new(|t: Seq<char>| exists|m: nat| m < k && #[trigger] ten_tags_at(t, m, machine))
}

pub open spec fn major_upto(k: nat, machine: Seq<char>) -> Set<Seq<char>> {
    Set::new(|t: Seq<char>| exists|m: nat| 11 <= m < k && #[trigger] major_tags_at(t, m, machine))
}

/// The macOS platform tags a macOS interpreter also accepts: those of
/// 10.0 to 10.16 and of 11.0 up to its own major version, for universal
/// builds and for its machine; none off macOS.
pub open spec fn mac_tags(platform: Seq<char>, machine: Seq<char>, mac_version: Seq<char>) -> Set<
    Seq<char>,
> {
    if !starts_with(platform, "macosx_"@) {
        Set::empty()
    } else {
        Set::new(
            |t: Seq<char>|
                (exists|m: nat| m <= 16 && #[trigger] ten_tags_at(t, m, machine)) || (exists|m: nat|
                    11 <= m <= mac_major(mac_version) && #[trigger] major_tags_at(t, m, machine)),
        )
    }
}

fn tag_text(head: &str, m: u64, middle: &str, arch: &str) -> (out: Vec<char>)
    ensures
        out@ == head@ + decimal_u64(m as nat) + middle@ + arch@,
{
    let h = chars_of(head);
    let d = decimal_chars(m);
    let mid = chars_of(middle);
    let a = chars_of(arch);
    let x = concat_chars(h.as_slice(), d.as_slice());
    let y = concat_chars(x.as_slice(), mid.as_slice());
    concat_chars(y.as_slice(), a.as_slice())
}

proof fn lemma_ten_step(k: nat, machine: Seq<char>, added: Set<Seq<char>>)
    requires
        forall|t: Seq<char>| added.contains(t) == ten_tags_at(t, k, machine),
    ensures
        ten_upto(k + 1, machine) == ten_upto(k, machine).union(added),
{
    assert forall|t: Seq<char>| ten_upto(k + 1, machine).contains(t) == ten_upto(k, machine).union(
        added,
    ).contains(t) by {
        if ten_upto(k + 1, machine).contains(t) {
            let m = choose|m: nat| m < k + 1 && #[trigger] ten_tags_at(t, m, machine);
            if m < k {
                assert(ten_upto(k, machine).contains(t));
            } else {
                assert(added.contains(t));
            }
        }
        if added.contains(t) {
            assert(ten_tags_at(t, k, machine));
        }
        if ten_upto(k, machine).contains(t) {
            let m = choose|m: nat| m < k && #[trigger] ten_tags_at(t, m, machine);
            assert(ten_tags_at(t, m, machine));
        }
    }
    assert(ten_upto(k + 1, machine) =~= ten_upto(k, machine).union(added));
}

proof fn lemma_major_step(k: nat, machine: Seq<char>, added: Set<Seq<char>>)
    requires
        11 <= k,
        forall|t: Seq<char>| added.contains(t) == major_tags_at(t, k, machine),
    ensures
        major_upto(k + 1, machine) == major_upto(k, machine).union(added),
{
    assert forall|t: Seq<char>| major_upto(k + 1, machine).contains(t) == major_upto(
        k,
        machine,
    ).union(added).contains(t) by {
        if major_upto(k + 1, machine).contains(t) {
            let m = choose|m: nat| 11 <= m < k + 1 && #[trigger] major_tags_at(t, m, machine);
            if m < k {
                assert(major_upto(k, machine).contains(t));
            } else {
                assert(added.contains(t));
            }
        }
        if added.contains(t) {
            assert(major_tags_at(t, k, machine));
        }
        if major_upto(k, machine).contains(t) {
            let m = choose|m: nat| 11 <= m < k && #[trigger] major_tags_at(t, m, machine);
            assert(major_tags_at(t, m, machine));
        }
    }
    assert(major_upto(k + 1, machine) =~= major_upto(k, machine).union(added));
}

fn mac_major_of(mac_version: &[char]) -> (r: u64)
    ensures
        r == mac_major(mac_version@),
        r >= 11,
{
    let pieces = split_chars(mac_version, '.');
    proof {
        lemma_split_char_nonempty(mac_version@, '.');
        assert(seqs_of(pieces@)[0] == pieces@[0]@);
    }
    match parse_u64_text(pieces[0].as_slice()) {
        Some(m) => if m >= 11 {
            m
        } else {
            15
        },
        None => 15,
    }
}

/// The macOS platform tags an interpreter on `platform` and `machine`
/// accepts.
pub fn macos_platform_tags(platform: &str, machine: &str, mac_version: &str) -> (r: Vec<String>)
    ensures
        distinct_strings(r@),
        string_set(r@) == mac_tags(platform@, machine@, mac_version@),
{
    let mut tags: Vec<String> = Vec::new();
    let pc = chars_of(platform);
    let prefix = chars_of("macosx_");
    if !starts_with_chars(pc.as_slice(), prefix.as_slice()) {
        assert(string_set(tags@) =~= Set::<Seq<char>>::empty());
        return tags;
    }
    let mc = chars_of(machine);
    let x86 = chars_of("x86_64");
    let arm = chars_of("arm64");
    let aarch = chars_of("aarch64");
    let is_x86 = eq_chars(mc.as_slice(), x86.as_slice());
    let is_arm = eq_chars(mc.as_slice(), arm.as_slice()) || eq_chars(mc.as_slice(), aarch.as_slice());
    let vc = chars_of(mac_version);
    let top = mac_major_of(vc.as_slice());
    let ghost mach = machine@;
    assert(string_set(tags@) =~= ten_upto(0, mach));
    let mut minor: u64 = 0;
    while minor <= 16
        invariant
            minor <= 17,
            mach == machine@,
            is_x86 == (mach == "x86_64"@),
            distinct_strings(tags@),
            string_set(tags@) == ten_upto(minor as nat, mach),
        decreases 17 - minor,
    {
        let ghost before = string_set(tags@);
        let u = tag_text("macosx_10_", minor, "_", "universal2");
        insert_distinct(&mut tags, u.as_slice());
        if is_x86 {
            let a = tag_text("macosx_10_", minor, "_", "x86_64");
            insert_distinct(&mut tags, a.as_slice());
            let b = tag_text("macosx_10_", minor, "_", "intel");
            insert_distinct(&mut tags, b.as_slice());
            proof {
                let added = set![u@, a@, b@];
                assert forall|t: Seq<char>| added.contains(t) == ten_tags_at(t, minor as nat, mach) by {}
                assert(string_set(tags@) =~= before.union(added));
                lemma_ten_step(minor as nat, mach, added);
            }
        } else {
            proof {
                let added = set![u@];
                assert forall|t: Seq<char>| added.contains(t) == ten_tags_at(t, minor as nat, mach) by {}
                assert(string_set(tags@) =~= before.union(added));
                lemma_ten_step(minor as nat, mach, added);
            }
        }
        minor = minor + 1;
    }
    let ghost tens = ten_upto(17, mach);
    assert(major_upto(11, mach) =~= Set::<Seq<char>>::empty());
    assert(string_set(tags@) =~= tens.union(major_upto(11, mach)));
    let mut major: u64 = 11;
    let mut finished = false;
    while !finished
        invariant
            11 <= major <= top,
            mach == machine@,
            is_x86 == (mach == "x86_64"@),
            is_arm == (mach == "arm64"@ || mach == "aarch64"@),
            tens == ten_upto(17, mach),
            distinct_strings(tags@),
            !finished ==> string_set(tags@) == tens.union(major_upto(major as nat, mach)),
            finished ==> string_set(tags@) == tens.union(major_upto(top as nat + 1, mach)),
        decreases (top - major) as int + if finished {
            0int
        } else {
            1int
        },
    {
        let ghost before = string_set(tags@);
        let u = tag_text("macosx_", major, "_0_", "universal2");
        insert_distinct(&mut tags, u.as_slice());
        let ghost mid = string_set(tags@);
        if is_arm {
            let a = tag_text("macosx_", major, "_0_", "arm64");
            insert_distinct(&mut tags, a.as_slice());
        }
        let ghost mid2 = string_set(tags@);
        if is_x86 {
            let b = tag_text("macosx_", major, "_0_", "x86_64");
            insert_distinct(&mut tags, b.as_slice());
        }
        proof {
            let added = Set::new(|t: Seq<char>| major_tags_at(t, major as nat, mach));
            assert forall|t: Seq<char>| string_set(tags@).contains(t) == before.union(added).contains(
                t,
            ) by {
                if t == major_tag(major as nat, "universal2"@) {
                    assert(mid.contains(t));
                }
            }
            assert(string_set(tags@) =~= before.union(added));
            lemma_major_step(major as nat, mach, added);
            assert(tens.union(major_upto(major as nat, mach)).union(added) =~= tens.union(
                major_upto(major as nat + 1, mach),
            ));
        }
        if major == top {
            finished = true;
        } else {
            major = major + 1;
        }
    }
    proof {
        let target = mac_tags(platform@, machine@, mac_version@);
        assert forall|t: Seq<char>| string_set(tags@).contains(t) == target.contains(t) by {
            if ten_upto(17, mach).contains(t) {
                let m = choose|m: nat| m < 17 && #[trigger] ten_tags_at(t, m, mach);
                assert(ten_tags_at(t, m, mach));
            }
            if major_upto(top as nat + 1, mach).contains(t) {
                let m = choose|m: nat| 11 <= m < top as nat + 1 && #[trigger] major_tags_at(t, m, mach);
                assert(major_tags_at(t, m, mach));
            }
            if exists|m: nat| m <= 16 && #[trigger] ten_tags_at(t, m, mach) {
                let m = choose|m: nat| m <= 16 && #[trigger] ten_tags_at(t, m, mach);
                assert(ten_upto(17, mach).contains(t));
            }
            if exists|m: nat| 11 <= m <= mac_major(mac_version@) && #[trigger] major_tags_at(t, m, mach) {
                let m = choose|m: nat| 11 <= m <= mac_major(mac_version@) && #[trigger] major_tags_at(t, m, mach);
                assert(major_upto(top as nat + 1, mach).contains(t));
            }
        }
        assert(string_set(tags@) =~= target);
    }
    tags
}

/// A text without its `-` characters.
pub open spec fn without_dashes(s: Seq<char>) -> Seq<char>
    decreases s.len(),
{
    if s.len() == 0 {
        s
    } else if s.last() == '-' {
        without_dashes(s.drop_last())
    } else {
        without_dashes(s.drop_last()).push(s.last())
    }
}

fn without_dashes_chars(s: &[char]) -> (out: Vec<char>)
    ensures
        out@ == without_dashes(s@),
{
    let mut out: Vec<char> = Vec::new();
    let mut i: usize = 0;
    assert(s@.take(0) =~= Seq::<char>::empty());
    while i < s.len()
        invariant
            i <= s@.len(),
            out@ == without_dashes(s@.take(i as int)),
        decreases s.len() - i,
    {
        proof {
            assert(s@.take(i + 1).drop_last() =~= s@.take(i as int));
            assert(s@.take(i + 1).last() == s@[i as int]);
        }
        if s[i] != '-' {
            out.push(s[i]);
        }
        i = i + 1;
    }
    assert(s@.take(s@.len() as int) =~= s@);
    out
}

/// The tag a `cpython-…` cache tag stands for: `cp` and the rest of it
/// without `-`; none for other cache tags.
pub open spec fn cache_tags(cache_tag: Seq<char>) -> Set<Seq<char>> {
    if starts_with(cache_tag, "cpython-"@) {
        set!["cp"@ + without_dashes(cache_tag.skip("cpython-"@.len() as int))]
    } else {
        Set::empty()
    }
}

pub open spec fn cp_tag(major: u64, minor: u64) -> Seq<char> {
    "cp"@ + decimal_u64(major as nat) + decimal_u64(minor as nat)
}

pub open spec fn py_tags(major: u64, minor: u64) -> Set<Seq<char>> {
    set!["py"@ + decimal_u64(major as nat), "py"@ + decimal_u64(major as nat) + decimal_u64(minor as nat)]
}

/// The CPython tag, for CPython only.
pub open spec fn cpython_tags(implementation: Seq<char>, major: u64, minor: u64) -> Set<Seq<char>> {
    if implementation == "cpython"@ {
        set![cp_tag(major, minor)]
    } else {
        Set::empty()
    }
}

/// The python tags an interpreter reporting these values accepts.
pub open spec fn interpreter_pythons(
    major: u64,
    minor: u64,
    implementation: Seq<char>,
    cache_tag: Seq<char>,
) -> Set<Seq<char>> {
    py_tags(major, minor).union(cpython_tags(implementation, major, minor)).union(
        cache_tags(cache_tag),
    )
}

/// The ABI tags an interpreter reporting these values accepts.
pub open spec fn interpreter_abis(
    major: u64,
    minor: u64,
    implementation: Seq<char>,
    cache_tag: Seq<char>,
) -> Set<Seq<char>> {
    set!["none"@, "abi3"@].union(cpython_tags(implementation, major, minor)).union(
        cache_tags(cache_tag),
    )
}

/// The platform tags an interpreter on `platform` accepts.
pub open spec fn interpreter_platforms(
    platform: Seq<char>,
    machine: Seq<char>,
    mac_version: Seq<char>,
) -> Set<Seq<char>> {
    let own = if platform.len() > 0 {
        set!["any"@, platform]
    } else {
        set!["any"@]
    };
    own.union(mac_tags(platform, machine, mac_version))
}

fn text_chars(head: &str, tail: &[char]) -> (out: Vec<char>)
    ensures
        out@ == head@ + tail@,
{
    let h = chars_of(head);
    concat_chars(h.as_slice(), tail)
}

/// Adds each of `more` to a list of distinct strings.
fn extend_distinct(values: &mut Vec<String>, more: &Vec<String>)
    requires
        distinct_strings(old(values)@),
    ensures
        distinct_strings(final(values)@),
        string_set(final(values)@) == string_set(old(values)@).union(string_set(more@)),
{
    let ghost start = string_set(values@);
    let mut i: usize = 0;
    assert(string_set(more@.take(0)) =~= Set::<Seq<char>>::empty());
    assert(string_set(values@) =~= start.union(string_set(more@.take(0))));
    while i < more.len()
        invariant
            i <= more@.len(),
            distinct_strings(values@),
            string_set(values@) == start.union(string_set(more@.take(i as int))),
        decreases more.len() - i,
    {
        let c = chars_of(more[i].as_str());
        insert_distinct(values, c.as_slice());
        proof {
            let t = more@.take(i + 1);
            assert forall|x: Seq<char>| string_set(t).contains(x) == string_set(more@.take(i as int)).insert(
                more@[i as int]@,
            ).contains(x) by {
                if string_set(t).contains(x) {
                    let k = choose|k: int| 0 <= k < t.len() && t[k]@ == x;
                    if k < i {
                        assert(more@.take(i as int)[k] == t[k]);
                    }
                }
                if string_set(more@.take(i as int)).contains(x) {
                    let k = choose|k: int| 0 <= k < i && more@.take(i as int)[k]@ == x;
                    assert(t[k] == more@.take(i as int)[k]);
                }
                if x == more@[i as int]@ {
                    assert(t[i as int] == more@[i as int]);
                }
            }
            assert(string_set(t) =~= string_set(more@.take(i as int)).insert(more@[i as int]@));
            assert(string_set(values@) =~= start.union(string_set(t)));
        }
        i = i + 1;
    }
    assert(more@.take(more@.len() as int) =~= more@);
}

/// The platform names of a list, each made a tag.
pub open spec fn platform_tags_of(names: Seq<String>) -> Set<Seq<char>> {
    Set::new(|t: Seq<char>| exists|i: int| 0 <= i < names.len() && t == wheel_platform(names[i]@))
}

/// Adds each of `names`, made a tag, to a list of distinct strings.
fn extend_platform_tags(values: &mut Vec<String>, names: &[String])
    requires
        distinct_strings(old(values)@),
    ensures
        distinct_strings(final(values)@),
        string_set(final(values)@) == string_set(old(values)@).union(platform_tags_of(names@)),
{
    let ghost start = string_set(values@);
    let mut i: usize = 0;
    assert(platform_tags_of(names@.take(0)) =~= Set::<Seq<char>>::empty());
    assert(string_set(values@) =~= start.union(platform_tags_of(names@.take(0))));
    while i < names.len()
        invariant
            i <= names@.len(),
            distinct_strings(values@),
            string_set(values@) == start.union(platform_tags_of(names@.take(i as int))),
        decreases names.len() - i,
    {
        let c = chars_of(names[i].as_str());
        let t = wheel_platform_chars(c.as_slice());
        insert_distinct(values, t.as_slice());
        proof {
            let n = names@.take(i + 1);
            let p = names@.take(i as int);
            assert forall|x: Seq<char>| platform_tags_of(n).contains(x) == platform_tags_of(p).insert(
                wheel_platform(names@[i as int]@),
            ).contains(x) by {
                if platform_tags_of(n).contains(x) {
                    let k = choose|k: int| 0 <= k < n.len() && x == wheel_platform(n[k]@);
                    if k < i {
                        assert(p[k] == n[k]);
                    }
                }
                if platform_tags_of(p).contains(x) {
                    let k = choose|k: int| 0 <= k < p.len() && x == wheel_platform(p[k]@);
                    assert(n[k] == p[k]);
                }
                if x == wheel_platform(names@[i as int]@) {
                    assert(n[i as int] == names@[i as int]);
                }
            }
            assert(platform_tags_of(n) =~= platform_tags_of(p).insert(wheel_platform(names@[i as int]@)));
            assert(string_set(values@) =~= start.union(platform_tags_of(n)));
        }
        i = i + 1;
    }
    assert(names@.take(names@.len() as int) =~= names@);
}

/// A list holding one string.
fn single(text: &[char]) -> (r: Vec<String>)
    ensures
        distinct_strings(r@),
        string_set(r@) == set![text@],
{
    let mut r: Vec<String> = Vec::new();
    insert_distinct(&mut r, text);
    assert(string_set(r@) =~= Set::<Seq<char>>::empty().insert(text@));
    r
}

/// Whether an optional text is present, by its view.
pub open spec fn str_opt(o: Option<&str>) -> Option<Seq<char>> {
    match o {
        Some(s) => Some(s@),
        None => None,
    }
}

/// The major and minor version targeted: the given version where it
/// reads as one, else the running interpreter's, else 3.0.
pub open spec fn target_major_minor(
    python_version: Option<Seq<char>>,
    current_python: Option<Seq<char>>,
) -> (u64, u64) {
    let given = match python_version {
        Some(v) => target_python_version(v),
        None => None,
    };
    match given {
        Some(p) => p,
        None => match current_python {
            Some(v) => match target_python_version(v) {
                Some(p) => p,
                None => (3, 0),
            },
            None => (3, 0),
        },
    }
}

/// Reading the targeted version does not cut a character in two: the
/// given version, and the running interpreter's where the given one does
/// not read as a version.
pub open spec fn target_readable(
    python_version: Option<Seq<char>>,
    current_python: Option<Seq<char>>,
) -> bool {
    &&& python_version matches Some(v) ==> !target_version_splits_char(v)
    &&& (match python_version {
        Some(v) => target_python_version(v) is None,
        None => true,
    }) && current_python is Some ==> !target_version_splits_char(current_python->0)
}

/// The tags a target interpreter accepts where any target is given: python
/// tags for the targeted version and implementation (CPython unless one is
/// given); `none`, `abi3`, and the given ABIs, or without them the CPython
/// tag (for CPython) or the running interpreter's ABIs; `any`, and the given
/// platforms, or without them the running interpreter's.  Nothing when no
/// target is given.
pub open spec fn target_compatibility(
    python_version: Option<Seq<char>>,
    implementation: Option<Seq<char>>,
    abis: Seq<String>,
    platforms: Seq<String>,
    current: Option<PythonWheelCompatibility>,
    current_python: Option<Seq<char>>,
) -> Option<(Set<Seq<char>>, Set<Seq<char>>, Set<Seq<char>>)> {
    if python_version is None && implementation is None && abis.len() == 0 && platforms.len() == 0 {
        None
    } else {
        let (major, minor) = target_major_minor(python_version, current_python);
        let imp = match implementation {
            Some(i) => implementation_tag(i),
            None => "cpython"@,
        };
        let pythons = py_tags(major, minor).union(cpython_tags(imp, major, minor));
        let abi_extra = if abis.len() == 0 {
            if imp == "cpython"@ {
                set![cp_tag(major, minor)]
            } else {
                match current {
                    Some(c) => c.abis(),
                    None => Set::empty(),
                }
            }
        } else {
            platform_tags_of(abis)
        };
        let platform_extra = if platforms.len() == 0 {
            match current {
                Some(c) => c.platforms(),
                None => Set::empty(),
            }
        } else {
            platform_tags_of(platforms)
        };
        Some(
            (
                pythons,
                set!["none"@, "abi3"@].union(abi_extra),
                set!["any"@].union(platform_extra),
            ),
        )
    }
}

impl PythonWheelCompatibility {
    /// The tags an interpreter reporting these values accepts.
    pub fn new(
        major: u64,
        minor: u64,
        implementation: &str,
        cache_tag: &str,
        platform: &str,
        machine: &str,
        mac_version: &str,
    ) -> (r: Self)
        ensures
            r.wf(),
            r.pythons() == interpreter_pythons(major, minor, implementation@, cache_tag@),
            r.abis() == interpreter_abis(major, minor, implementation@, cache_tag@),
            r.platforms() == interpreter_platforms(platform@, machine@, mac_version@),
    {
        let dmaj = decimal_chars(major);
        let dmin = decimal_chars(minor);
        let both = concat_chars(dmaj.as_slice(), dmin.as_slice());
        let py_major = text_chars("py", dmaj.as_slice());
        let py_both = text_chars("py", both.as_slice());
        proof {
            assert(py_both@ =~= "py"@ + decimal_u64(major as nat) + decimal_u64(minor as nat));
        }
        let mut python_tags = single(py_major.as_slice());
        insert_distinct(&mut python_tags, py_both.as_slice());
        let none = chars_of("none");
        let abi3 = chars_of("abi3");
        let mut abi_tags = single(none.as_slice());
        insert_distinct(&mut abi_tags, abi3.as_slice());
        proof {
            assert(string_set(python_tags@) =~= py_tags(major, minor));
            assert(string_set(abi_tags@) =~= set!["none"@, "abi3"@]);
        }
        let ic = chars_of(implementation);
        let cpython = chars_of("cpython");
        if eq_chars(ic.as_slice(), cpython.as_slice()) {
            let cp = text_chars("cp", both.as_slice());
            assert(cp@ =~= cp_tag(major, minor));
            insert_distinct(&mut python_tags, cp.as_slice());
            insert_distinct(&mut abi_tags, cp.as_slice());
        }
        proof {
            assert(string_set(python_tags@) =~= py_tags(major, minor).union(
                cpython_tags(implementation@, major, minor),
            ));
            assert(string_set(abi_tags@) =~= set!["none"@, "abi3"@].union(
                cpython_tags(implementation@, major, minor),
            ));
        }
        let ghost py_before = string_set(python_tags@);
        let ghost abi_before = string_set(abi_tags@);
        let cc = chars_of(cache_tag);
        let prefix = chars_of("cpython-");
        if starts_with_chars(cc.as_slice(), prefix.as_slice()) {
            let rest = suffix_from(cc.as_slice(), prefix.len());
            let bare = without_dashes_chars(rest.as_slice());
            let tag = text_chars("cp", bare.as_slice());
            insert_distinct(&mut python_tags, tag.as_slice());
            insert_distinct(&mut abi_tags, tag.as_slice());
        }
        proof {
            assert(string_set(python_tags@) =~= py_before.union(cache_tags(cache_tag@)));
            assert(string_set(abi_tags@) =~= abi_before.union(cache_tags(cache_tag@)));
        }
        let any = chars_of("any");
        let mut platform_tags = single(any.as_slice());
        let pc = chars_of(platform);
        if pc.len() > 0 {
            insert_distinct(&mut platform_tags, pc.as_slice());
        }
        let ghost own = string_set(platform_tags@);
        proof {
            if platform@.len() > 0 {
                assert(own =~= set!["any"@, platform@]);
            } else {
                assert(own =~= set!["any"@]);
            }
        }
        let mac = macos_platform_tags(platform, machine, mac_version);
        extend_distinct(&mut platform_tags, &mac);
        PythonWheelCompatibility { python_tags, abi_tags, platform_tags }
    }

    /// The tags a target interpreter accepts, where the user names any part
    /// of a target; `current` and `current_python` describe the running
    /// interpreter, as far as it could be asked.
    pub fn from_target_options(
        python_version: Option<&str>,
        implementation: Option<&str>,
        abis: &[String],
        platforms: &[String],
        current: Option<&PythonWheelCompatibility>,
        current_python: Option<&str>,
    ) -> (r: Option<Self>)
        requires
            target_readable(str_opt(python_version), str_opt(current_python)),
        ensures
            match target_compatibility(
                str_opt(python_version),
                str_opt(implementation),
                abis@,
                platforms@,
                match current {
                    Some(c) => Some(*c),
                    None => None,
                },
                str_opt(current_python),
            ) {
                None => r is None,
                Some((p, a, f)) => r matches Some(c) && c.wf() && c.pythons() == p && c.abis() == a
                    && c.platforms() == f,
            },
    {
        if python_version.is_none() && implementation.is_none() && abis.len() == 0
            && platforms.len() == 0 {
            return None;
        }
        let given = match python_version {
            Some(v) => parse_target_python_version(v),
            None => None,
        };
        let (major, minor) = match given {
            Some(p) => p,
            None => match current_python {
                Some(v) => match parse_target_python_version(v) {
                    Some(p) => p,
                    None => (3, 0),
                },
                None => (3, 0),
            },
        };
        let imp = match implementation {
            Some(i) => normalize_python_implementation_tag(i),
            None => string_from_chars(chars_of("cpython").as_slice()),
        };
        let ic = chars_of(imp.as_str());
        let cpython = chars_of("cpython");
        let is_cpython = eq_chars(ic.as_slice(), cpython.as_slice());
        let dmaj = decimal_chars(major);
        let dmin = decimal_chars(minor);
        let both = concat_chars(dmaj.as_slice(), dmin.as_slice());
        let py_major = text_chars("py", dmaj.as_slice());
        let py_both = text_chars("py", both.as_slice());
        let cp = text_chars("cp", both.as_slice());
        proof {
            assert(py_both@ =~= "py"@ + decimal_u64(major as nat) + decimal_u64(minor as nat));
            assert(cp@ =~= cp_tag(major, minor));
        }
        let mut python_tags = single(py_major.as_slice());
        insert_distinct(&mut python_tags, py_both.as_slice());
        if is_cpython {
            insert_distinct(&mut python_tags, cp.as_slice());
        }
        proof {
            assert(string_set(python_tags@) =~= py_tags(major, minor).union(
                cpython_tags(imp@, major, minor),
            ));
        }
        let none = chars_of("none");
        let abi3 = chars_of("abi3");
        let mut abi_tags = single(none.as_slice());
        insert_distinct(&mut abi_tags, abi3.as_slice());
        let ghost abi_base = string_set(abi_tags@);
        proof {
            assert(abi_base =~= set!["none"@, "abi3"@]);
        }
        if abis.len() == 0 {
            if is_cpython {
                insert_distinct(&mut abi_tags, cp.as_slice());
                proof {
                    assert(string_set(abi_tags@) =~= abi_base.union(set![cp@]));
                }
            } else {
                match current {
                    Some(c) => extend_distinct(&mut abi_tags, &c.abi_tags),
                    None => {
                        assert(string_set(abi_tags@) =~= abi_base.union(Set::empty()));
                    },
                }
            }
        } else {
            extend_platform_tags(&mut abi_tags, abis);
        }
        let any = chars_of("any");
        let mut platform_tags = single(any.as_slice());
        let ghost platform_base = string_set(platform_tags@);
        if platforms.len() == 0 {
            match current {
                Some(c) => extend_distinct(&mut platform_tags, &c.platform_tags),
                None => {
                    assert(string_set(platform_tags@) =~= platform_base.union(Set::empty()));
                },
            }
        } else {
            extend_platform_tags(&mut platform_tags, platforms);
        }
        Some(PythonWheelCompatibility { python_tags, abi_tags, platform_tags })
    }
}

// ---------------------------------------------------------------------------
// Release files
// ---------------------------------------------------------------------------

/// The digests the index gives for a file.
#[derive(Clone, Debug, PartialEq, Eq)]
pub struct PypiDigests {
    pub sha256: String,
}

/// A file of a PyPI release.
#[derive(Clone, Debug, PartialEq, Eq)]
pub struct PypiFile {
    pub filename: String,
    pub packagetype: String,
    pub url: String,
    pub digests: PypiDigests,
    pub requires_python: Option<String>,
}

/// An optional interpreter description, by value.
pub open spec fn compat_opt(o: Option<&PythonWheelCompatibility>) -> Option<PythonWheelCompatibility> {
    match o {
        Some(c) => Some(*c),
        None => None,
    }
}

/// Whether a file may run on the target: its `requires_python` admits the
/// target version (where both are known), and a wheel carries tags that
/// the target accepts (or, without a target, the running interpreter;
/// any wheel where neither is known).  `None` where checking the version
/// would fail.
pub open spec fn python_compatible(
    file: PypiFile,
    target_python: Option<Seq<char>>,
    wheel: Option<PythonWheelCompatibility>,
    current: Option<PythonWheelCompatibility>,
) -> Option<bool> {
    let version_ok = match (target_python, file.requires_python) {
        (Some(t), Some(r)) => version_satisfies(t, r@),
        _ => Some(true),
    };
    match version_ok {
        None => None,
        Some(false) => Some(false),
        Some(true) => if file.packagetype@ != "bdist_wheel"@ {
            Some(true)
        } else {
            match wheel {
                Some(c) => Some(wheel_compatible(file.filename@, c)),
                None => match current {
                    Some(c) => Some(wheel_compatible(file.filename@, c)),
                    None => Some(true),
                },
            }
        },
    }
}

fn text_is(s: &String, lit: &str) -> (b: bool)
    ensures
        b == (s@ == lit@),
{
    let a = chars_of(s.as_str());
    let b = chars_of(lit);
    eq_chars(a.as_slice(), b.as_slice())
}

/// Whether a file may run on the target.
pub fn pypi_file_python_compatible(
    file: &PypiFile,
    target_python: Option<&str>,
    wheel_compatibility: Option<&PythonWheelCompatibility>,
    current: Option<&PythonWheelCompatibility>,
) -> (b: bool)
    requires
        python_compatible(*file, str_opt(target_python), compat_opt(wheel_compatibility), compat_opt(current)) is Some,
    ensures
        Some(b) == python_compatible(
            *file,
            str_opt(target_python),
            compat_opt(wheel_compatibility),
            compat_opt(current),
        ),
{
    let version_ok = match (target_python, &file.requires_python) {
        (Some(t), Some(r)) => pypi_version_satisfies(t, r.as_str()),
        _ => true,
    };
    if !version_ok {
        return false;
    }
    if !text_is(&file.packagetype, "bdist_wheel") {
        return true;
    }
    match wheel_compatibility {
        Some(c) => wheel_tag_compatible(file.filename.as_str(), c),
        None => match current {
            Some(c) => wheel_tag_compatible(file.filename.as_str(), c),
            None => true,
        },
    }
}

/// Whether a file is of the kind a binary mode asks for: a wheel for
/// `Binary`, a source archive for `Source`, any file without a mode.
pub open spec fn mode_matches(file: PypiFile, mode: Option<PypiBinaryMode>) -> bool {
    match mode {
        None => true,
        Some(PypiBinaryMode::Binary) => file.packagetype@ == "bdist_wheel"@,
        Some(PypiBinaryMode::Source) => file.packagetype@ == "sdist"@ && sdist_filename(
            file.filename@,
        ),
    }
}

pub fn pypi_file_matches_binary_mode(file: &PypiFile, binary_mode: Option<PypiBinaryMode>) -> (b: bool)
    ensures
        b == mode_matches(*file, binary_mode),
{
    match binary_mode {
        None => true,
        Some(PypiBinaryMode::Binary) => text_is(&file.packagetype, "bdist_wheel"),
        Some(PypiBinaryMode::Source) => text_is(&file.packagetype, "sdist")
            && is_python_sdist_filename(file.filename.as_str()),
    }
}

/// A file runs on the target and is of the kind the mode asks for; `None`
/// where checking the version would fail.
pub open spec fn file_admitted(
    file: PypiFile,
    target_python: Option<Seq<char>>,
    wheel: Option<PythonWheelCompatibility>,
    current: Option<PythonWheelCompatibility>,
    mode: Option<PypiBinaryMode>,
) -> Option<bool> {
    match python_compatible(file, target_python, wheel, current) {
        None => None,
        Some(b) => Some(b && mode_matches(file, mode)),
    }
}

pub fn pypi_file_compatible_for_binary_mode(
    file: &PypiFile,
    target_python: Option<&str>,
    wheel_compatibility: Option<&PythonWheelCompatibility>,
    current: Option<&PythonWheelCompatibility>,
    binary_mode: Option<PypiBinaryMode>,
) -> (b: bool)
    requires
        file_admitted(*file, str_opt(target_python), compat_opt(wheel_compatibility), compat_opt(current), binary_mode) is Some,
    ensures
        Some(b) == file_admitted(
            *file,
            str_opt(target_python),
            compat_opt(wheel_compatibility),
            compat_opt(current),
            binary_mode,
        ),
{
    pypi_file_python_compatible(file, target_python, wheel_compatibility, current)
        && pypi_file_matches_binary_mode(file, binary_mode)
}

/// Whether a file is admitted, or `None` where its `Requires-Python`
/// cannot be read against the target.
pub fn pypi_file_admitted_checked(
    file: &PypiFile,
    target_python: Option<&str>,
    wheel_compatibility: Option<&PythonWheelCompatibility>,
    current: Option<&PythonWheelCompatibility>,
    binary_mode: Option<PypiBinaryMode>,
) -> (r: Option<bool>)
    ensures
        r == file_admitted(
            *file,
            str_opt(target_python),
            compat_opt(wheel_compatibility),
            compat_opt(current),
            binary_mode,
        ),
{
    match (target_python, &file.requires_python) {
        (Some(t), Some(req)) => {
            if pypi_version_satisfies_checked(t, req.as_str()).is_none() {
                return None;
            }
        },
        _ => {},
    }
    Some(pypi_file_compatible_for_binary_mode(file, target_python, wheel_compatibility, current, binary_mode))
}

/// The kind of file each pass of the choice looks for: a source archive
/// (pass 0), a pure-Python wheel (pass 1), any wheel (pass 2).
pub open spec fn pass_kind(file: PypiFile, pass: int) -> bool {
    if pass == 0 {
        file.packagetype@ == "sdist"@ && sdist_filename(file.filename@)
    } else if pass == 1 {
        file.packagetype@ == "bdist_wheel"@ && first_occurrence(file.filename@, "py3-none-any"@) is Some
    } else {
        file.packagetype@ == "bdist_wheel"@
    }
}

/// The first file from index `k` on that is admitted and of the pass's
/// kind: `Some(None)` where there is none, `None` where checking a file
/// before it would fail.
pub open spec fn scan(
    files: Seq<PypiFile>,
    k: nat,
    pass: int,
    target_python: Option<Seq<char>>,
    wheel: Option<PythonWheelCompatibility>,
    current: Option<PythonWheelCompatibility>,
    mode: Option<PypiBinaryMode>,
) -> Option<Option<int>>
    decreases files.len() - k,
{
    if k >= files.len() {
        Some(None)
    } else {
        match file_admitted(files[k as int], target_python, wheel, current, mode) {
            None => None,
            Some(ok) => if ok && pass_kind(files[k as int], pass) {
                Some(Some(k as int))
            } else {
                scan(files, k + 1, pass, target_python, wheel, current, mode)
            },
        }
    }
}

/// The file to install: for `Source`, the first admitted source archive;
/// otherwise the first admitted pure-Python wheel, else the first admitted
/// wheel, else (unless `Binary`) the first admitted source archive.
/// `Some(None)` where no file qualifies; `None` where the choice would fail
/// on a file's version check.
pub open spec fn chosen_file(
    files: Seq<PypiFile>,
    target_python: Option<Seq<char>>,
    wheel: Option<PythonWheelCompatibility>,
    current: Option<PythonWheelCompatibility>,
    mode: Option<PypiBinaryMode>,
) -> Option<Option<int>> {
    if mode == Some(PypiBinaryMode::Source) {
        scan(files, 0, 0, target_python, wheel, current, mode)
    } else {
        match scan(files, 0, 1, target_python, wheel, current, mode) {
            Some(None) => match scan(files, 0, 2, target_python, wheel, current, mode) {
                Some(None) => if mode == Some(PypiBinaryMode::Binary) {
                    Some(None)
                } else {
                    scan(files, 0, 0, target_python, wheel, current, mode)
                },
                other => other,
            },
            other => other,
        }
    }
}

proof fn lemma_scan_found(
    files: Seq<PypiFile>,
    k: nat,
    pass: int,
    target_python: Option<Seq<char>>,
    wheel: Option<PythonWheelCompatibility>,
    current: Option<PythonWheelCompatibility>,
    mode: Option<PypiBinaryMode>,
)
    ensures
        scan(files, k, pass, target_python, wheel, current, mode) matches Some(Some(i)) ==> k <= i
            < files.len(),
    decreases files.len() - k,
{
    if k < files.len() {
        lemma_scan_found(files, k + 1, pass, target_python, wheel, current, mode);
    }
}

fn file_of_kind(file: &PypiFile, pass: u8) -> (b: bool)
    ensures
        b == pass_kind(*file, pass as int),
{
    if pass == 0 {
        text_is(&file.packagetype, "sdist") && is_python_sdist_filename(file.filename.as_str())
    } else if pass == 1 {
        let name = chars_of(file.filename.as_str());
        let pure = chars_of("py3-none-any");
        text_is(&file.packagetype, "bdist_wheel") && find_chars(name.as_slice(), pure.as_slice()).is_some()
    } else {
        text_is(&file.packagetype, "bdist_wheel")
    }
}

fn scan_files(
    files: &Vec<PypiFile>,
    pass: u8,
    target_python: Option<&str>,
    wheel_compatibility: Option<&PythonWheelCompatibility>,
    current: Option<&PythonWheelCompatibility>,
    binary_mode: Option<PypiBinaryMode>,
) -> (r: Option<usize>)
    requires
        scan(files@, 0, pass as int, str_opt(target_python), compat_opt(wheel_compatibility), compat_opt(current), binary_mode) is Some,
    ensures
        match scan(
            files@,
            0,
            pass as int,
            str_opt(target_python),
            compat_opt(wheel_compatibility),
            compat_opt(current),
            binary_mode,
        ) {
            Some(Some(i)) => r matches Some(j) && j as int == i,
            _ => r is None,
        },
{
    let ghost t = str_opt(target_python);
    let ghost w = compat_opt(wheel_compatibility);
    let ghost c = compat_opt(current);
    let mut i: usize = 0;
    while i < files.len()
        invariant
            i <= files@.len(),
            scan(files@, 0, pass as int, t, w, c, binary_mode) == scan(
                files@,
                i as nat,
                pass as int,
                t,
                w,
                c,
                binary_mode,
            ),
            scan(files@, 0, pass as int, t, w, c, binary_mode) is Some,
            t == str_opt(target_python),
            w == compat_opt(wheel_compatibility),
            c == compat_opt(current),
        decreases files.len() - i,
    {
        let admitted = pypi_file_compatible_for_binary_mode(
            &files[i],
            target_python,
            wheel_compatibility,
            current,
            binary_mode,
        );
        if admitted && file_of_kind(&files[i], pass) {
            return Some(i);
        }
        i = i + 1;
    }
    None
}

/// The file of a release to install (see `chosen_file`); `current`
/// describes the running interpreter, as far as it could be asked.
pub fn choose_pypi_file<'a>(
    files: &'a Vec<PypiFile>,
    target_python: Option<&str>,
    wheel_compatibility: Option<&PythonWheelCompatibility>,
    current: Option<&PythonWheelCompatibility>,
    binary_mode: Option<PypiBinaryMode>,
) -> (r: Option<&'a PypiFile>)
    requires
        chosen_file(files@, str_opt(target_python), compat_opt(wheel_compatibility), compat_opt(current), binary_mode) is Some,
    ensures
        match chosen_file(
            files@,
            str_opt(target_python),
            compat_opt(wheel_compatibility),
            compat_opt(current),
            binary_mode,
        ) {
            Some(Some(i)) => r matches Some(f) && 0 <= i < files@.len() && *f == files@[i],
            _ => r is None,
        },
{
    let ghost t = str_opt(target_python);
    let ghost w = compat_opt(wheel_compatibility);
    let ghost c = compat_opt(current);
    proof {
        lemma_scan_found(files@, 0, 0, t, w, c, binary_mode);
        lemma_scan_found(files@, 0, 1, t, w, c, binary_mode);
        lemma_scan_found(files@, 0, 2, t, w, c, binary_mode);
    }
    let source_only = match binary_mode {
        Some(PypiBinaryMode::Source) => true,
        _ => false,
    };
    let binary_only = match binary_mode {
        Some(PypiBinaryMode::Binary) => true,
        _ => false,
    };
    if source_only {
        return match scan_files(files, 0, target_python, wheel_compatibility, current, binary_mode) {
            Some(i) => Some(&files[i]),
            None => None,
        };
    }
    match scan_files(files, 1, target_python, wheel_compatibility, current, binary_mode) {
        Some(i) => Some(&files[i]),
        None => match scan_files(files, 2, target_python, wheel_compatibility, current, binary_mode) {
            Some(i) => Some(&files[i]),
            None => {
                if binary_only {
                    None
                } else {
                    match scan_files(files, 0, target_python, wheel_compatibility, current, binary_mode) {
                        Some(i) => Some(&files[i]),
                        None => None,
                    }
                }
            },
        },
    }
}


// ---------------------------------------------------------------------------
// Names of release files
// ---------------------------------------------------------------------------

/// The normalized project name and the version of a wheel's name: its
/// first two `-` separated parts before `.whl`, where it has at least five.
pub open spec fn wheel_name_and_version(filename: Seq<char>) -> Option<(Seq<char>, Seq<char>)> {
    if !ends_with(filename, ".whl"@) {
        None
    } else {
        let p = split_char(filename.take(filename.len() - ".whl"@.len()), '-');
        if p.len() < 5 {
            None
        } else {
            Some((normalized_name(p[0]), p[1]))
        }
    }
}

pub fn parse_wheel_name_and_version(filename: &str) -> (r: Option<(String, String)>)
    ensures
        match wheel_name_and_version(filename@) {
            Some((n, v)) => r matches Some((a, b)) && a@ == n && b@ == v,
            None => r is None,
        },
{
    let c = chars_of(filename);
    let whl = chars_of(".whl");
    if !ends_with_chars(c.as_slice(), whl.as_slice()) {
        return None;
    }
    let stem = slice_of(c.as_slice(), 0, c.len() - whl.len());
    proof {
        assert(stem@ =~= c@.take(c@.len() - ".whl"@.len()));
    }
    let p = split_chars(stem.as_slice(), '-');
    if p.len() < 5 {
        return None;
    }
    proof {
        assert(seqs_of(p@)[0] == p@[0]@);
        assert(seqs_of(p@)[1] == p@[1]@);
    }
    let name = normalize_pypi_name(p[0].as_slice());
    Some((string_from_chars(name.as_slice()), string_from_chars(p[1].as_slice())))
}

/// A source archive's name without its `.tar.gz`, `.tgz` or `.zip`
/// ending (tried in that order, case mattering).
pub open spec fn sdist_stem(filename: Seq<char>) -> Option<Seq<char>> {
    if ends_with(filename, ".tar.gz"@) {
        Some(filename.take(filename.len() - ".tar.gz"@.len()))
    } else if ends_with(filename, ".tgz"@) {
        Some(filename.take(filename.len() - ".tgz"@.len()))
    } else if ends_with(filename, ".zip"@) {
        Some(filename.take(filename.len() - ".zip"@.len()))
    } else {
        None
    }
}

/// The normalized project name and the version of a source archive's
/// name: the parts before and after its last `-`, both non-empty.
pub open spec fn sdist_name_and_version(filename: Seq<char>) -> Option<(Seq<char>, Seq<char>)> {
    match sdist_stem(filename) {
        None => None,
        Some(stem) => match last_index_of(stem, '-') {
            None => None,
            Some(i) => if i > 0 && i + 1 < stem.len() {
                Some((normalized_name(stem.take(i)), stem.skip(i + 1)))
            } else {
                None
            },
        },
    }
}

fn strip_ending(c: &[char], ending: &str) -> (r: Option<Vec<char>>)
    ensures
        match r {
            Some(s) => ends_with(c@, ending@) && s@ == c@.take(c@.len() - ending@.len()),
            None => !ends_with(c@, ending@),
        },
{
    let e = chars_of(ending);
    if ends_with_chars(c, e.as_slice()) {
        let s = slice_of(c, 0, c.len() - e.len());
        assert(s@ =~= c@.take(c@.len() - ending@.len()));
        Some(s)
    } else {
        None
    }
}

pub fn parse_sdist_name_and_version(filename: &str) -> (r: Option<(String, String)>)
    ensures
        match sdist_name_and_version(filename@) {
            Some((n, v)) => r matches Some((a, b)) && a@ == n && b@ == v,
            None => r is None,
        },
{
    let c = chars_of(filename);
    let stem = match strip_ending(c.as_slice(), ".tar.gz") {
        Some(s) => s,
        None => match strip_ending(c.as_slice(), ".tgz") {
            Some(s) => s,
            None => match strip_ending(c.as_slice(), ".zip") {
                Some(s) => s,
                None => {
                    return None;
                },
            },
        },
    };
    assert(sdist_stem(filename@) == Some(stem@));
    match rfind_char(stem.as_slice(), '-') {
        None => None,
        Some(i) => {
            if i > 0 && i + 1 < stem.len() {
                let name_part = slice_of(stem.as_slice(), 0, i);
                let version = suffix_from(stem.as_slice(), i + 1);
                assert(name_part@ =~= stem@.take(i as int));
                let name = normalize_pypi_name(name_part.as_slice());
                Some((string_from_chars(name.as_slice()), string_from_chars(version.as_slice())))
            } else {
                None
            }
        },
    }
}

// ---------------------------------------------------------------------------
// The target interpreter
// ---------------------------------------------------------------------------

/// The Python version files are checked against: a given target that reads
/// as a version, as `major.minor.0`; else the given target as it is; else
/// the running interpreter's version.
pub open spec fn target_python_text(
    target: Option<Seq<char>>,
    current_python: Option<Seq<char>>,
) -> Option<Seq<char>> {
    match target {
        Some(t) => match target_python_version(t) {
            Some((a, b)) => Some(decimal_u64(a as nat) + "."@ + decimal_u64(b as nat) + ".0"@),
            None => Some(t),
        },
        None => current_python,
    }
}

pub fn pypi_target_python(target: Option<&str>, current_python: Option<&str>) -> (r: Option<String>)
    requires
        target matches Some(t) ==> !target_version_splits_char(t@),
    ensures
        match target_python_text(str_opt(target), str_opt(current_python)) {
            Some(v) => r matches Some(s) && s@ == v,
            None => r is None,
        },
{
    match target {
        Some(t) => match parse_target_python_version(t) {
            Some((a, b)) => {
                let da = decimal_chars(a);
                let db = decimal_chars(b);
                let dot = chars_of(".");
                let tail = chars_of(".0");
                let x = concat_chars(da.as_slice(), dot.as_slice());
                let y = concat_chars(x.as_slice(), db.as_slice());
                let z = concat_chars(y.as_slice(), tail.as_slice());
                Some(string_from_chars(z.as_slice()))
            },
            None => Some(string_from_chars(chars_of(t).as_slice())),
        },
        None => match current_python {
            Some(v) => Some(string_from_chars(chars_of(v).as_slice())),
            None => None,
        },
    }
}

/// The version an interpreter prints: its report trimmed, if anything is
/// left.
pub open spec fn reported_version(report: Seq<char>) -> Option<Seq<char>> {
    if trim(report).len() > 0 {
        Some(trim(report))
    } else {
        None
    }
}

pub fn python_version_from_report(report: &str) -> (r: Option<String>)
    ensures
        match reported_version(report@) {
            Some(v) => r matches Some(s) && s@ == v,
            None => r is None,
        },
{
    let c = chars_of(report);
    let t = trim_chars(c.as_slice());
    if t.len() > 0 {
        Some(string_from_chars(t.as_slice()))
    } else {
        None
    }
}

/// What an interpreter reports of itself, one value a line: major and
/// minor version, implementation, cache tag, platform and machine (made
/// tags), and the macOS version where there is a seventh line.  None
/// where a line is missing or the versions are not numbers.
pub open spec fn interpreter_report(report: Seq<char>) -> Option<
    (u64, u64, Seq<char>, Seq<char>, Seq<char>, Seq<char>, Seq<char>),
> {
    let l = lines(report);
    if l.len() < 6 {
        None
    } else {
        match (u64_text(trim(l[0])), u64_text(trim(l[1]))) {
            (Some(major), Some(minor)) => Some(
                (
                    major,
                    minor,
                    trim(l[2]),
                    trim(l[3]),
                    wheel_platform(trim(l[4])),
                    wheel_platform(trim(l[5])),
                    if l.len() > 6 {
                        trim(l[6])
                    } else {
                        Seq::empty()
                    },
                ),
            ),
            _ => None,
        }
    }
}

/// The tags the interpreter that printed `report` accepts.
pub fn python_wheel_compatibility_from_report(report: &str) -> (r: Option<
    PythonWheelCompatibility,
>)
    ensures
        match interpreter_report(report@) {
            Some((major, minor, implementation, cache_tag, platform, machine, mac)) => r matches Some(
                c,
            ) && c.wf() && c.pythons() == interpreter_pythons(major, minor, implementation, cache_tag)
                && c.abis() == interpreter_abis(major, minor, implementation, cache_tag)
                && c.platforms() == interpreter_platforms(platform, machine, mac),
            None => r is None,
        },
{
    let c = chars_of(report);
    let l = text_lines(c.as_slice());
    if l.len() < 6 {
        return None;
    }
    proof {
        assert(seqs_of(l@)[0] == l@[0]@);
        assert(seqs_of(l@)[1] == l@[1]@);
        assert(seqs_of(l@)[2] == l@[2]@);
        assert(seqs_of(l@)[3] == l@[3]@);
        assert(seqs_of(l@)[4] == l@[4]@);
        assert(seqs_of(l@)[5] == l@[5]@);
    }
    let l0 = trim_chars(l[0].as_slice());
    let l1 = trim_chars(l[1].as_slice());
    let major = match parse_u64_text(l0.as_slice()) {
        Some(v) => v,
        None => {
            return None;
        },
    };
    let minor = match parse_u64_text(l1.as_slice()) {
        Some(v) => v,
        None => {
            return None;
        },
    };
    let implementation = trim_chars(l[2].as_slice());
    let cache_tag = trim_chars(l[3].as_slice());
    let p = trim_chars(l[4].as_slice());
    let platform = wheel_platform_chars(p.as_slice());
    let m = trim_chars(l[5].as_slice());
    let machine = wheel_platform_chars(m.as_slice());
    let mac = if l.len() > 6 {
        proof {
            assert(seqs_of(l@)[6] == l@[6]@);
        }
        trim_chars(l[6].as_slice())
    } else {
        Vec::new()
    };
    assert(l@.len() > 6 || mac@ =~= Seq::<char>::empty());
    let is = string_from_chars(implementation.as_slice());
    let cs = string_from_chars(cache_tag.as_slice());
    let ps = string_from_chars(platform.as_slice());
    let ms = string_from_chars(machine.as_slice());
    let vs = string_from_chars(mac.as_slice());
    Some(
        PythonWheelCompatibility::new(
            major,
            minor,
            is.as_str(),
            cs.as_str(),
            ps.as_str(),
            ms.as_str(),
            vs.as_str(),
        ),
    )
}

/// A copy of a list of strings, by their views.
fn copied_tags(v: &Vec<String>) -> (out: Vec<String>)
    ensures
        string_set(out@) == string_set(v@),
{
    let out = crate::npm_lock::copy_strings(v);
    proof {
        assert forall|x: Seq<char>| string_set(out@).contains(x) == string_set(v@).contains(x) by {
            if string_set(out@).contains(x) {
                let k = choose|k: int| 0 <= k < out@.len() && out@[k]@ == x;
                assert(v@[k]@ == x);
            }
            if string_set(v@).contains(x) {
                let k = choose|k: int| 0 <= k < v@.len() && v@[k]@ == x;
                assert(out@[k]@ == x);
            }
        }
        assert(string_set(out@) =~= string_set(v@));
    }
    out
}

/// The tags the target accepts where any part of a target is given (see
/// `target_compatibility`), else those of the running interpreter as far
/// as it could be asked.
pub fn pypi_wheel_compatibility(
    python_version: Option<&str>,
    implementation: Option<&str>,
    abis: &[String],
    platforms: &[String],
    current: Option<&PythonWheelCompatibility>,
    current_python: Option<&str>,
) -> (r: Option<PythonWheelCompatibility>)
    requires
        target_readable(str_opt(python_version), str_opt(current_python)),
    ensures
        match target_compatibility(
            str_opt(python_version),
            str_opt(implementation),
            abis@,
            platforms@,
            compat_opt(current),
            str_opt(current_python),
        ) {
            Some((p, a, f)) => r matches Some(c) && c.wf() && c.pythons() == p && c.abis() == a
                && c.platforms() == f,
            None => match current {
                Some(c) => r matches Some(x) && x.pythons() == c.pythons() && x.abis() == c.abis()
                    && x.platforms() == c.platforms(),
                None => r is None,
            },
        },
{
    match PythonWheelCompatibility::from_target_options(
        python_version,
        implementation,
        abis,
        platforms,
        current,
        current_python,
    ) {
        Some(c) => Some(c),
        None => match current {
            Some(c) => Some(
                PythonWheelCompatibility {
                    python_tags: copied_tags(&c.python_tags),
                    abi_tags: copied_tags(&c.abi_tags),
                    platform_tags: copied_tags(&c.platform_tags),
                },
            ),
            None => None,
        },
    }
}

} // verus!
