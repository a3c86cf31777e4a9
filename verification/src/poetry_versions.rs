//! Poetry's version constraints (`^1.2`, `~1.2`, `>=1, <2`) written as PEP
//! 440 requirements.
use vstd::prelude::*;
use crate::npm_semver::{decimal_chars, decimal_u64, parse_u64_text, u64_text};
use crate::text::{
    chars_of, concat_chars, seqs_of, split_char, split_chars, string_from_chars, suffix_from,
    trim, trim_chars,
};

verus! {

/// The numbers among the `.` separated parts of a text, in order; parts
/// that are not numbers are left out.
pub open spec fn numbers_of(parts: Seq<Seq<char>>) -> Seq<u64>
    decreases parts.len(),
{
    if parts.len() == 0 {
        Seq::empty()
    } else {
        let prev = numbers_of(parts.drop_last());
        match u64_text(parts.last()) {
            Some(n) => prev.push(n),
            None => prev,
        }
    }
}

pub open spec fn version_numbers(version: Seq<char>) -> Seq<u64> {
    numbers_of(split_char(version, '.'))
}

/// The numeric parts of a version.
pub fn version_parts(version: &str) -> (r: Vec<u64>)
    ensures
        r@ == version_numbers(version@),
{
    let c = chars_of(version);
    let parts = split_chars(c.as_slice(), '.');
    let ghost ps = seqs_of(parts@);
    let mut out: Vec<u64> = Vec::new();
    let mut i: usize = 0;
    assert(ps.take(0) =~= Seq::<Seq<char>>::empty());
    while i < parts.len()
        invariant
            i <= parts@.len(),
            ps == seqs_of(parts@),
            ps == split_char(version@, '.'),
            out@ == numbers_of(ps.take(i as int)),
        decreases parts.len() - i,
    {
        proof {
            assert(ps.take(i + 1).drop_last() =~= ps.take(i as int));
            assert(ps.take(i + 1).last() == parts@[i as int]@);
        }
        match parse_u64_text(parts[i].as_slice()) {
            Some(n) => out.push(n),
            None => {},
        }
        i = i + 1;
    }
    assert(ps.take(parts@.len() as int) =~= ps);
    out
}

/// Numbers joined by `.`.
pub open spec fn dotted(ns: Seq<u64>) -> Seq<char>
    decreases ns.len(),
{
    if ns.len() == 0 {
        Seq::empty()
    } else if ns.len() == 1 {
        decimal_u64(ns[0] as nat)
    } else {
        dotted(ns.drop_last()) + "."@ + decimal_u64(ns.last() as nat)
    }
}

fn dotted_chars(ns: &Vec<u64>) -> (out: Vec<char>)
    ensures
        out@ == dotted(ns@),
{
    let mut out: Vec<char> = Vec::new();
    let mut i: usize = 0;
    assert(ns@.take(0) =~= Seq::<u64>::empty());
    while i < ns.len()
        invariant
            i <= ns@.len(),
            out@ == dotted(ns@.take(i as int)),
        decreases ns.len() - i,
    {
        proof {
            assert(ns@.take(i + 1).drop_last() =~= ns@.take(i as int));
            assert(ns@.take(i + 1).last() == ns@[i as int]);
        }
        let d = decimal_chars(ns[i]);
        if i == 0 {
            out = d;
            proof {
                assert(ns@.take(1) =~= seq![ns@[0]]);
            }
        } else {
            let ghost before = out@;
            out.push('.');
            let joined = concat_chars(out.as_slice(), d.as_slice());
            out = joined;
            proof {
                reveal_strlit(".");
                assert(out@ =~= before + "."@ + decimal_u64(ns@[i as int] as nat));
            }
        }
        i = i + 1;
    }
    assert(ns@.take(ns@.len() as int) =~= ns@);
    out
}

/// A partial version with its non-numeric parts dropped; none where no part
/// is a number.
pub open spec fn partial_version(version: Seq<char>) -> Option<Seq<char>> {
    let ns = version_numbers(version);
    if ns.len() == 0 {
        None
    } else {
        Some(dotted(ns))
    }
}

pub fn normalize_poetry_partial_version(version: &str) -> (r: Option<String>)
    ensures
        match partial_version(version@) {
            Some(v) => r matches Some(s) && s@ == v,
            None => r is None,
        },
{
    let ns = version_parts(version);
    if ns.len() == 0 {
        None
    } else {
        let d = dotted_chars(&ns);
        Some(string_from_chars(d.as_slice()))
    }
}

/// The bound below which a caret constraint stays: the first non-zero of
/// the first three parts raised by one, the parts after it dropped.
pub open spec fn caret_upper(ns: Seq<u64>) -> Seq<char> {
    if ns.len() >= 3 && ns[0] == 0 && ns[1] == 0 {
        "0.0."@ + decimal_u64((ns[2] + 1) as nat)
    } else if ns.len() >= 2 && ns[0] == 0 {
        "0."@ + decimal_u64((ns[1] + 1) as nat)
    } else {
        decimal_u64((ns[0] + 1) as nat)
    }
}

/// Raising the part that a caret constraint raises stays within `u64`.
pub open spec fn caret_fits(ns: Seq<u64>) -> bool {
    if ns.len() >= 3 && ns[0] == 0 && ns[1] == 0 {
        ns[2] < u64::MAX
    } else if ns.len() >= 2 && ns[0] == 0 {
        ns[1] < u64::MAX
    } else {
        ns.len() == 0 || ns[0] < u64::MAX
    }
}

/// `^base`: at least the base, below the next version that changes its
/// first non-zero part.
pub open spec fn caret_requirement(base: Seq<char>) -> Option<Seq<char>> {
    let ns = version_numbers(base);
    if ns.len() == 0 {
        None
    } else {
        Some(">="@ + dotted(ns) + ",<"@ + caret_upper(ns))
    }
}

fn bound(lower: &Vec<char>, upper: &Vec<char>) -> (r: String)
    ensures
        r@ == ">="@ + lower@ + ",<"@ + upper@,
{
    let a = chars_of(">=");
    let b = chars_of(",<");
    let x = concat_chars(a.as_slice(), lower.as_slice());
    let y = concat_chars(x.as_slice(), b.as_slice());
    let z = concat_chars(y.as_slice(), upper.as_slice());
    string_from_chars(z.as_slice())
}

fn prefixed(head: &str, n: u64) -> (r: Vec<char>)
    ensures
        r@ == head@ + decimal_u64(n as nat),
{
    let h = chars_of(head);
    let d = decimal_chars(n);
    concat_chars(h.as_slice(), d.as_slice())
}

pub fn poetry_caret_requirement(base: &str) -> (r: Option<String>)
    requires
        caret_fits(version_numbers(base@)),
    ensures
        match caret_requirement(base@) {
            Some(v) => r matches Some(s) && s@ == v,
            None => r is None,
        },
{
    let ns = version_parts(base);
    if ns.len() == 0 {
        return None;
    }
    let lower = dotted_chars(&ns);
    let upper = if ns.len() >= 3 && ns[0] == 0 && ns[1] == 0 {
        prefixed("0.0.", ns[2] + 1)
    } else if ns.len() >= 2 && ns[0] == 0 {
        prefixed("0.", ns[1] + 1)
    } else {
        decimal_chars(ns[0] + 1)
    };
    Some(bound(&lower, &upper))
}

/// The bound below which a tilde constraint stays: the major part raised
/// for a bare major version, else the minor part raised.
pub open spec fn tilde_upper(ns: Seq<u64>) -> Seq<char> {
    if ns.len() == 1 {
        decimal_u64((ns[0] + 1) as nat)
    } else {
        decimal_u64(ns[0] as nat) + "."@ + decimal_u64((ns[1] + 1) as nat)
    }
}

pub open spec fn tilde_fits(ns: Seq<u64>) -> bool {
    if ns.len() == 1 {
        ns[0] < u64::MAX
    } else {
        ns.len() == 0 || ns[1] < u64::MAX
    }
}

/// `~base`: at least the base, below the next minor version (the next
/// major one for a bare major version).
pub open spec fn tilde_requirement(base: Seq<char>) -> Option<Seq<char>> {
    let ns = version_numbers(base);
    if ns.len() == 0 {
        None
    } else {
        Some(">="@ + dotted(ns) + ",<"@ + tilde_upper(ns))
    }
}

pub fn poetry_tilde_requirement(base: &str) -> (r: Option<String>)
    requires
        tilde_fits(version_numbers(base@)),
    ensures
        match tilde_requirement(base@) {
            Some(v) => r matches Some(s) && s@ == v,
            None => r is None,
        },
{
    let ns = version_parts(base);
    if ns.len() == 0 {
        return None;
    }
    let lower = dotted_chars(&ns);
    let upper = if ns.len() == 1 {
        decimal_chars(ns[0] + 1)
    } else {
        let head = decimal_chars(ns[0]);
        let tail = prefixed(".", ns[1] + 1);
        concat_chars(head.as_slice(), tail.as_slice())
    };
    Some(bound(&lower, &upper))
}

/// A text without its spaces.
pub open spec fn without_spaces(s: Seq<char>) -> Seq<char>
    decreases s.len(),
{
    if s.len() == 0 {
        s
    } else if s.last() == ' ' {
        without_spaces(s.drop_last())
    } else {
        without_spaces(s.drop_last()).push(s.last())
    }
}

/// The requirement a Poetry version constraint stands for: none for a
/// blank one, the empty requirement for `*`, caret and tilde constraints
/// spelled out, anything else with its spaces removed.
pub open spec fn poetry_requirement(version: Seq<char>) -> Option<Seq<char>> {
    let v = trim(version);
    if v.len() == 0 {
        None
    } else if v == "*"@ {
        Some(Seq::empty())
    } else if v[0] == '^' {
        caret_requirement(v.skip(1))
    } else if v[0] == '~' {
        tilde_requirement(v.skip(1))
    } else {
        Some(without_spaces(v))
    }
}

/// Spelling out a caret or tilde constraint stays within `u64`.
pub open spec fn poetry_bounds_fit(version: Seq<char>) -> bool {
    let v = trim(version);
    &&& v.len() > 0 && v[0] == '^' ==> caret_fits(version_numbers(v.skip(1)))
    &&& v.len() > 0 && v[0] == '~' ==> tilde_fits(version_numbers(v.skip(1)))
}

/// The requirement a Poetry dependency's version constraint stands for.
pub fn poetry_version_requirement(name: &str, version: &str) -> (r: Option<String>)
    requires
        poetry_bounds_fit(version@),
    ensures
        match poetry_requirement(version@) {
            Some(v) => r matches Some(s) && s@ == v,
            None => r is None,
        },
{
    let c = chars_of(version);
    let v = trim_chars(c.as_slice());
    if v.len() == 0 {
        return None;
    }
    let star = chars_of("*");
    if crate::text::eq_chars(v.as_slice(), star.as_slice()) {
        return Some(string_from_chars(Vec::new().as_slice()));
    }
    if v[0] == '^' {
        let base = suffix_from(v.as_slice(), 1);
        let b = string_from_chars(base.as_slice());
        return poetry_caret_requirement(b.as_str());
    }
    if v[0] == '~' {
        let base = suffix_from(v.as_slice(), 1);
        let b = string_from_chars(base.as_slice());
        return poetry_tilde_requirement(b.as_str());
    }
    let mut out: Vec<char> = Vec::new();
    let mut i: usize = 0;
    assert(v@.take(0) =~= Seq::<char>::empty());
    while i < v.len()
        invariant
            i <= v@.len(),
            out@ == without_spaces(v@.take(i as int)),
        decreases v.len() - i,
    {
        proof {
            assert(v@.take(i + 1).drop_last() =~= v@.take(i as int));
            assert(v@.take(i + 1).last() == v@[i as int]);
        }
        if v[i] != ' ' {
            out.push(v[i]);
        }
        i = i + 1;
    }
    assert(v@.take(v@.len() as int) =~= v@);
    Some(string_from_chars(out.as_slice()))
}

} // verus!
