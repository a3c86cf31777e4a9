//! Which dependency lists of a `pyproject.toml` a project takes: the
//! optional dependencies of the extras asked for, and the Poetry groups
//! that are included.
use vstd::prelude::*;
use crate::text::{chars_of, eq_chars, string_from_chars};

verus! {

/// The texts of some strings.
pub open spec fn strs(v: Seq<String>) -> Seq<Seq<char>> {
    Seq::new(v.len(), |i: int| v[i]@)
}

/// Whether a Poetry group is included: the `dev` group with development
/// dependencies, an optional group when its name is among the extras, any
/// other group always.  Names are compared as normalized.
pub open spec fn group_included(name: Seq<char>, optional: bool, extras: Seq<Seq<char>>, include_dev: bool) -> bool {
    if name == "dev"@ {
        include_dev
    } else if optional {
        extras.contains(name)
    } else {
        true
    }
}

/// Whether a Poetry group (with its normalized name) is included.
pub fn poetry_group_included(name: &str, optional: bool, extras: &Vec<String>, include_dev: bool) -> (b: bool)
    ensures
        b == group_included(name@, optional, strs(extras@), include_dev),
{
    proof {
        reveal_strlit("dev");
    }
    let n = chars_of(name);
    if eq_chars(n.as_slice(), chars_of("dev").as_slice()) {
        return include_dev;
    }
    if !optional {
        return true;
    }
    let mut i: usize = 0;
    while i < extras.len()
        invariant
            i <= extras@.len(),
            n@ == name@,
            name@ != "dev"@,
            optional,
            forall|j: int| 0 <= j < i ==> strs(extras@)[j] != name@,
        decreases extras.len() - i,
    {
        if eq_chars(chars_of(extras[i].as_str()).as_slice(), n.as_slice()) {
            assert(strs(extras@)[i as int] == name@);
            assert(strs(extras@).contains(name@));
            return true;
        }
        i = i + 1;
    }
    false
}

/// The dependency list named `extra` among the optional dependencies,
/// the last of that name where several normalize alike.
pub open spec fn extra_list(optional: Seq<(Seq<char>, Seq<Seq<char>>)>, extra: Seq<char>) -> Option<Seq<Seq<char>>>
    decreases optional.len(),
{
    if optional.len() == 0 {
        None
    } else if optional.last().0 == extra {
        Some(optional.last().1)
    } else {
        extra_list(optional.drop_last(), extra)
    }
}

/// The optional dependencies the extras select: for each extra in order,
/// the list of that name, if there is one.
pub open spec fn selected_extras(
    optional: Seq<(Seq<char>, Seq<Seq<char>>)>,
    extras: Seq<Seq<char>>,
) -> Seq<Seq<char>>
    decreases extras.len(),
{
    if extras.len() == 0 {
        Seq::empty()
    } else {
        selected_extras(optional, extras.drop_last()) + match extra_list(optional, extras.last()) {
            Some(l) => l,
            None => Seq::empty(),
        }
    }
}

/// Optional dependency lists as plain values.
pub open spec fn optional_view(v: Seq<(String, Vec<String>)>) -> Seq<(Seq<char>, Seq<Seq<char>>)> {
    Seq::new(v.len(), |i: int| (v[i].0@, strs(v[i].1@)))
}

fn find_extra_list(optional: &Vec<(String, Vec<String>)>, extra: &str) -> (r: Option<usize>)
    ensures
        match r {
            Some(k) => k < optional@.len() && extra_list(optional_view(optional@), extra@) == Some(
                strs(optional@[k as int].1@),
            ),
            None => extra_list(optional_view(optional@), extra@) is None,
        },
{
    let e = chars_of(extra);
    let mut i: usize = optional.len();
    assert(optional_view(optional@).take(i as int) =~= optional_view(optional@));
    while i > 0
        invariant
            i <= optional@.len(),
            e@ == extra@,
            extra_list(optional_view(optional@), extra@) == extra_list(
                optional_view(optional@).take(i as int),
                extra@,
            ),
        decreases i,
    {
        let ghost t = optional_view(optional@).take(i as int);
        proof {
            assert(t.drop_last() =~= optional_view(optional@).take(i - 1));
            assert(t.last() == (optional@[i - 1].0@, strs(optional@[i - 1].1@)));
        }
        if eq_chars(chars_of(optional[i - 1].0.as_str()).as_slice(), e.as_slice()) {
            return Some(i - 1);
        }
        i = i - 1;
    }
    assert(optional_view(optional@).take(0) =~= Seq::<(Seq<char>, Seq<Seq<char>>)>::empty());
    None
}

/// The optional dependencies a project takes for its extras (normalized
/// names, in ascending order, each once).
pub fn project_extra_dependencies(optional: &Vec<(String, Vec<String>)>, extras: &Vec<String>) -> (r: Vec<
    String,
>)
    ensures
        strs(r@) == selected_extras(optional_view(optional@), strs(extras@)),
{
    let mut out: Vec<String> = Vec::new();
    let mut i: usize = 0;
    while i < extras.len()
        invariant
            i <= extras@.len(),
            strs(out@) == selected_extras(optional_view(optional@), strs(extras@).take(i as int)),
        decreases extras.len() - i,
    {
        proof {
            assert(strs(extras@).take(i + 1).drop_last() =~= strs(extras@).take(i as int));
            assert(strs(extras@).take(i + 1).last() == extras@[i as int]@);
        }
        match find_extra_list(optional, extras[i].as_str()) {
            Some(k) => {
                let list = &optional[k].1;
                let mut j: usize = 0;
                let ghost start = strs(out@);
                while j < list.len()
                    invariant
                        j <= list@.len(),
                        strs(out@) == start + strs(list@).take(j as int),
                    decreases list.len() - j,
                {
                    let ghost before = strs(out@);
                    out.push(string_from_chars(chars_of(list[j].as_str()).as_slice()));
                    proof {
                        assert(strs(out@) =~= before.push(list@[j as int]@));
                        assert(strs(list@).take(j + 1) =~= strs(list@).take(j as int).push(list@[j as int]@));
                    }
                    j = j + 1;
                }
                proof {
                    assert(strs(list@).take(list@.len() as int) =~= strs(list@));
                }
            },
            None => {
                proof {
                    assert(strs(out@) =~= strs(out@) + Seq::<Seq<char>>::empty());
                }
            },
        }
        i = i + 1;
    }
    assert(strs(extras@).take(extras@.len() as int) =~= strs(extras@));
    out
}

} // verus!
