//! The runtime dependencies of an npm package version: its dependencies,
//! optional dependencies and required peers, less the bundled ones, each
//! name and range once; and whether its `os` / `cpu` / `libc` lists allow a
//! platform.
use vstd::prelude::*;
use crate::npm_roster::{insert_text, strictly_ascending, texts_of};
use crate::npm_semver::npm_string_list_allows;
use crate::pypi_listing::{lemma_text_less_strict, lemma_text_less_transitive, text_less, text_less_exec};
use crate::set_map::PinMap;
use crate::text::{chars_of, eq_chars};

verus! {

// ---------------------------------------------------------------------------
// String lists
// ---------------------------------------------------------------------------

/// A manifest field that is one text, a list of texts, or a boolean.
#[derive(Clone, Debug, PartialEq, Eq)]
pub enum NpmStringList {
    One(String),
    Many(Vec<String>),
    Bool(bool),
}

/// The texts of a list: the one text, the texts, none for a boolean.
pub open spec fn list_values(l: NpmStringList) -> Seq<Seq<char>> {
    match l {
        NpmStringList::One(v) => seq![v@],
        NpmStringList::Many(vs) => texts_of(vs@),
        NpmStringList::Bool(_) => Seq::empty(),
    }
}

impl NpmStringList {
    /// The texts of the list.
    pub fn values(&self) -> (r: Vec<String>)
        ensures
            texts_of(r@) == list_values(*self),
    {
        match self {
            NpmStringList::One(v) => {
                let mut r: Vec<String> = Vec::new();
                r.push(v.clone());
                assert(texts_of(r@) =~= seq![v@]);
                r
            },
            NpmStringList::Many(vs) => {
                let mut r: Vec<String> = Vec::new();
                let mut i: usize = 0;
                while i < vs.len()
                    invariant
                        i <= vs@.len(),
                        r@.len() == i,
                        forall|j: int| 0 <= j < i ==> (#[trigger] r@[j])@ == vs@[j]@,
                    decreases vs.len() - i,
                {
                    r.push(vs[i].clone());
                    i = i + 1;
                }
                assert(texts_of(r@) =~= texts_of(vs@));
                r
            },
            NpmStringList::Bool(_) => {
                let r: Vec<String> = Vec::new();
                assert(texts_of(r@) =~= Seq::<Seq<char>>::empty());
                r
            },
        }
    }

    /// The boolean of the list, if it is one.
    pub fn bool_value(&self) -> (r: Option<bool>)
        ensures
            r == (match *self {
                NpmStringList::Bool(b) => Some(b),
                _ => None,
            }),
    {
        match self {
            NpmStringList::Bool(b) => Some(*b),
            _ => None,
        }
    }
}

// ---------------------------------------------------------------------------
// Bundled names
// ---------------------------------------------------------------------------

/// The names of a map's entries.
pub open spec fn entry_names(es: Seq<(String, String)>) -> Seq<Seq<char>> {
    Seq::new(es.len(), |i: int| es[i].0@)
}

/// The names of an optional map.
pub open spec fn opt_names(m: Option<PinMap>) -> Set<Seq<char>> {
    match m {
        Some(m) => entry_names(m.entries@).to_set(),
        None => Set::empty(),
    }
}

/// The bundled dependencies: from `bundleDependencies`, else
/// `bundledDependencies`; `true` bundles every dependency and optional
/// dependency, `false` none, a list its names.
pub open spec fn bundled_names(
    dependencies: Option<PinMap>,
    optional: Option<PinMap>,
    bundle: Option<NpmStringList>,
    bundled: Option<NpmStringList>,
) -> Set<Seq<char>> {
    let field = if bundle is Some {
        bundle
    } else {
        bundled
    };
    match field {
        Some(NpmStringList::Bool(true)) => opt_names(dependencies) + opt_names(optional),
        Some(NpmStringList::Bool(false)) => Set::empty(),
        Some(l) => list_values(l).to_set(),
        None => Set::empty(),
    }
}

proof fn lemma_push_to_set(s: Seq<Seq<char>>, x: Seq<char>)
    ensures
        s.push(x).to_set() == s.to_set().insert(x),
{
    let q = s.push(x);
    assert forall|y: Seq<char>| #[trigger] q.to_set().contains(y) == s.to_set().insert(x).contains(
        y,
    ) by {
        if q.contains(y) {
            let k = choose|k: int| 0 <= k < q.len() && q[k] == y;
            if k < s.len() {
                assert(s[k] == y);
            }
        }
        if s.contains(y) {
            let k = choose|k: int| 0 <= k < s.len() && s[k] == y;
            assert(q[k] == y);
        }
        if y == x {
            assert(q[s.len() as int] == x);
        }
    }
    assert(q.to_set() =~= s.to_set().insert(x));
}

/// Adds texts to strictly ascending texts, each once.
fn add_texts(out: &mut Vec<String>, items: &Vec<String>)
    requires
        strictly_ascending(texts_of(old(out)@)),
    ensures
        strictly_ascending(texts_of(final(out)@)),
        texts_of(final(out)@).to_set() == texts_of(old(out)@).to_set() + texts_of(items@).to_set(),
{
    let ghost start = texts_of(out@).to_set();
    let ghost its = texts_of(items@);
    let mut i: usize = 0;
    assert(its.take(0).to_set() =~= Set::<Seq<char>>::empty());
    assert(start + its.take(0).to_set() =~= start);
    while i < items.len()
        invariant
            i <= items@.len(),
            its == texts_of(items@),
            strictly_ascending(texts_of(out@)),
            texts_of(out@).to_set() == start + its.take(i as int).to_set(),
        decreases items.len() - i,
    {
        proof {
            assert(its.take(i + 1) =~= its.take(i as int).push(items@[i as int]@));
            lemma_push_to_set(its.take(i as int), items@[i as int]@);
        }
        insert_text(out, items[i].clone());
        proof {
            assert(texts_of(out@).to_set() =~= start + its.take(i + 1).to_set());
        }
        i = i + 1;
    }
    assert(its.take(items@.len() as int) =~= its);
}

fn names_of(m: &PinMap) -> (r: Vec<String>)
    ensures
        texts_of(r@) == entry_names(m.entries@),
{
    let mut r: Vec<String> = Vec::new();
    let mut i: usize = 0;
    while i < m.entries.len()
        invariant
            i <= m.entries@.len(),
            r@.len() == i,
            forall|j: int| 0 <= j < i ==> (#[trigger] r@[j])@ == m.entries@[j].0@,
        decreases m.entries.len() - i,
    {
        r.push(m.entries[i].0.clone());
        i = i + 1;
    }
    assert(texts_of(r@) =~= entry_names(m.entries@));
    r
}

/// The bundled dependency names, sorted, each once.
pub fn npm_bundled_dependency_names(
    dependencies: Option<&PinMap>,
    optional: Option<&PinMap>,
    bundle: Option<&NpmStringList>,
    bundled: Option<&NpmStringList>,
) -> (r: Vec<String>)
    ensures
        strictly_ascending(texts_of(r@)),
        texts_of(r@).to_set() == bundled_names(
            match dependencies {
                Some(m) => Some(*m),
                None => None,
            },
            match optional {
                Some(m) => Some(*m),
                None => None,
            },
            match bundle {
                Some(l) => Some(*l),
                None => None,
            },
            match bundled {
                Some(l) => Some(*l),
                None => None,
            },
        ),
{
    let field = if bundle.is_some() {
        bundle
    } else {
        bundled
    };
    let mut out: Vec<String> = Vec::new();
    assert(texts_of(out@) =~= Seq::<Seq<char>>::empty());
    assert(texts_of(out@).to_set() =~= Set::<Seq<char>>::empty());
    match field {
        None => {},
        Some(l) => match l.bool_value() {
            Some(true) => {
                if let Some(m) = dependencies {
                    let names = names_of(m);
                    add_texts(&mut out, &names);
                }
                if let Some(m) = optional {
                    let names = names_of(m);
                    add_texts(&mut out, &names);
                }
                assert(texts_of(out@).to_set() =~= opt_names(
                    match dependencies {
                        Some(m) => Some(*m),
                        None => None,
                    },
                ) + opt_names(
                    match optional {
                        Some(m) => Some(*m),
                        None => None,
                    },
                ));
            },
            Some(false) => {},
            None => {
                let names = l.values();
                add_texts(&mut out, &names);
                assert(texts_of(out@).to_set() =~= list_values(*l).to_set());
            },
        },
    }
    out
}

fn named(names: &Vec<String>, name: &[char]) -> (b: bool)
    ensures
        b == texts_of(names@).to_set().contains(name@),
{
    let mut i: usize = 0;
    while i < names.len()
        invariant
            i <= names@.len(),
            forall|j: int| 0 <= j < i ==> (#[trigger] names@[j])@ != name@,
        decreases names.len() - i,
    {
        let c = chars_of(names[i].as_str());
        if eq_chars(c.as_slice(), name) {
            assert(texts_of(names@)[i as int] == name@);
            return true;
        }
        i = i + 1;
    }
    proof {
        if texts_of(names@).contains(name@) {
            let k = choose|k: int| 0 <= k < texts_of(names@).len() && texts_of(names@)[k] == name@;
            assert(names@[k]@ == name@);
        }
    }
    false
}

// ---------------------------------------------------------------------------
// Dependencies
// ---------------------------------------------------------------------------

/// A dependency of a package version: name, range, and whether it is
/// optional or a peer.
#[derive(Clone, Debug, PartialEq, Eq)]
pub struct NpmDependency {
    pub name: String,
    pub requirement: String,
    pub optional: bool,
    pub peer: bool,
}

impl View for NpmDependency {
    type V = (Seq<char>, Seq<char>, bool, bool);

    open spec fn view(&self) -> (Seq<char>, Seq<char>, bool, bool) {
        (self.name@, self.requirement@, self.optional, self.peer)
    }
}

/// The views of dependencies.
pub open spec fn deps_view(s: Seq<NpmDependency>) -> Seq<(Seq<char>, Seq<char>, bool, bool)> {
    Seq::new(s.len(), |i: int| s[i]@)
}

/// The entries that are not bundled, as dependencies of the given kind.
pub open spec fn kept_entries(
    es: Seq<(String, String)>,
    bundled: Set<Seq<char>>,
    optional: bool,
    peer: bool,
) -> Seq<(Seq<char>, Seq<char>, bool, bool)>
    decreases es.len(),
{
    if es.len() == 0 {
        Seq::empty()
    } else {
        let rest = kept_entries(es.drop_last(), bundled, optional, peer);
        let (n, r) = es.last();
        if bundled.contains(n@) {
            rest
        } else {
            rest.push((n@, r@, optional, peer))
        }
    }
}

/// Whether the peer is marked optional: the first meta entry for the name
/// says so.
pub open spec fn peer_optional(meta: Seq<(String, bool)>, name: Seq<char>) -> bool
    decreases meta.len(),
{
    if meta.len() == 0 {
        false
    } else if meta[0].0@ == name {
        meta[0].1
    } else {
        peer_optional(meta.drop_first(), name)
    }
}

/// The peers that are not optional.
pub open spec fn required_peers(peers: Seq<(String, String)>, meta: Seq<(String, bool)>) -> Seq<
    (String, String),
>
    decreases peers.len(),
{
    if peers.len() == 0 {
        peers
    } else if peer_optional(meta, peers.last().0@) {
        required_peers(peers.drop_last(), meta)
    } else {
        required_peers(peers.drop_last(), meta).push(peers.last())
    }
}

/// The entries of an optional map.
pub open spec fn opt_entries(m: Option<PinMap>) -> Seq<(String, String)> {
    match m {
        Some(m) => m.entries@,
        None => Seq::empty(),
    }
}

/// Every dependency the fields name before duplicates go: dependencies,
/// optional dependencies, then required peers, all but the bundled ones.
pub open spec fn dependency_candidates(
    dependencies: Option<PinMap>,
    optional: Option<PinMap>,
    peers: Option<PinMap>,
    meta: Seq<(String, bool)>,
    bundled: Set<Seq<char>>,
) -> Seq<(Seq<char>, Seq<char>, bool, bool)> {
    kept_entries(opt_entries(dependencies), bundled, false, false) + kept_entries(
        opt_entries(optional),
        bundled,
        true,
        false,
    ) + kept_entries(required_peers(opt_entries(peers), meta), bundled, false, true)
}

/// Name and range sort before another's.
pub open spec fn pair_less(a: (Seq<char>, Seq<char>, bool, bool), b: (Seq<char>, Seq<char>, bool, bool)) -> bool {
    text_less(a.0, b.0) || (a.0 == b.0 && text_less(a.1, b.1))
}

/// The optional and peer flags of `a` are not above those of `b` (`false`
/// first, optional before peer).
pub open spec fn flags_le(a: (Seq<char>, Seq<char>, bool, bool), b: (Seq<char>, Seq<char>, bool, bool)) -> bool {
    (!a.2 && b.2) || (a.2 == b.2 && (!a.3 || b.3))
}

/// Some entry has the name and range of `x`.
#[verifier::opaque]
pub open spec fn has_pair(
    r: Seq<(Seq<char>, Seq<char>, bool, bool)>,
    x: (Seq<char>, Seq<char>, bool, bool),
) -> bool {
    exists|i: int| 0 <= i < r.len() && r[i].0 == x.0 && r[i].1 == x.1
}

/// `x` is one of the candidates.
#[verifier::opaque]
pub open spec fn among(
    l: Seq<(Seq<char>, Seq<char>, bool, bool)>,
    x: (Seq<char>, Seq<char>, bool, bool),
) -> bool {
    exists|k: int| 0 <= k < l.len() && l[k] == x
}

/// The dependencies are those of the candidates, sorted by name and range,
/// each name and range once, with the lowest flags among the candidates of
/// that name and range.
pub open spec fn dependency_listing(
    r: Seq<(Seq<char>, Seq<char>, bool, bool)>,
    l: Seq<(Seq<char>, Seq<char>, bool, bool)>,
) -> bool {
    &&& forall|i: int, j: int| 0 <= i < j < r.len() ==> pair_less(#[trigger] r[i], #[trigger] r[j])
    &&& forall|k: int| 0 <= k < l.len() ==> has_pair(r, #[trigger] l[k])
    &&& forall|i: int| 0 <= i < r.len() ==> among(l, #[trigger] r[i])
    &&& forall|i: int, k: int|
        0 <= i < r.len() && 0 <= k < l.len() && (#[trigger] r[i]).0 == (#[trigger] l[k]).0 && r[i].1
            == l[k].1 ==> flags_le(r[i], l[k])
}

proof fn lemma_has_pair_intro(
    r: Seq<(Seq<char>, Seq<char>, bool, bool)>,
    x: (Seq<char>, Seq<char>, bool, bool),
    i: int,
)
    requires
        0 <= i < r.len(),
        r[i].0 == x.0 && r[i].1 == x.1,
    ensures
        has_pair(r, x),
{
    reveal(has_pair);
}

proof fn lemma_has_pair_elim(
    r: Seq<(Seq<char>, Seq<char>, bool, bool)>,
    x: (Seq<char>, Seq<char>, bool, bool),
) -> (i: int)
    requires
        has_pair(r, x),
    ensures
        0 <= i < r.len() && r[i].0 == x.0 && r[i].1 == x.1,
{
    reveal(has_pair);
    choose|i: int| 0 <= i < r.len() && r[i].0 == x.0 && r[i].1 == x.1
}

proof fn lemma_among_intro(
    l: Seq<(Seq<char>, Seq<char>, bool, bool)>,
    x: (Seq<char>, Seq<char>, bool, bool),
    k: int,
)
    requires
        0 <= k < l.len(),
        l[k] == x,
    ensures
        among(l, x),
{
    reveal(among);
}

proof fn lemma_among_elim(
    l: Seq<(Seq<char>, Seq<char>, bool, bool)>,
    x: (Seq<char>, Seq<char>, bool, bool),
) -> (k: int)
    requires
        among(l, x),
    ensures
        0 <= k < l.len() && l[k] == x,
{
    reveal(among);
    choose|k: int| 0 <= k < l.len() && l[k] == x
}

proof fn lemma_pair_order(
    a: (Seq<char>, Seq<char>, bool, bool),
    b: (Seq<char>, Seq<char>, bool, bool),
    c: (Seq<char>, Seq<char>, bool, bool),
)
    ensures
        !(pair_less(a, b) && pair_less(b, a)),
        pair_less(a, b) && pair_less(b, c) ==> pair_less(a, c),
        !pair_less(a, b) && !(a.0 == b.0 && a.1 == b.1) ==> pair_less(b, a),
        !pair_less(a, a),
{
    lemma_text_less_strict(a.0, b.0);
    lemma_text_less_strict(a.1, b.1);
    lemma_text_less_strict(b.0, c.0);
    lemma_text_less_strict(a.0, c.0);
    lemma_text_less_strict(a.0, a.0);
    lemma_text_less_strict(a.1, a.1);
    if text_less(a.0, b.0) && text_less(b.0, c.0) {
        lemma_text_less_transitive(a.0, b.0, c.0);
    }
    if text_less(a.1, b.1) && text_less(b.1, c.1) {
        lemma_text_less_transitive(a.1, b.1, c.1);
    }
}

fn pair_before(a: &NpmDependency, b: &NpmDependency) -> (r: bool)
    ensures
        r == pair_less(a@, b@),
{
    let an = chars_of(a.name.as_str());
    let bn = chars_of(b.name.as_str());
    if text_less_exec(an.as_slice(), bn.as_slice()) {
        return true;
    }
    if !eq_chars(an.as_slice(), bn.as_slice()) {
        return false;
    }
    let ar = chars_of(a.requirement.as_str());
    let br = chars_of(b.requirement.as_str());
    text_less_exec(ar.as_slice(), br.as_slice())
}

fn same_pair(a: &NpmDependency, b: &NpmDependency) -> (r: bool)
    ensures
        r == (a@.0 == b@.0 && a@.1 == b@.1),
{
    let an = chars_of(a.name.as_str());
    let bn = chars_of(b.name.as_str());
    let ar = chars_of(a.requirement.as_str());
    let br = chars_of(b.requirement.as_str());
    eq_chars(an.as_slice(), bn.as_slice()) && eq_chars(ar.as_slice(), br.as_slice())
}

/// A pair that sorts before another is not the same pair.
proof fn lemma_pair_less_differs(
    a: (Seq<char>, Seq<char>, bool, bool),
    b: (Seq<char>, Seq<char>, bool, bool),
)
    requires
        pair_less(a, b),
    ensures
        !(a.0 == b.0 && a.1 == b.1),
{
    lemma_text_less_strict(a.0, b.0);
    lemma_text_less_strict(a.1, b.1);
}

/// Keeping a listed entry whose flags are not above the candidate's.
proof fn lemma_keep(
    s: Seq<(Seq<char>, Seq<char>, bool, bool)>,
    l: Seq<(Seq<char>, Seq<char>, bool, bool)>,
    cv: (Seq<char>, Seq<char>, bool, bool),
    p: int,
)
    requires
        dependency_listing(s, l),
        0 <= p < s.len(),
        s[p].0 == cv.0 && s[p].1 == cv.1,
        flags_le(s[p], cv),
    ensures
        dependency_listing(s, l.push(cv)),
{
    let l2 = l.push(cv);
    assert forall|k: int| 0 <= k < l2.len() implies has_pair(s, #[trigger] l2[k]) by {
        if k == l.len() {
            lemma_has_pair_intro(s, l2[k], p);
        } else {
            assert(l2[k] == l[k]);
        }
    }
    assert forall|i: int| 0 <= i < s.len() implies among(l2, #[trigger] s[i]) by {
        let k = lemma_among_elim(l, s[i]);
        lemma_among_intro(l2, s[i], k);
    }
    assert forall|i: int, k: int|
        0 <= i < s.len() && 0 <= k < l2.len() && (#[trigger] s[i]).0 == (#[trigger] l2[k]).0 && s[i].1
            == l2[k].1 implies flags_le(s[i], l2[k]) by {
        if k < l.len() {
            assert(l2[k] == l[k]);
        } else if i < p {
            lemma_pair_less_differs(s[i], s[p]);
        } else if i > p {
            lemma_pair_less_differs(s[p], s[i]);
        }
    }
}

/// Replacing a listed entry by a candidate of the same name and range with
/// flags below.
proof fn lemma_replace(
    s: Seq<(Seq<char>, Seq<char>, bool, bool)>,
    l: Seq<(Seq<char>, Seq<char>, bool, bool)>,
    cv: (Seq<char>, Seq<char>, bool, bool),
    p: int,
)
    requires
        dependency_listing(s, l),
        0 <= p < s.len(),
        s[p].0 == cv.0 && s[p].1 == cv.1,
        flags_le(cv, s[p]),
    ensures
        dependency_listing(s.update(p, cv), l.push(cv)),
{
    let l2 = l.push(cv);
    let r = s.update(p, cv);
    assert forall|i: int, j: int| 0 <= i < j < r.len() implies pair_less(
        #[trigger] r[i],
        #[trigger] r[j],
    ) by {
        assert(pair_less(s[i], s[j]));
    }
    assert forall|k: int| 0 <= k < l2.len() implies has_pair(r, #[trigger] l2[k]) by {
        if k == l.len() {
            lemma_has_pair_intro(r, l2[k], p);
        } else {
            assert(l2[k] == l[k]);
            let i = lemma_has_pair_elim(s, l[k]);
            lemma_has_pair_intro(r, l2[k], i);
        }
    }
    assert forall|i: int| 0 <= i < r.len() implies among(l2, #[trigger] r[i]) by {
        if i != p {
            let k = lemma_among_elim(l, s[i]);
            lemma_among_intro(l2, r[i], k);
        } else {
            lemma_among_intro(l2, r[i], l.len() as int);
        }
    }
    assert forall|i: int, k: int|
        0 <= i < r.len() && 0 <= k < l2.len() && (#[trigger] r[i]).0 == (#[trigger] l2[k]).0 && r[i].1
            == l2[k].1 implies flags_le(r[i], l2[k]) by {
        if i == p {
            if k < l.len() {
                assert(l2[k] == l[k]);
                assert(flags_le(s[p], l[k]));
            }
        } else {
            assert(r[i] == s[i]);
            if k < l.len() {
                assert(l2[k] == l[k]);
            } else if i < p {
                lemma_pair_less_differs(s[i], s[p]);
            } else {
                lemma_pair_less_differs(s[p], s[i]);
            }
        }
    }
}

/// Inserting a candidate whose name and range are not listed at its place.
#[verifier::rlimit(30)]
proof fn lemma_insert(
    s: Seq<(Seq<char>, Seq<char>, bool, bool)>,
    l: Seq<(Seq<char>, Seq<char>, bool, bool)>,
    cv: (Seq<char>, Seq<char>, bool, bool),
    p: int,
)
    requires
        dependency_listing(s, l),
        0 <= p <= s.len(),
        forall|k: int| 0 <= k < p ==> pair_less(#[trigger] s[k], cv),
        p < s.len() ==> pair_less(cv, s[p]),
    ensures
        dependency_listing(s.take(p).push(cv) + s.skip(p), l.push(cv)),
{
    let l2 = l.push(cv);
    let r = s.take(p).push(cv) + s.skip(p);
    assert(r.len() == s.len() + 1);
    assert forall|i: int| 0 <= i < r.len() implies #[trigger] r[i] == (if i < p {
        s[i]
    } else if i == p {
        cv
    } else {
        s[i - 1]
    }) by {}
    assert forall|i: int, j: int| 0 <= i < j < r.len() implies pair_less(
        #[trigger] r[i],
        #[trigger] r[j],
    ) by {
        if i == p && j - 1 > p {
            lemma_pair_order(cv, s[p], s[j - 1]);
        }
    }
    assert forall|k: int| 0 <= k < l2.len() implies has_pair(r, #[trigger] l2[k]) by {
        if k == l.len() {
            lemma_has_pair_intro(r, l2[k], p);
        } else {
            assert(l2[k] == l[k]);
            let i = lemma_has_pair_elim(s, l[k]);
            if i < p {
                lemma_has_pair_intro(r, l2[k], i);
            } else {
                lemma_has_pair_intro(r, l2[k], i + 1);
            }
        }
    }
    assert forall|i: int| 0 <= i < r.len() implies among(l2, #[trigger] r[i]) by {
        if i == p {
            lemma_among_intro(l2, r[i], l.len() as int);
        } else {
            let si = if i < p {
                i
            } else {
                i - 1
            };
            let k = lemma_among_elim(l, s[si]);
            lemma_among_intro(l2, r[i], k);
        }
    }
    assert forall|i: int, k: int|
        0 <= i < r.len() && 0 <= k < l2.len() && (#[trigger] r[i]).0 == (#[trigger] l2[k]).0 && r[i].1
            == l2[k].1 implies flags_le(r[i], l2[k]) by {
        if i == p {
            if k < l.len() {
                assert(l2[k] == l[k]);
                let w = lemma_has_pair_elim(s, l[k]);
                if w < p {
                    lemma_pair_less_differs(s[w], cv);
                } else {
                    if w > p {
                        lemma_pair_order(cv, s[p], s[w]);
                    }
                    lemma_pair_less_differs(cv, s[w]);
                }
            }
        } else {
            let si = if i < p {
                i
            } else {
                i - 1
            };
            assert(r[i] == s[si]);
            if k < l.len() {
                assert(l2[k] == l[k]);
            } else if si < p {
                lemma_pair_less_differs(s[si], cv);
            } else {
                if si > p {
                    lemma_pair_order(cv, s[p], s[si]);
                }
                lemma_pair_less_differs(cv, s[si]);
            }
        }
    }
}

/// Adds a candidate to a listing of the candidates before it.
fn add_dependency(out: &mut Vec<NpmDependency>, c: NpmDependency, Ghost(l): Ghost<Seq<(Seq<char>, Seq<char>, bool, bool)>>)
    requires
        dependency_listing(deps_view(old(out)@), l),
    ensures
        dependency_listing(deps_view(final(out)@), l.push(c@)),
{
    let ghost s = deps_view(out@);
    let ghost cv = c@;
    let mut p: usize = 0;
    let mut stop = false;
    while p < out.len() && !stop
        invariant
            s == deps_view(out@),
            p <= s.len(),
            cv == c@,
            forall|k: int| 0 <= k < p ==> pair_less(#[trigger] s[k], cv),
            stop ==> p < s.len() && !pair_less(s[p as int], cv),
        decreases s.len() - p + (if stop { 0int } else { 1int }),
    {
        if pair_before(&out[p], &c) {
            p = p + 1;
        } else {
            stop = true;
        }
    }
    if p < out.len() && same_pair(&out[p], &c) {
        let keep_old = !(!c.optional && out[p].optional) && !(c.optional == out[p].optional && !c.peer
            && out[p].peer);
        if keep_old {
            proof {
                lemma_keep(s, l, cv, p as int);
            }
            return;
        }
        proof {
            lemma_replace(s, l, cv, p as int);
        }
        out.set(p, c);
        assert(deps_view(out@) =~= s.update(p as int, cv));
        return;
    }
    proof {
        if p < s.len() {
            lemma_pair_order(s[p as int], cv, cv);
        }
        lemma_insert(s, l, cv, p as int);
    }
    out.insert(p, c);
    assert(deps_view(out@) =~= s.take(p as int).push(cv) + s.skip(p as int));
}

fn meta_optional(meta: &Vec<(String, bool)>, name: &[char]) -> (b: bool)
    ensures
        b == peer_optional(meta@, name@),
{
    let mut i: usize = 0;
    assert(meta@.skip(0) =~= meta@);
    while i < meta.len()
        invariant
            i <= meta@.len(),
            peer_optional(meta@, name@) == peer_optional(meta@.skip(i as int), name@),
        decreases meta.len() - i,
    {
        let c = chars_of(meta[i].0.as_str());
        if eq_chars(c.as_slice(), name) {
            assert(meta@.skip(i as int)[0] == meta@[i as int]);
            return meta[i].1;
        }
        assert(meta@.skip(i as int).drop_first() =~= meta@.skip(i + 1));
        i = i + 1;
    }
    false
}

/// Adds the entries of a map (peers only where required) that are not
/// bundled.
fn add_entries(
    out: &mut Vec<NpmDependency>,
    m: &PinMap,
    bundled: &Vec<String>,
    meta: Option<&Vec<(String, bool)>>,
    optional: bool,
    peer: bool,
    Ghost(l): Ghost<Seq<(Seq<char>, Seq<char>, bool, bool)>>,
) -> (added: Ghost<Seq<(Seq<char>, Seq<char>, bool, bool)>>)
    requires
        dependency_listing(deps_view(old(out)@), l),
    ensures
        added@ == kept_entries(
            match meta {
                Some(ms) => required_peers(m.entries@, ms@),
                None => m.entries@,
            },
            texts_of(bundled@).to_set(),
            optional,
            peer,
        ),
        dependency_listing(deps_view(final(out)@), l + added@),
{
    let ghost es = m.entries@;
    let ghost bs = texts_of(bundled@).to_set();
    let ghost mut picked: Seq<(String, String)> = Seq::empty();
    let mut i: usize = 0;
    assert(l + kept_entries(picked, bs, optional, peer) =~= l);
    assert(es.take(0) =~= Seq::<(String, String)>::empty());
    while i < m.entries.len()
        invariant
            i <= es.len(),
            es == m.entries@,
            bs == texts_of(bundled@).to_set(),
            picked == match meta {
                Some(ms) => required_peers(es.take(i as int), ms@),
                None => es.take(i as int),
            },
            dependency_listing(deps_view(out@), l + kept_entries(picked, bs, optional, peer)),
        decreases m.entries.len() - i,
    {
        let name = chars_of(m.entries[i].0.as_str());
        proof {
            let t = es.take(i + 1);
            assert(t.drop_last() =~= es.take(i as int));
            assert(t.last() == es[i as int]);
        }
        let required = match meta {
            Some(ms) => !meta_optional(ms, name.as_slice()),
            None => true,
        };
        if required {
            let ghost before = picked;
            proof {
                picked = picked.push(es[i as int]);
                assert(picked.drop_last() =~= before);
            }
            if !named(bundled, name.as_slice()) {
                let d = NpmDependency {
                    name: m.entries[i].0.clone(),
                    requirement: m.entries[i].1.clone(),
                    optional,
                    peer,
                };
                let ghost pre = l + kept_entries(before, bs, optional, peer);
                add_dependency(out, d, Ghost(pre));
                proof {
                    assert(pre.push(d@) =~= l + kept_entries(picked, bs, optional, peer));
                }
            } else {
                assert(kept_entries(picked, bs, optional, peer) == kept_entries(before, bs, optional, peer));
            }
        }
        i = i + 1;
    }
    assert(es.take(es.len() as int) =~= es);
    Ghost(kept_entries(picked, bs, optional, peer))
}

/// The runtime dependencies of a package version: its dependencies,
/// optional dependencies and required peers that are not bundled, sorted
/// by name and range, each name and range once (the plainest kind kept).
pub fn npm_dependency_fields(
    dependencies: Option<&PinMap>,
    optional_dependencies: Option<&PinMap>,
    bundle_dependencies: Option<&NpmStringList>,
    bundled_dependencies: Option<&NpmStringList>,
    peer_dependencies: Option<&PinMap>,
    peer_dependencies_meta: &Vec<(String, bool)>,
) -> (r: Vec<NpmDependency>)
    ensures
        dependency_listing(
            deps_view(r@),
            dependency_candidates(
                match dependencies {
                    Some(m) => Some(*m),
                    None => None,
                },
                match optional_dependencies {
                    Some(m) => Some(*m),
                    None => None,
                },
                match peer_dependencies {
                    Some(m) => Some(*m),
                    None => None,
                },
                peer_dependencies_meta@,
                bundled_names(
                    match dependencies {
                        Some(m) => Some(*m),
                        None => None,
                    },
                    match optional_dependencies {
                        Some(m) => Some(*m),
                        None => None,
                    },
                    match bundle_dependencies {
                        Some(l) => Some(*l),
                        None => None,
                    },
                    match bundled_dependencies {
                        Some(l) => Some(*l),
                        None => None,
                    },
                ),
            ),
        ),
{
    let bundled = npm_bundled_dependency_names(
        dependencies,
        optional_dependencies,
        bundle_dependencies,
        bundled_dependencies,
    );
    let mut out: Vec<NpmDependency> = Vec::new();
    let ghost none = Seq::<(Seq<char>, Seq<char>, bool, bool)>::empty();
    assert(deps_view(out@) =~= none);
    let empty = PinMap { entries: Vec::new() };
    let deps = match dependencies {
        Some(m) => m,
        None => &empty,
    };
    let Ghost(a) = add_entries(&mut out, deps, &bundled, None, false, false, Ghost(none));
    let opts = match optional_dependencies {
        Some(m) => m,
        None => &empty,
    };
    let Ghost(b) = add_entries(&mut out, opts, &bundled, None, true, false, Ghost(none + a));
    let peers = match peer_dependencies {
        Some(m) => m,
        None => &empty,
    };
    let Ghost(c) = add_entries(
        &mut out,
        peers,
        &bundled,
        Some(peer_dependencies_meta),
        false,
        true,
        Ghost(none + a + b),
    );
    proof {
        assert(empty.entries@ =~= Seq::<(String, String)>::empty());
        assert(required_peers(Seq::<(String, String)>::empty(), peer_dependencies_meta@) =~= Seq::<
            (String, String),
        >::empty());
        assert(none + a + b + c =~= a + b + c);
    }
    out
}

// ---------------------------------------------------------------------------
// Platforms
// ---------------------------------------------------------------------------

/// npm's name of an operating system (Rust's `env::consts::OS`).
pub open spec fn npm_os(os: Seq<char>) -> Seq<char> {
    if os == "macos"@ {
        "darwin"@
    } else if os == "windows"@ {
        "win32"@
    } else {
        os
    }
}

/// npm's name of an operating system.
pub fn current_npm_os(os: &str) -> (r: String)
    ensures
        r@ == npm_os(os@),
{
    let c = chars_of(os);
    if eq_chars(c.as_slice(), chars_of("macos").as_slice()) {
        crate::npm_arguments::fixed("darwin")
    } else if eq_chars(c.as_slice(), chars_of("windows").as_slice()) {
        crate::npm_arguments::fixed("win32")
    } else {
        crate::npm_arguments::fixed(os)
    }
}

/// npm's name of a processor architecture (Rust's `env::consts::ARCH`).
pub open spec fn npm_cpu(arch: Seq<char>) -> Seq<char> {
    if arch == "x86_64"@ {
        "x64"@
    } else if arch == "x86"@ || arch == "i386"@ || arch == "i586"@ || arch == "i686"@ {
        "ia32"@
    } else if arch == "aarch64"@ {
        "arm64"@
    } else if arch == "powerpc64"@ {
        "ppc64"@
    } else {
        arch
    }
}

/// npm's name of a processor architecture.
pub fn current_npm_cpu(arch: &str) -> (r: String)
    ensures
        r@ == npm_cpu(arch@),
{
    let c = chars_of(arch);
    let s = c.as_slice();
    if eq_chars(s, chars_of("x86_64").as_slice()) {
        crate::npm_arguments::fixed("x64")
    } else if eq_chars(s, chars_of("x86").as_slice()) || eq_chars(s, chars_of("i386").as_slice())
        || eq_chars(s, chars_of("i586").as_slice()) || eq_chars(s, chars_of("i686").as_slice()) {
        crate::npm_arguments::fixed("ia32")
    } else if eq_chars(s, chars_of("aarch64").as_slice()) {
        crate::npm_arguments::fixed("arm64")
    } else if eq_chars(s, chars_of("powerpc64").as_slice()) {
        crate::npm_arguments::fixed("ppc64")
    } else {
        crate::npm_arguments::fixed(arch)
    }
}

/// Whether a version's `os`, `cpu` and `libc` lists allow the platform.
pub fn npm_platform_fields(
    os: Option<&NpmStringList>,
    cpu: Option<&NpmStringList>,
    libc: Option<&NpmStringList>,
    current_os: &str,
    current_cpu: &str,
    current_libc: Option<&str>,
) -> (b: bool)
    ensures
        b == (crate::npm_semver::list_allows(
            match os {
                Some(l) => Some(list_values(*l)),
                None => None,
            },
            Some(current_os@),
        ) && crate::npm_semver::list_allows(
            match cpu {
                Some(l) => Some(list_values(*l)),
                None => None,
            },
            Some(current_cpu@),
        ) && crate::npm_semver::list_allows(
            match libc {
                Some(l) => Some(list_values(*l)),
                None => None,
            },
            match current_libc {
                Some(c) => Some(c@),
                None => None,
            },
        )),
{
    let os_values = match os {
        Some(l) => Some(l.values()),
        None => None,
    };
    let cpu_values = match cpu {
        Some(l) => Some(l.values()),
        None => None,
    };
    let libc_values = match libc {
        Some(l) => Some(l.values()),
        None => None,
    };
    proof {
        if os_values is Some {
            assert(crate::policy_guidance::seqs_of_strings(os_values->0@) =~= texts_of(os_values->0@));
        }
        if cpu_values is Some {
            assert(crate::policy_guidance::seqs_of_strings(cpu_values->0@) =~= texts_of(cpu_values->0@));
        }
        if libc_values is Some {
            assert(crate::policy_guidance::seqs_of_strings(libc_values->0@) =~= texts_of(libc_values->0@));
        }
    }
    npm_string_list_allows(os_values.as_ref(), Some(current_os)) && npm_string_list_allows(
        cpu_values.as_ref(),
        Some(current_cpu),
    ) && npm_string_list_allows(libc_values.as_ref(), current_libc)
}

} // verus!
