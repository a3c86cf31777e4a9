//! pip's `--all-releases` / `--only-final` and `--only-binary` /
//! `--no-binary` options: `:all:`, `:none:` and package names, separated by
//! commas.
use vstd::prelude::*;
use crate::set_map::{distinct_strings, insert_distinct, string_set};
use crate::text::{
    chars_of, eq_chars, lower_char, seqs_of, split_char, split_chars, string_from_chars, trim,
    trim_chars,
};

verus! {

// ---------------------------------------------------------------------------
// Package names
// ---------------------------------------------------------------------------

pub open spec fn name_separator(c: char) -> bool {
    c == '-' || c == '_' || c == '.'
}

/// A package name normalized: ASCII lower case, and each run of `-`, `_`
/// and `.` replaced by a single `-`.
pub open spec fn normalized_name(name: Seq<char>) -> Seq<char>
    decreases name.len(),
{
    if name.len() == 0 {
        Seq::empty()
    } else {
        let prev = normalized_name(name.drop_last());
        if name_separator(name.last()) {
            if prev.len() > 0 && prev.last() == '-' {
                prev
            } else {
                prev.push('-')
            }
        } else {
            prev.push(lower_char(name.last()))
        }
    }
}

/// Normalizes a package name for comparison.
pub fn normalize_pypi_name(name: &[char]) -> (out: Vec<char>)
    ensures
        out@ == normalized_name(name@),
{
    let mut out: Vec<char> = Vec::new();
    let mut i: usize = 0;
    while i < name.len()
        invariant
            i <= name@.len(),
            out@ == normalized_name(name@.take(i as int)),
        decreases name.len() - i,
    {
        proof {
            assert(name@.take(i + 1).drop_last() =~= name@.take(i as int));
            assert(name@.take(i + 1).last() == name@[i as int]);
        }
        let c = name[i];
        if c == '-' || c == '_' || c == '.' {
            if !(out.len() > 0 && out[out.len() - 1] == '-') {
                out.push('-');
            }
        } else {
            out.push(crate::text::to_ascii_lower(c));
        }
        i = i + 1;
    }
    assert(name@.take(name@.len() as int) =~= name@);
    out
}

// ---------------------------------------------------------------------------
// Release controls
// ---------------------------------------------------------------------------

/// Which packages an option applies to: all of them, or those named.
#[derive(Clone, Debug, Default)]
pub struct PypiReleaseControl {
    pub all: bool,
    pub packages: Vec<String>,
}

/// The `--all-releases` and `--only-final` selections.
#[derive(Clone, Debug, Default)]
pub struct PypiReleaseControls {
    pub all_releases: PypiReleaseControl,
    pub only_final: PypiReleaseControl,
}

impl PypiReleaseControl {
    /// The names are distinct.
    pub open spec fn wf(&self) -> bool {
        distinct_strings(self.packages@)
    }

    /// Whether it applies to all packages, and the names it applies to.
    pub open spec fn model(&self) -> (bool, Set<Seq<char>>) {
        (self.all, string_set(self.packages@))
    }

    /// Applies to nothing.
    pub fn new() -> (c: PypiReleaseControl)
        ensures
            c.wf(),
            c.model() == (false, Set::<Seq<char>>::empty()),
    {
        let c = PypiReleaseControl { all: false, packages: Vec::new() };
        assert(string_set(c.packages@) =~= Set::<Seq<char>>::empty());
        c
    }
}

impl PypiReleaseControls {
    pub open spec fn wf(&self) -> bool {
        self.all_releases.wf() && self.only_final.wf()
    }
}

/// What one comma-separated item does to a selection.
pub open spec fn release_item(c: (bool, Set<Seq<char>>), raw: Seq<char>) -> (bool, Set<Seq<char>>) {
    let v = trim(raw);
    if v.len() == 0 {
        c
    } else if v == ":all:"@ {
        (true, c.1)
    } else if v == ":none:"@ {
        (false, Set::empty())
    } else {
        (c.0, c.1.insert(normalized_name(v)))
    }
}

/// The items applied in order.
pub open spec fn release_items(c: (bool, Set<Seq<char>>), items: Seq<Seq<char>>) -> (
    bool,
    Set<Seq<char>>,
)
    decreases items.len(),
{
    if items.len() == 0 {
        c
    } else {
        release_item(release_items(c, items.drop_last()), items.last())
    }
}

/// Applies an option value (`:all:`, `:none:` and names, separated by
/// commas) to a selection.
pub fn apply_pypi_release_control(control: &mut PypiReleaseControl, value: &str)
    requires
        old(control).wf(),
    ensures
        final(control).wf(),
        final(control).model() == release_items(old(control).model(), split_char(value@, ',')),
{
    let text = chars_of(value);
    let items = split_chars(text.as_slice(), ',');
    let all_word = chars_of(":all:");
    let none_word = chars_of(":none:");
    let ghost start = control.model();
    let ghost pieces = seqs_of(items@);
    let mut i: usize = 0;
    while i < items.len()
        invariant
            control.wf(),
            pieces == seqs_of(items@),
            pieces == split_char(value@, ','),
            all_word@ == ":all:"@,
            none_word@ == ":none:"@,
            i <= items@.len(),
            control.model() == release_items(start, pieces.take(i as int)),
        decreases items.len() - i,
    {
        proof {
            assert(pieces.take(i + 1).drop_last() =~= pieces.take(i as int));
            assert(pieces.take(i + 1).last() == items@[i as int]@);
        }
        let v = trim_chars(items[i].as_slice());
        if v.len() == 0 {
        } else if eq_chars(v.as_slice(), all_word.as_slice()) {
            control.all = true;
        } else if eq_chars(v.as_slice(), none_word.as_slice()) {
            control.all = false;
            control.packages = Vec::new();
            assert(string_set(control.packages@) =~= Set::<Seq<char>>::empty());
        } else {
            let name = normalize_pypi_name(v.as_slice());
            insert_distinct(&mut control.packages, name.as_slice());
        }
        i = i + 1;
    }
    assert(pieces.take(items@.len() as int) =~= pieces);
}

/// Adds the selections of `source` to `target`: it applies to all packages
/// when either does, and to the names of both.
pub fn merge_pypi_release_control(target: &mut PypiReleaseControl, source: PypiReleaseControl)
    requires
        old(target).wf(),
        source.wf(),
    ensures
        final(target).wf(),
        final(target).model() == (
            old(target).model().0 || source.model().0,
            old(target).model().1.union(source.model().1),
        ),
{
    target.all = target.all || source.all;
    let ghost before = string_set(target.packages@);
    let mut i: usize = 0;
    while i < source.packages.len()
        invariant
            target.wf(),
            target.all == (old(target).all || source.all),
            i <= source.packages@.len(),
            string_set(target.packages@) == before.union(string_set(source.packages@.take(i as int))),
        decreases source.packages.len() - i,
    {
        let name = chars_of(source.packages[i].as_str());
        insert_distinct(&mut target.packages, name.as_slice());
        proof {
            lemma_string_set_take(source.packages@, i as int);
            assert(string_set(target.packages@) =~= before.union(
                string_set(source.packages@.take(i + 1)),
            ));
        }
        i = i + 1;
    }
    assert(source.packages@.take(source.packages@.len() as int) =~= source.packages@);
}

proof fn lemma_string_set_take(v: Seq<String>, i: int)
    requires
        0 <= i < v.len(),
    ensures
        string_set(v.take(i + 1)) == string_set(v.take(i)).insert(v[i]@),
{
    let a = v.take(i + 1);
    let b = v.take(i);
    assert forall|x: Seq<char>| #[trigger] string_set(a).contains(x) implies string_set(b).insert(
        v[i]@,
    ).contains(x) by {
        let k = choose|k: int| #![trigger a[k]] 0 <= k < a.len() && a[k]@ == x;
        if k < i {
            assert(b[k] == a[k]);
        }
    }
    assert forall|x: Seq<char>| #[trigger] string_set(b).insert(v[i]@).contains(x) implies string_set(
        a,
    ).contains(x) by {
        if x == v[i]@ {
            assert(a[i] == v[i]);
        } else {
            let k = choose|k: int| #![trigger b[k]] 0 <= k < b.len() && b[k]@ == x;
            assert(a[k] == b[k]);
        }
    }
    assert(string_set(a) =~= string_set(b).insert(v[i]@));
}

/// Merges both selections of `source` into those of `target`.
pub fn merge_pypi_release_controls(target: &mut PypiReleaseControls, source: PypiReleaseControls)
    requires
        old(target).wf(),
        source.wf(),
    ensures
        final(target).wf(),
        final(target).all_releases.model() == (
            old(target).all_releases.model().0 || source.all_releases.model().0,
            old(target).all_releases.model().1.union(source.all_releases.model().1),
        ),
        final(target).only_final.model() == (
            old(target).only_final.model().0 || source.only_final.model().0,
            old(target).only_final.model().1.union(source.only_final.model().1),
        ),
{
    merge_pypi_release_control(&mut target.all_releases, source.all_releases);
    merge_pypi_release_control(&mut target.only_final, source.only_final);
}

// ---------------------------------------------------------------------------
// Laws
// ---------------------------------------------------------------------------

/// `:none:` clears a selection, whatever it held.
pub proof fn none_clears_the_selection(c: (bool, Set<Seq<char>>))
    ensures
        release_item(c, ":none:"@) == (false, Set::<Seq<char>>::empty()),
{
    reveal_strlit(":none:");
    reveal_strlit(":all:");
    assert(":none:"@.len() != ":all:"@.len());
    assert(trim(":none:"@) == ":none:"@) by {
        crate::text::lemma_span_bound(":none:"@, crate::text::ws_pred());
        assert(crate::text::span(":none:"@, crate::text::ws_pred()) == 0);
        assert(":none:"@.skip(0) =~= ":none:"@);
        assert(crate::text::rspan(":none:"@, crate::text::ws_pred()) == 0);
        assert(":none:"@.take(6) =~= ":none:"@);
    }
}

/// Whether some item is `:none:`.
pub open spec fn has_reset(items: Seq<Seq<char>>) -> bool
    decreases items.len(),
{
    items.len() > 0 && (has_reset(items.drop_last()) || trim(items.last()) == ":none:"@)
}

/// Whether some item is `:all:`.
pub open spec fn any_all(items: Seq<Seq<char>>) -> bool
    decreases items.len(),
{
    items.len() > 0 && (any_all(items.drop_last()) || trim(items.last()) == ":all:"@)
}

/// The package name an item adds, if it names one.
pub open spec fn item_name(raw: Seq<char>) -> Set<Seq<char>> {
    let v = trim(raw);
    if v.len() == 0 || v == ":all:"@ || v == ":none:"@ {
        Set::empty()
    } else {
        set![normalized_name(v)]
    }
}

/// The package names the items add.
pub open spec fn item_names(items: Seq<Seq<char>>) -> Set<Seq<char>>
    decreases items.len(),
{
    if items.len() == 0 {
        Set::empty()
    } else {
        item_names(items.drop_last()).union(item_name(items.last()))
    }
}

proof fn lemma_words_differ()
    ensures
        ":none:"@.len() == 6,
        ":all:"@.len() == 5,
{
    reveal_strlit(":none:");
    reveal_strlit(":all:");
}

proof fn lemma_items_without_reset(c: (bool, Set<Seq<char>>), items: Seq<Seq<char>>)
    requires
        !has_reset(items),
    ensures
        release_items(c, items) == (c.0 || any_all(items), c.1.union(item_names(items))),
    decreases items.len(),
{
    lemma_words_differ();
    if items.len() == 0 {
        assert(c.1.union(Set::<Seq<char>>::empty()) =~= c.1);
    } else {
        lemma_items_without_reset(c, items.drop_last());
        let prev = release_items(c, items.drop_last());
        let v = trim(items.last());
        if v.len() == 0 || v == ":all:"@ {
            assert(c.1.union(item_names(items)) =~= prev.1);
        } else {
            assert(c.1.union(item_names(items)) =~= prev.1.insert(normalized_name(v)));
        }
    }
}

proof fn lemma_items_with_reset(c: (bool, Set<Seq<char>>), d: (bool, Set<Seq<char>>), items: Seq<Seq<char>>)
    requires
        has_reset(items),
    ensures
        release_items(c, items) == release_items(d, items),
    decreases items.len(),
{
    lemma_words_differ();
    if trim(items.last()) != ":none:"@ {
        lemma_items_with_reset(c, d, items.drop_last());
    }
}

/// Applying the same option value twice selects what applying it once
/// does.
pub proof fn release_values_are_idempotent(c: (bool, Set<Seq<char>>), value: Seq<char>)
    ensures
        release_items(release_items(c, split_char(value, ',')), split_char(value, ','))
            == release_items(c, split_char(value, ',')),
{
    let items = split_char(value, ',');
    let once = release_items(c, items);
    if has_reset(items) {
        lemma_items_with_reset(once, c, items);
    } else {
        lemma_items_without_reset(c, items);
        lemma_items_without_reset(once, items);
        assert(once.1.union(item_names(items)) =~= once.1);
    }
}

/// Normalizing a normalized name changes nothing.
pub proof fn normalized_names_are_stable(name: Seq<char>)
    ensures
        normalized_name(normalized_name(name)) == normalized_name(name),
{
    lemma_normalized_shape(name);
    lemma_normalize_fixed(normalized_name(name));
}

/// A normalized name has no `_` or `.`, no ASCII capital, and no `--`.
pub open spec fn normal_shape(s: Seq<char>) -> bool {
    &&& forall|i: int| 0 <= i < s.len() ==> s[i] != '_' && s[i] != '.' && !crate::text::is_ascii_upper(
        #[trigger] s[i],
    )
    &&& forall|i: int| 0 <= i < s.len() - 1 ==> !(#[trigger] s[i] == '-' && s[i + 1] == '-')
}

proof fn lemma_normalized_shape(name: Seq<char>)
    ensures
        normal_shape(normalized_name(name)),
    decreases name.len(),
{
    if name.len() > 0 {
        lemma_normalized_shape(name.drop_last());
        let prev = normalized_name(name.drop_last());
        let out = normalized_name(name);
        assert forall|i: int| 0 <= i < out.len() implies out[i] != '_' && out[i] != '.'
            && !crate::text::is_ascii_upper(#[trigger] out[i]) by {
            if i < prev.len() {
                assert(out[i] == prev[i]);
            }
        }
        assert forall|i: int| 0 <= i < out.len() - 1 implies !(#[trigger] out[i] == '-' && out[i + 1]
            == '-') by {
            if i + 1 < prev.len() {
                assert(out[i] == prev[i] && out[i + 1] == prev[i + 1]);
            } else {
                assert(i + 1 == prev.len());
                assert(out[i] == prev[i]);
            }
        }
    }
}

proof fn lemma_normalize_fixed(s: Seq<char>)
    requires
        normal_shape(s),
    ensures
        normalized_name(s) == s,
    decreases s.len(),
{
    if s.len() > 0 {
        let p = s.drop_last();
        assert(normal_shape(p)) by {
            assert forall|i: int| 0 <= i < p.len() - 1 implies !(#[trigger] p[i] == '-' && p[i + 1]
                == '-') by {
                assert(p[i] == s[i] && p[i + 1] == s[i + 1]);
            }
            assert forall|i: int| 0 <= i < p.len() implies p[i] != '_' && p[i] != '.'
                && !crate::text::is_ascii_upper(#[trigger] p[i]) by {
                assert(p[i] == s[i]);
            }
        }
        lemma_normalize_fixed(p);
        let c = s.last();
        assert(s[s.len() - 1] == c);
        if name_separator(c) {
            assert(c == '-');
            if p.len() > 0 {
                assert(s[s.len() - 2] == p.last());
                assert(p.last() != '-');
            }
            assert(p.push('-') =~= s);
        } else {
            assert(lower_char(c) == c);
            assert(p.push(c) =~= s);
        }
    }
}

// ---------------------------------------------------------------------------
// Binary selections
// ---------------------------------------------------------------------------

/// Whether a package is installed from wheels only, or built from source.
#[derive(Clone, Copy, Debug, PartialEq, Eq, Structural)]
pub enum PypiBinaryMode {
    Binary,
    Source,
}

/// Package names mapped to a binary mode: the names of each mode, no name
/// in both lists and none twice in one.
pub struct PypiBinaryPackages {
    pub binary: Vec<String>,
    pub source: Vec<String>,
}

impl PypiBinaryPackages {
    pub open spec fn wf(&self) -> bool {
        &&& distinct_strings(self.binary@)
        &&& distinct_strings(self.source@)
        &&& string_set(self.binary@).disjoint(string_set(self.source@))
    }

    /// The mode of each name.
    pub open spec fn view(&self) -> Map<Seq<char>, PypiBinaryMode> {
        Map::new(
            |k: Seq<char>| string_set(self.binary@).contains(k) || string_set(self.source@).contains(k),
            |k: Seq<char>| if string_set(self.binary@).contains(k) {
                PypiBinaryMode::Binary
            } else {
                PypiBinaryMode::Source
            },
        )
    }

    /// No names.
    pub fn new() -> (m: PypiBinaryPackages)
        ensures
            m.wf(),
            m.view() == Map::<Seq<char>, PypiBinaryMode>::empty(),
    {
        let m = PypiBinaryPackages { binary: Vec::new(), source: Vec::new() };
        assert(string_set(m.binary@) =~= Set::<Seq<char>>::empty());
        assert(string_set(m.source@) =~= Set::<Seq<char>>::empty());
        assert(m.view() =~= Map::<Seq<char>, PypiBinaryMode>::empty());
        m
    }

    /// Sets the mode of `name`.
    pub fn insert(&mut self, name: &[char], mode: PypiBinaryMode)
        requires
            old(self).wf(),
        ensures
            final(self).wf(),
            final(self).view() == old(self).view().insert(name@, mode),
    {
        let ghost before = self.view();
        match mode {
            PypiBinaryMode::Binary => {
                remove_string(&mut self.source, name);
                insert_distinct(&mut self.binary, name);
            },
            PypiBinaryMode::Source => {
                remove_string(&mut self.binary, name);
                insert_distinct(&mut self.source, name);
            },
        }
        assert(self.view() =~= before.insert(name@, mode));
    }

    /// Drops every name of mode `mode`.
    pub fn remove_mode(&mut self, mode: PypiBinaryMode)
        requires
            old(self).wf(),
        ensures
            final(self).wf(),
            final(self).view() == old(self).view().restrict(
                old(self).view().dom().filter(|k: Seq<char>| old(self).view()[k] != mode),
            ),
    {
        let ghost before = self.view();
        match mode {
            PypiBinaryMode::Binary => {
                self.binary = Vec::new();
            },
            PypiBinaryMode::Source => {
                self.source = Vec::new();
            },
        }
        assert(string_set(Seq::<String>::empty()) =~= Set::<Seq<char>>::empty());
        assert(self.view() =~= before.restrict(before.dom().filter(|k: Seq<char>| before[k] != mode)));
    }

    /// The mode of `name`, if it has one.
    pub fn get(&self, name: &[char]) -> (r: Option<PypiBinaryMode>)
        requires
            self.wf(),
        ensures
            r == (if self.view().contains_key(name@) {
                Some(self.view()[name@])
            } else {
                None
            }),
    {
        if contains_string(&self.binary, name) {
            Some(PypiBinaryMode::Binary)
        } else if contains_string(&self.source, name) {
            Some(PypiBinaryMode::Source)
        } else {
            None
        }
    }
}

/// Whether `v` is among `values`.
pub fn contains_string(values: &Vec<String>, v: &[char]) -> (b: bool)
    ensures
        b == string_set(values@).contains(v@),
{
    let mut i: usize = 0;
    while i < values.len()
        invariant
            i <= values@.len(),
            forall|j: int| 0 <= j < i ==> values@[j]@ != v@,
        decreases values.len() - i,
    {
        let c = chars_of(values[i].as_str());
        if eq_chars(c.as_slice(), v) {
            return true;
        }
        i = i + 1;
    }
    false
}

/// Removes `v` from a list of distinct strings.
pub fn remove_string(values: &mut Vec<String>, v: &[char])
    requires
        distinct_strings(old(values)@),
    ensures
        distinct_strings(final(values)@),
        string_set(final(values)@) == string_set(old(values)@).remove(v@),
{
    let ghost all = values@;
    let mut out: Vec<String> = Vec::new();
    let mut i: usize = 0;
    while i < values.len()
        invariant
            values@ == all,
            distinct_strings(all),
            i <= all.len(),
            distinct_strings(out@),
            string_set(out@) == string_set(all.take(i as int)).remove(v@),
        decreases values.len() - i,
    {
        proof {
            lemma_string_set_take(all, i as int);
        }
        let c = chars_of(values[i].as_str());
        if !eq_chars(c.as_slice(), v) {
            let ghost prev = out@;
            proof {
                assert(!string_set(all.take(i as int)).contains(all[i as int]@)) by {
                    if string_set(all.take(i as int)).contains(all[i as int]@) {
                        let k = choose|k: int| #![trigger all.take(i as int)[k]] 0 <= k < i && all.take(i as int)[k]@ == all[i as int]@;
                        assert(all[k]@ == all[i as int]@);
                    }
                }
            }
            out.push(string_from_chars(c.as_slice()));
            proof {
                assert(out@[out@.len() - 1]@ == all[i as int]@);
                assert forall|a: int, b: int| 0 <= a < out@.len() && 0 <= b < out@.len() && a != b
                    implies out@[a]@ != out@[b]@ by {
                    if a == out@.len() - 1 || b == out@.len() - 1 {
                        let other = if a == out@.len() - 1 { b } else { a };
                        assert(out@[other] == prev[other]);
                        assert(string_set(prev).contains(prev[other]@));
                    } else {
                        assert(out@[a] == prev[a] && out@[b] == prev[b]);
                    }
                }
                lemma_string_set_push(prev, out@[out@.len() - 1]);
                assert(out@ =~= prev.push(out@[out@.len() - 1]));
                assert(string_set(out@) =~= string_set(all.take(i + 1)).remove(v@));
            }
        } else {
            proof {
                assert(string_set(out@) =~= string_set(all.take(i + 1)).remove(v@));
            }
        }
        i = i + 1;
    }
    assert(all.take(all.len() as int) =~= all);
    *values = out;
}

proof fn lemma_string_set_push(v: Seq<String>, x: String)
    ensures
        string_set(v.push(x)) == string_set(v).insert(x@),
{
    let w = v.push(x);
    assert(w.take(v.len() as int) =~= v);
    lemma_string_set_take(w, v.len() as int);
    assert(w.take(v.len() as int + 1) =~= w);
}

/// The binary selection as a model: the mode for all packages, if any, and
/// the modes of named packages.
pub open spec fn binary_item(
    c: (Option<PypiBinaryMode>, Map<Seq<char>, PypiBinaryMode>),
    mode: PypiBinaryMode,
    raw: Seq<char>,
) -> (Option<PypiBinaryMode>, Map<Seq<char>, PypiBinaryMode>) {
    let v = trim(raw);
    if v.len() == 0 {
        c
    } else if v == ":all:"@ {
        (Some(mode), c.1)
    } else if v == ":none:"@ {
        (
            if c.0 == Some(mode) {
                None
            } else {
                c.0
            },
            c.1.restrict(c.1.dom().filter(|k: Seq<char>| c.1[k] != mode)),
        )
    } else {
        (c.0, c.1.insert(normalized_name(v), mode))
    }
}

/// The items applied in order.
pub open spec fn binary_items(
    c: (Option<PypiBinaryMode>, Map<Seq<char>, PypiBinaryMode>),
    mode: PypiBinaryMode,
    items: Seq<Seq<char>>,
) -> (Option<PypiBinaryMode>, Map<Seq<char>, PypiBinaryMode>)
    decreases items.len(),
{
    if items.len() == 0 {
        c
    } else {
        binary_item(binary_items(c, mode, items.drop_last()), mode, items.last())
    }
}

/// Applies an `--only-binary` / `--no-binary` value (`:all:`, `:none:` and
/// names, separated by commas) for `mode`.
pub fn apply_pypi_binary_option(
    all: &mut Option<PypiBinaryMode>,
    packages: &mut PypiBinaryPackages,
    mode: PypiBinaryMode,
    value: &str,
)
    requires
        old(packages).wf(),
    ensures
        final(packages).wf(),
        (*final(all), final(packages).view()) == binary_items(
            (*old(all), old(packages).view()),
            mode,
            split_char(value@, ','),
        ),
{
    let text = chars_of(value);
    let items = split_chars(text.as_slice(), ',');
    let all_word = chars_of(":all:");
    let none_word = chars_of(":none:");
    let ghost start = (*all, packages.view());
    let ghost pieces = seqs_of(items@);
    let mut i: usize = 0;
    while i < items.len()
        invariant
            packages.wf(),
            pieces == seqs_of(items@),
            pieces == split_char(value@, ','),
            all_word@ == ":all:"@,
            none_word@ == ":none:"@,
            i <= items@.len(),
            (*all, packages.view()) == binary_items(start, mode, pieces.take(i as int)),
        decreases items.len() - i,
    {
        proof {
            assert(pieces.take(i + 1).drop_last() =~= pieces.take(i as int));
            assert(pieces.take(i + 1).last() == items@[i as int]@);
        }
        let v = trim_chars(items[i].as_slice());
        if v.len() == 0 {
        } else if eq_chars(v.as_slice(), all_word.as_slice()) {
            *all = Some(mode);
        } else if eq_chars(v.as_slice(), none_word.as_slice()) {
            if *all == Some(mode) {
                *all = None;
            }
            packages.remove_mode(mode);
        } else {
            let name = normalize_pypi_name(v.as_slice());
            packages.insert(name.as_slice(), mode);
        }
        i = i + 1;
    }
    assert(pieces.take(items@.len() as int) =~= pieces);
}

} // verus!
