//! Reading `yarn.lock` text, and turning what lockfiles say of each package
//! into pinned constraints.
use vstd::prelude::*;
use crate::npm_names::lock_path_name;
use crate::text::split_char;
use crate::text::{
    chars_of, concat_chars, ends_with, ends_with_chars, find_chars, first_occurrence, is_whitespace,
    is_ws, last_index_of, occurs_at, rfind_char, seqs_of, slice_of, starts_with,
    starts_with_chars, string_from_chars, suffix_from, trim, trim_chars, trim_end,
    trim_end_char, trim_end_chars, trim_end_matches_char,
};
use crate::requirements::{lines, text_lines};
use crate::set_map::{distinct_strings, is_single, lemma_single, string_set, the_one, PinMap, SetMap};

verus! {

// ---------------------------------------------------------------------------
// Selectors and values
// ---------------------------------------------------------------------------

/// The selectors read so far, the selector being read, whether a quote is
/// open and whether the last character was a `\` inside quotes.
pub open spec fn selector_state(raw: Seq<char>) -> (Seq<Seq<char>>, Seq<char>, bool, bool)
    decreases raw.len(),
{
    if raw.len() == 0 {
        (Seq::empty(), Seq::empty(), false, false)
    } else {
        let (sels, cur, q, esc) = selector_state(raw.drop_last());
        let c = raw.last();
        if esc {
            (sels, cur.push(c), q, false)
        } else if q && c == '\\' {
            (sels, cur, q, true)
        } else if c == '"' {
            (sels, cur, !q, false)
        } else if c == ',' && !q {
            (if trim(cur).len() > 0 {
                sels.push(trim(cur))
            } else {
                sels
            }, Seq::empty(), q, false)
        } else {
            (sels, cur.push(c), q, false)
        }
    }
}

/// `parse_yarn_lock_selectors`: the comma separated selectors of an entry
/// header, quotes removed, trimmed, empty ones dropped.
pub open spec fn yarn_selectors(raw: Seq<char>) -> Seq<Seq<char>> {
    let (sels, cur, _q, _e) = selector_state(raw);
    if trim(cur).len() > 0 {
        sels.push(trim(cur))
    } else {
        sels
    }
}

/// `parse_yarn_lock_selectors`.
pub fn parse_yarn_lock_selectors(raw: &[char]) -> (out: Vec<Vec<char>>)
    ensures
        seqs_of(out@) == yarn_selectors(raw@),
{
    let mut selectors: Vec<Vec<char>> = Vec::new();
    let mut current: Vec<char> = Vec::new();
    let mut in_quote = false;
    let mut escaped = false;
    let mut i: usize = 0;
    proof {
        assert(raw@.take(0) =~= Seq::<char>::empty());
        assert(seqs_of(selectors@) =~= Seq::<Seq<char>>::empty());
    }
    while i < raw.len()
        invariant
            i <= raw@.len(),
            (seqs_of(selectors@), current@, in_quote, escaped) == selector_state(
                raw@.take(i as int),
            ),
        decreases raw.len() - i,
    {
        proof {
            assert(raw@.take(i + 1).drop_last() =~= raw@.take(i as int));
        }
        let ch = raw[i];
        let ghost before = seqs_of(selectors@);
        if escaped {
            current.push(ch);
            escaped = false;
        } else if in_quote && ch == '\\' {
            escaped = true;
        } else if ch == '"' {
            in_quote = !in_quote;
        } else if ch == ',' && !in_quote {
            let t = trim_chars(current.as_slice());
            if t.len() > 0 {
                selectors.push(t);
                proof {
                    assert(seqs_of(selectors@) =~= before.push(t@));
                }
            }
            current = Vec::new();
        } else {
            current.push(ch);
        }
        i = i + 1;
    }
    proof {
        assert(raw@.take(raw@.len() as int) =~= raw@);
    }
    let t = trim_chars(current.as_slice());
    if t.len() > 0 {
        let ghost before = seqs_of(selectors@);
        selectors.push(t);
        proof {
            assert(seqs_of(selectors@) =~= before.push(t@));
        }
    }
    selectors
}

/// `str::replace(from, to)`: every occurrence of `from`, left to right and
/// not overlapping, replaced by `to`.
pub open spec fn replace_all(s: Seq<char>, from: Seq<char>, to: Seq<char>) -> Seq<char>
    decreases s.len(),
{
    if from.len() == 0 {
        s
    } else {
        match first_occurrence(s, from) {
            None => s,
            Some(i) => if 0 <= i && i + from.len() <= s.len() {
                s.take(i) + to + replace_all(s.skip(i + from.len()), from, to)
            } else {
                s
            },
        }
    }
}

/// `str::replace`.
pub fn replace_chars(s: &[char], from: &[char], to: &[char]) -> (out: Vec<char>)
    ensures
        out@ == replace_all(s@, from@, to@),
{
    if from.len() == 0 {
        return slice_of(s, 0, s.len());
    }
    let mut out: Vec<char> = Vec::new();
    let mut rest: Vec<char> = slice_of(s, 0, s.len());
    proof {
        assert(s@.subrange(0, s@.len() as int) =~= s@);
    }
    loop
        invariant
            from@.len() > 0,
            out@ + replace_all(rest@, from@, to@) == replace_all(s@, from@, to@),
        decreases rest@.len(),
    {
        match find_chars(rest.as_slice(), from) {
            None => {
                let r = concat_chars(out.as_slice(), rest.as_slice());
                return r;
            },
            Some(i) => {
                let rl = rest.len();
                assert(i + from.len() <= rl);
                let head = slice_of(rest.as_slice(), 0, i);
                let a = concat_chars(out.as_slice(), head.as_slice());
                let b = concat_chars(a.as_slice(), to);
                let next = suffix_from(rest.as_slice(), i + from.len());
                proof {
                    assert(head@ == rest@.take(i as int));
                    assert(b@ + replace_all(next@, from@, to@) =~= out@ + (rest@.take(i as int) + to@
                        + replace_all(next@, from@, to@)));
                }
                out = b;
                rest = next;
            },
        }
    }
}

/// `yarn_lock_value`: a quoted value unquoted (`\"` and `\\` unescaped); any
/// other value trimmed.
pub open spec fn yarn_value(value: Seq<char>) -> Seq<char> {
    let v = trim(value);
    if v.len() >= 2 && starts_with(v, "\""@) && ends_with(v, "\""@) {
        replace_all(replace_all(v.subrange(1, v.len() - 1), "\\\""@, "\""@), "\\\\"@, "\\"@)
    } else {
        v
    }
}

/// `yarn_lock_value`.
pub fn yarn_lock_value(value: &[char]) -> (out: Vec<char>)
    ensures
        out@ == yarn_value(value@),
{
    let v = trim_chars(value);
    let quote = chars_of("\"");
    let esc_quote = chars_of("\\\"");
    let backslashes = chars_of("\\\\");
    let backslash = chars_of("\\");
    if v.len() >= 2 && starts_with_chars(v.as_slice(), quote.as_slice()) && ends_with_chars(
        v.as_slice(),
        quote.as_slice(),
    ) {
        let inner = slice_of(v.as_slice(), 1, v.len() - 1);
        let a = replace_chars(inner.as_slice(), esc_quote.as_slice(), quote.as_slice());
        replace_chars(a.as_slice(), backslashes.as_slice(), backslash.as_slice())
    } else {
        v
    }
}

/// `npm_package_name_from_yarn_selector`: `name@range` to `name`, an alias
/// `alias@npm:real@range` to `alias`.
pub open spec fn yarn_selector_name(selector: Seq<char>) -> Option<Seq<char>> {
    let s = trim(selector);
    if s.len() == 0 {
        None
    } else {
        match first_occurrence(s, "@npm:"@) {
            Some(i) => if s.take(i).len() == 0 {
                None
            } else {
                Some(s.take(i))
            },
            None => match last_index_of(s, '@') {
                None => None,
                Some(r) => if r == 0 && starts_with(s, "@"@) {
                    None
                } else {
                    Some(s.take(r))
                },
            },
        }
    }
}

/// `npm_package_name_from_yarn_selector`.
pub fn npm_package_name_from_yarn_selector(selector: &[char]) -> (r: Option<Vec<char>>)
    ensures
        r matches Some(n) ==> yarn_selector_name(selector@) == Some(n@),
        r is None ==> yarn_selector_name(selector@) is None,
{
    let s = trim_chars(selector);
    if s.len() == 0 {
        return None;
    }
    let alias_marker = chars_of("@npm:");
    match find_chars(s.as_slice(), alias_marker.as_slice()) {
        Some(i) => {
            let alias = slice_of(s.as_slice(), 0, i);
            proof {
                assert(alias@ =~= s@.take(i as int));
            }
            if alias.len() == 0 {
                None
            } else {
                Some(alias)
            }
        },
        None => match rfind_char(s.as_slice(), '@') {
            None => None,
            Some(r) => {
                if r == 0 {
                    proof {
                        reveal_strlit("@");
                        assert(s@.take(1) =~= "@"@);
                    }
                    return None;
                }
                let name = slice_of(s.as_slice(), 0, r);
                proof {
                    assert(name@ =~= s@.take(r as int));
                }
                Some(name)
            },
        },
    }
}

// ---------------------------------------------------------------------------
// Gathering what each package is locked to
// ---------------------------------------------------------------------------

/// Adds `v` to the set of `k`.
pub open spec fn add_to(
    m: Map<Seq<char>, Set<Seq<char>>>,
    k: Seq<char>,
    v: Seq<char>,
) -> Map<Seq<char>, Set<Seq<char>>> {
    m.insert(
        k,
        if m.contains_key(k) {
            m[k].insert(v)
        } else {
            set![v]
        },
    )
}

/// Per package: its versions, integrities and tarball URLs.
pub struct LockMaps {
    pub versions: SetMap,
    pub integrities: SetMap,
    pub resolved: SetMap,
}

pub struct LockMapsView {
    pub versions: Map<Seq<char>, Set<Seq<char>>>,
    pub integrities: Map<Seq<char>, Set<Seq<char>>>,
    pub resolved: Map<Seq<char>, Set<Seq<char>>>,
}

impl LockMaps {
    pub open spec fn wf(&self) -> bool {
        self.versions.wf() && self.integrities.wf() && self.resolved.wf()
    }

    pub open spec fn view(&self) -> LockMapsView {
        LockMapsView {
            versions: self.versions.view(),
            integrities: self.integrities.view(),
            resolved: self.resolved.view(),
        }
    }

    pub fn new() -> (m: LockMaps)
        ensures
            m.wf(),
            m.view() == (LockMapsView {
                versions: Map::empty(),
                integrities: Map::empty(),
                resolved: Map::empty(),
            }),
    {
        LockMaps { versions: SetMap::new(), integrities: SetMap::new(), resolved: SetMap::new() }
    }
}

/// A `yarn.lock` entry: its selectors and the fields read so far.
pub struct YarnLockEntry {
    pub selectors: Vec<Vec<char>>,
    pub version: Option<Vec<char>>,
    pub resolved: Option<Vec<char>>,
    pub integrity: Option<Vec<char>>,
}

pub struct YarnEntryView {
    pub selectors: Seq<Seq<char>>,
    pub version: Option<Seq<char>>,
    pub resolved: Option<Seq<char>>,
    pub integrity: Option<Seq<char>>,
}

pub open spec fn opt_view(o: Option<Vec<char>>) -> Option<Seq<char>> {
    match o {
        Some(v) => Some(v@),
        None => None,
    }
}

impl YarnLockEntry {
    pub open spec fn view(&self) -> YarnEntryView {
        YarnEntryView {
            selectors: seqs_of(self.selectors@),
            version: opt_view(self.version),
            resolved: opt_view(self.resolved),
            integrity: opt_view(self.integrity),
        }
    }
}

/// What one selector of an entry locked to `version` adds.
pub open spec fn add_selector(
    m: LockMapsView,
    selector: Seq<char>,
    version: Seq<char>,
    integrity: Option<Seq<char>>,
    resolved: Option<Seq<char>>,
) -> LockMapsView {
    match yarn_selector_name(selector) {
        None => m,
        Some(name) => LockMapsView {
            versions: add_to(m.versions, name, version),
            integrities: match integrity {
                Some(i) => add_to(m.integrities, name, i),
                None => m.integrities,
            },
            resolved: match resolved {
                Some(u) => if starts_with(u, "https://"@) {
                    add_to(m.resolved, name, u)
                } else {
                    m.resolved
                },
                None => m.resolved,
            },
        },
    }
}

/// What the selectors of an entry locked to `version` add, in order.
pub open spec fn add_selectors(
    m: LockMapsView,
    sels: Seq<Seq<char>>,
    version: Seq<char>,
    integrity: Option<Seq<char>>,
    resolved: Option<Seq<char>>,
) -> LockMapsView
    decreases sels.len(),
{
    if sels.len() == 0 {
        m
    } else {
        add_selector(
            add_selectors(m, sels.drop_last(), version, integrity, resolved),
            sels.last(),
            version,
            integrity,
            resolved,
        )
    }
}

/// `collect_yarn_lock_entry`: an entry with a version adds it (and its
/// integrity and `https://` tarball) under each package its selectors name.
pub open spec fn collect_entry(m: LockMapsView, entry: Option<YarnEntryView>) -> LockMapsView {
    match entry {
        None => m,
        Some(e) => match e.version {
            None => m,
            Some(v) => add_selectors(m, e.selectors, v, e.integrity, e.resolved),
        },
    }
}

/// `collect_yarn_lock_entry`.
pub fn collect_yarn_lock_entry(entry: Option<YarnLockEntry>, maps: &mut LockMaps)
    requires
        old(maps).wf(),
    ensures
        final(maps).wf(),
        final(maps).view() == collect_entry(
            old(maps).view(),
            match entry {
                Some(e) => Some(e.view()),
                None => None,
            },
        ),
{
    let entry = match entry {
        Some(e) => e,
        None => return ,
    };
    let version = match &entry.version {
        Some(v) => v,
        None => return ,
    };
    let https = chars_of("https://");
    let ghost sels = seqs_of(entry.selectors@);
    let ghost start = maps.view();
    let mut i: usize = 0;
    proof {
        assert(sels.take(0) =~= Seq::<Seq<char>>::empty());
    }
    while i < entry.selectors.len()
        invariant
            maps.wf(),
            i <= entry.selectors@.len(),
            sels == seqs_of(entry.selectors@),
            https@ == "https://"@,
            entry.version == Some(*version),
            maps.view() == add_selectors(
                start,
                sels.take(i as int),
                version@,
                opt_view(entry.integrity),
                opt_view(entry.resolved),
            ),
        decreases entry.selectors.len() - i,
    {
        proof {
            assert(sels.take(i + 1).drop_last() =~= sels.take(i as int));
            assert(sels.take(i + 1).last() == entry.selectors@[i as int]@);
        }
        let ghost before = maps.view();
        match npm_package_name_from_yarn_selector(entry.selectors[i].as_slice()) {
            None => {},
            Some(name) => {
                maps.versions.add(name.as_slice(), version.as_slice());
                match &entry.integrity {
                    Some(integ) => maps.integrities.add(name.as_slice(), integ.as_slice()),
                    None => {},
                }
                match &entry.resolved {
                    Some(url) => {
                        if starts_with_chars(url.as_slice(), https.as_slice()) {
                            maps.resolved.add(name.as_slice(), url.as_slice());
                        }
                    },
                    None => {},
                }
                proof {
                    assert(maps.view() == add_selector(
                        before,
                        entry.selectors@[i as int]@,
                        version@,
                        opt_view(entry.integrity),
                        opt_view(entry.resolved),
                    ));
                }
            },
        }
        i = i + 1;
    }
    proof {
        assert(sels.take(sels.len() as int) =~= sels);
    }
}

/// What `yarn.lock` says after reading some lines: the packages gathered and
/// the entry being read.
pub open spec fn yarn_state(ls: Seq<Seq<char>>) -> (LockMapsView, Option<YarnEntryView>)
    decreases ls.len(),
{
    if ls.len() == 0 {
        (LockMapsView { versions: Map::empty(), integrities: Map::empty(), resolved: Map::empty() }, None)
    } else {
        let (m, entry) = yarn_state(ls.drop_last());
        yarn_line(m, entry, ls.last())
    }
}

/// One line of `yarn.lock` read: blank lines and comments are skipped; an
/// unindented line ending in `:` starts an entry (the previous one is
/// gathered); `version`, `resolved` and `integrity` lines fill the entry.
#[verifier::opaque]
pub open spec fn yarn_line(m: LockMapsView, entry: Option<YarnEntryView>, raw: Seq<char>) -> (
    LockMapsView,
    Option<YarnEntryView>,
) {
    let line = trim_end(raw);
    let t = trim(line);
    let indented = line.len() > 0 && is_ws(line[0]);
    if t.len() == 0 || starts_with(t, "#"@) {
        (m, entry)
    } else if !indented && ends_with(t, ":"@) {
        (
            collect_entry(m, entry),
            Some(
                YarnEntryView {
                    selectors: yarn_selectors(trim_end_char(t, ':')),
                    version: None,
                    resolved: None,
                    integrity: None,
                },
            ),
        )
    } else {
        match entry {
            None => (m, entry),
            Some(e) => if starts_with(t, "version "@) {
                (m, Some(YarnEntryView { version: Some(yarn_value(t.skip(8))), ..e }))
            } else if starts_with(t, "resolved "@) {
                (m, Some(YarnEntryView { resolved: Some(yarn_value(t.skip(9))), ..e }))
            } else if starts_with(t, "integrity "@) {
                (m, Some(YarnEntryView { integrity: Some(yarn_value(t.skip(10))), ..e }))
            } else {
                (m, entry)
            },
        }
    }
}

/// What a whole `yarn.lock` says of each package.
pub open spec fn yarn_lock_maps(content: Seq<char>) -> LockMapsView {
    let (m, entry) = yarn_state(lines(content));
    collect_entry(m, entry)
}

pub open spec fn entry_view(e: Option<YarnLockEntry>) -> Option<YarnEntryView> {
    match e {
        Some(x) => Some(x.view()),
        None => None,
    }
}

/// Reads one line of `yarn.lock`.
fn read_yarn_line(maps: &mut LockMaps, entry: Option<YarnLockEntry>, raw: &[char]) -> (r: Option<
    YarnLockEntry,
>)
    requires
        old(maps).wf(),
    ensures
        final(maps).wf(),
        (final(maps).view(), entry_view(r)) == yarn_line(old(maps).view(), entry_view(entry), raw@),
{
    reveal(yarn_line);
    let line = trim_end_chars(raw);
    let t = trim_chars(line.as_slice());
    let hash = chars_of("#");
    let colon = chars_of(":");
    let version_key = chars_of("version ");
    let resolved_key = chars_of("resolved ");
    let integrity_key = chars_of("integrity ");
    proof {
        reveal_strlit("version ");
        reveal_strlit("resolved ");
        reveal_strlit("integrity ");
    }
    let indented = line.len() > 0 && is_whitespace(line[0]);
    if t.len() == 0 || starts_with_chars(t.as_slice(), hash.as_slice()) {
        return entry;
    }
    if !indented && ends_with_chars(t.as_slice(), colon.as_slice()) {
        collect_yarn_lock_entry(entry, maps);
        let header = trim_end_matches_char(t.as_slice(), ':');
        return Some(
            YarnLockEntry {
                selectors: parse_yarn_lock_selectors(header.as_slice()),
                version: None,
                resolved: None,
                integrity: None,
            },
        );
    }
    match entry {
        None => None,
        Some(e) => {
            let mut e = e;
            if starts_with_chars(t.as_slice(), version_key.as_slice()) {
                let v = suffix_from(t.as_slice(), 8);
                e.version = Some(yarn_lock_value(v.as_slice()));
            } else if starts_with_chars(t.as_slice(), resolved_key.as_slice()) {
                let v = suffix_from(t.as_slice(), 9);
                e.resolved = Some(yarn_lock_value(v.as_slice()));
            } else if starts_with_chars(t.as_slice(), integrity_key.as_slice()) {
                let v = suffix_from(t.as_slice(), 10);
                e.integrity = Some(yarn_lock_value(v.as_slice()));
            }
            Some(e)
        },
    }
}

/// The packages that a `yarn.lock` text locks, with their versions,
/// integrities and `https://` tarball URLs (`read_yarn_lock_requirements`
/// before its final step, on the file's text).
pub fn read_yarn_lock_maps(content: &str) -> (maps: LockMaps)
    ensures
        maps.wf(),
        maps.view() == yarn_lock_maps(content@),
{
    let text = chars_of(content);
    let ls = text_lines(text.as_slice());
    let ghost lsv = seqs_of(ls@);
    let mut maps = LockMaps::new();
    let mut entry: Option<YarnLockEntry> = None;
    let mut i: usize = 0;
    proof {
        assert(lsv.take(0) =~= Seq::<Seq<char>>::empty());
    }
    while i < ls.len()
        invariant
            maps.wf(),
            i <= ls@.len(),
            lsv == seqs_of(ls@),
            lsv == lines(content@),
            (maps.view(), entry_view(entry)) == yarn_state(lsv.take(i as int)),
        decreases ls.len() - i,
    {
        proof {
            assert(lsv.take(i + 1).drop_last() =~= lsv.take(i as int));
            assert(lsv.take(i + 1).last() == ls@[i as int]@);
        }
        entry = read_yarn_line(&mut maps, entry, ls[i].as_slice());
        i = i + 1;
    }
    proof {
        assert(lsv.take(ls@.len() as int) =~= lsv);
    }
    collect_yarn_lock_entry(entry, &mut maps);
    maps
}

// ---------------------------------------------------------------------------
// Pinned constraints
// ---------------------------------------------------------------------------

/// The constraint key of a package: `npm:` and its name.
pub open spec fn npm_key(name: Seq<char>) -> Seq<char> {
    "npm:"@ + name
}

/// A constraint key whose package is locked to exactly one version.
pub open spec fn pinned(m: LockMapsView, k: Seq<char>) -> bool {
    starts_with(k, "npm:"@) && m.versions.contains_key(k.skip(4)) && is_single(m.versions[k.skip(4)])
}

/// The constraints a lockfile pins: `npm:<name>` to the version of each
/// package locked to exactly one version.
pub open spec fn pinned_constraints(m: LockMapsView) -> Map<Seq<char>, Seq<char>> {
    Map::new(|k: Seq<char>| pinned(m, k), |k: Seq<char>| the_one(m.versions[k.skip(4)]))
}

/// The integrities of the pinned packages.
pub open spec fn pinned_integrities(m: LockMapsView) -> Map<Seq<char>, Set<Seq<char>>> {
    Map::new(
        |k: Seq<char>| pinned(m, k) && m.integrities.contains_key(k.skip(4)),
        |k: Seq<char>| m.integrities[k.skip(4)],
    )
}

/// The tarball URL of each pinned package that has exactly one.
pub open spec fn pinned_resolved(m: LockMapsView) -> Map<Seq<char>, Seq<char>> {
    Map::new(
        |k: Seq<char>| pinned(m, k) && m.resolved.contains_key(k.skip(4)) && is_single(
            m.resolved[k.skip(4)],
        ),
        |k: Seq<char>| the_one(m.resolved[k.skip(4)]),
    )
}

/// What a lockfile pins.
pub struct NpmLockRequirements {
    pub constraints: PinMap,
    pub npm_integrities: SetMap,
    pub npm_resolved: PinMap,
}

/// Copies a list of strings.
pub fn copy_strings(v: &Vec<String>) -> (out: Vec<String>)
    ensures
        out@.len() == v@.len(),
        forall|i: int| 0 <= i < v@.len() ==> #[trigger] out@[i]@ == v@[i]@,
{
    let mut out: Vec<String> = Vec::new();
    let mut i: usize = 0;
    while i < v.len()
        invariant
            i <= v@.len(),
            out@.len() == i,
            forall|k: int| 0 <= k < i ==> #[trigger] out@[k]@ == v@[k]@,
        decreases v.len() - i,
    {
        let c = chars_of(v[i].as_str());
        out.push(string_from_chars(c.as_slice()));
        i = i + 1;
    }
    out
}

proof fn lemma_npm_key(name: Seq<char>)
    ensures
        npm_key(name).skip(4) == name,
        starts_with(npm_key(name), "npm:"@),
{
    reveal_strlit("npm:");
    assert(npm_key(name).skip(4) =~= name);
    assert(npm_key(name).take(4) =~= "npm:"@);
}

proof fn lemma_npm_key_inverse(k: Seq<char>)
    requires
        starts_with(k, "npm:"@),
    ensures
        npm_key(k.skip(4)) == k,
{
    reveal_strlit("npm:");
    assert(k.take(4) =~= "npm:"@);
    assert(npm_key(k.skip(4)) =~= k);
}

/// A name among the first `i` entries of a set map.
pub open spec fn among_first(m: SetMap, i: int, name: Seq<char>) -> bool {
    exists|j: int| 0 <= j < i && m.entries@[j].0@ == name
}

/// `npm_requirements_from_lock_maps`: the constraints pinned by the packages
/// locked to exactly one version, their integrities, and their tarball URLs
/// where there is exactly one.
pub fn npm_requirements_from_lock_maps(maps: &LockMaps) -> (r: NpmLockRequirements)
    requires
        maps.wf(),
    ensures
        r.constraints.wf(),
        r.npm_integrities.wf(),
        r.npm_resolved.wf(),
        r.constraints.view() == pinned_constraints(maps.view()),
        r.npm_integrities.view() == pinned_integrities(maps.view()),
        r.npm_resolved.view() == pinned_resolved(maps.view()),
{
    let ghost mv = maps.view();
    let prefix = chars_of("npm:");
    // Constraints.
    let mut constraints = PinMap::new();
    let mut i: usize = 0;
    while i < maps.versions.entries.len()
        invariant
            maps.wf(),
            mv == maps.view(),
            prefix@ == "npm:"@,
            i <= maps.versions.entries@.len(),
            constraints.wf(),
            constraints.view() == Map::new(
                |k: Seq<char>| pinned(mv, k) && among_first(maps.versions, i as int, k.skip(4)),
                |k: Seq<char>| the_one(mv.versions[k.skip(4)]),
            ),
        decreases maps.versions.entries.len() - i,
    {
        let ghost before = constraints.view();
        let name = chars_of(maps.versions.entries[i].0.as_str());
        let key = crate::text::concat_chars(prefix.as_slice(), name.as_slice());
        let vals = &maps.versions.entries[i].1;
        proof {
            lemma_npm_key(name@);
            assert(key@ == npm_key(name@));
            assert(distinct_strings(vals@));
            lemma_single(vals@);
            assert(maps.versions.has_key(name@));
            let w = maps.versions.index_of_key(name@);
            assert(w == i as int);
            assert(mv.versions[name@] == string_set(vals@));
        }
        if vals.len() == 1 {
            let v = chars_of(vals[0].as_str());
            proof {
                assert(!among_first(maps.versions, i as int, name@));
                assert(!before.contains_key(key@));
            }
            constraints.insert_new(key.as_slice(), v.as_slice());
            proof {
                assert forall|k: Seq<char>| #[trigger] constraints.view().contains_key(k) == (pinned(mv, k)
                    && among_first(maps.versions, i + 1, k.skip(4))) by {
                    if among_first(maps.versions, i + 1, k.skip(4)) && !among_first(maps.versions, i as int, k.skip(4)) {
                        let j = choose|j: int| 0 <= j < i + 1 && maps.versions.entries@[j].0@ == k.skip(4);
                        assert(j == i);
                        if starts_with(k, "npm:"@) {
                            lemma_npm_key_inverse(k);
                        }
                    }
                    if k == key@ {
                        assert(maps.versions.entries@[i as int].0@ == k.skip(4));
                    }
                    if among_first(maps.versions, i as int, k.skip(4)) {
                        let j = choose|j: int| 0 <= j < i && maps.versions.entries@[j].0@ == k.skip(4);
                        assert(among_first(maps.versions, i + 1, k.skip(4)));
                    }
                }
                assert(constraints.view() =~= Map::new(
                    |k: Seq<char>| pinned(mv, k) && among_first(maps.versions, i + 1, k.skip(4)),
                    |k: Seq<char>| the_one(mv.versions[k.skip(4)]),
                ));
            }
        } else {
            proof {
                assert forall|k: Seq<char>| #[trigger] before.contains_key(k) == (pinned(mv, k)
                    && among_first(maps.versions, i + 1, k.skip(4))) by {
                    if among_first(maps.versions, i + 1, k.skip(4)) && !among_first(maps.versions, i as int, k.skip(4)) {
                        let j = choose|j: int| 0 <= j < i + 1 && maps.versions.entries@[j].0@ == k.skip(4);
                        assert(j == i);
                    }
                    if among_first(maps.versions, i as int, k.skip(4)) {
                        let j = choose|j: int| 0 <= j < i && maps.versions.entries@[j].0@ == k.skip(4);
                        assert(among_first(maps.versions, i + 1, k.skip(4)));
                    }
                }
                assert(constraints.view() =~= Map::new(
                    |k: Seq<char>| pinned(mv, k) && among_first(maps.versions, i + 1, k.skip(4)),
                    |k: Seq<char>| the_one(mv.versions[k.skip(4)]),
                ));
            }
        }
        i = i + 1;
    }
    proof {
        assert forall|k: Seq<char>| pinned(mv, k) implies among_first(
            maps.versions,
            maps.versions.entries@.len() as int,
            k.skip(4),
        ) by {
            let w = choose|w: int| 0 <= w < maps.versions.entries@.len() && maps.versions.entries@[w].0@
                == k.skip(4);
        }
        assert(constraints.view() =~= pinned_constraints(mv));
    }
    // Integrities.
    let mut integrities = SetMap::new();
    let mut i: usize = 0;
    while i < maps.integrities.entries.len()
        invariant
            maps.wf(),
            mv == maps.view(),
            prefix@ == "npm:"@,
            constraints.view() == pinned_constraints(mv),
            i <= maps.integrities.entries@.len(),
            integrities.wf(),
            integrities.view() == Map::new(
                |k: Seq<char>| pinned(mv, k) && mv.integrities.contains_key(k.skip(4)) && among_first(
                    maps.integrities,
                    i as int,
                    k.skip(4),
                ),
                |k: Seq<char>| mv.integrities[k.skip(4)],
            ),
        decreases maps.integrities.entries.len() - i,
    {
        let ghost before = integrities.view();
        let name = chars_of(maps.integrities.entries[i].0.as_str());
        let key = crate::text::concat_chars(prefix.as_slice(), name.as_slice());
        proof {
            lemma_npm_key(name@);
            assert(maps.integrities.has_key(name@));
            let w = maps.integrities.index_of_key(name@);
            assert(w == i as int);
        }
        if constraints.contains(key.as_slice()) {
            let vals = copy_strings(&maps.integrities.entries[i].1);
            proof {
                assert(distinct_strings(maps.integrities.entries@[i as int].1@));
                crate::set_map::lemma_same_strings(vals@, maps.integrities.entries@[i as int].1@);
                assert(!among_first(maps.integrities, i as int, name@));
                assert(!before.contains_key(key@));
            }
            integrities.insert_new(key.as_slice(), vals);
            proof {
                assert forall|k: Seq<char>| #[trigger] integrities.view().contains_key(k) == (pinned(mv, k)
                    && mv.integrities.contains_key(k.skip(4)) && among_first(maps.integrities, i + 1, k.skip(4))) by {
                    if among_first(maps.integrities, i + 1, k.skip(4)) && !among_first(maps.integrities, i as int, k.skip(4)) {
                        let j = choose|j: int| 0 <= j < i + 1 && maps.integrities.entries@[j].0@ == k.skip(4);
                        assert(j == i);
                        if starts_with(k, "npm:"@) {
                            lemma_npm_key_inverse(k);
                        }
                    }
                    if k == key@ {
                        assert(maps.integrities.entries@[i as int].0@ == k.skip(4));
                    }
                    if among_first(maps.integrities, i as int, k.skip(4)) {
                        let j = choose|j: int| 0 <= j < i && maps.integrities.entries@[j].0@ == k.skip(4);
                        assert(among_first(maps.integrities, i + 1, k.skip(4)));
                    }
                }
                assert(integrities.view() =~= Map::new(
                    |k: Seq<char>| pinned(mv, k) && mv.integrities.contains_key(k.skip(4)) && among_first(
                        maps.integrities,
                        i + 1,
                        k.skip(4),
                    ),
                    |k: Seq<char>| mv.integrities[k.skip(4)],
                ));
            }
        } else {
            proof {
                assert forall|k: Seq<char>| #[trigger] before.contains_key(k) == (pinned(mv, k)
                    && mv.integrities.contains_key(k.skip(4)) && among_first(maps.integrities, i + 1, k.skip(4))) by {
                    if among_first(maps.integrities, i + 1, k.skip(4)) && !among_first(maps.integrities, i as int, k.skip(4)) {
                        let j = choose|j: int| 0 <= j < i + 1 && maps.integrities.entries@[j].0@ == k.skip(4);
                        assert(j == i);
                        if starts_with(k, "npm:"@) {
                            lemma_npm_key_inverse(k);
                        }
                    }
                    if among_first(maps.integrities, i as int, k.skip(4)) {
                        let j = choose|j: int| 0 <= j < i && maps.integrities.entries@[j].0@ == k.skip(4);
                        assert(among_first(maps.integrities, i + 1, k.skip(4)));
                    }
                }
                assert(integrities.view() =~= Map::new(
                    |k: Seq<char>| pinned(mv, k) && mv.integrities.contains_key(k.skip(4)) && among_first(
                        maps.integrities,
                        i + 1,
                        k.skip(4),
                    ),
                    |k: Seq<char>| mv.integrities[k.skip(4)],
                ));
            }
        }
        i = i + 1;
    }
    proof {
        assert forall|k: Seq<char>| pinned(mv, k) && mv.integrities.contains_key(k.skip(4)) implies among_first(
            maps.integrities,
            maps.integrities.entries@.len() as int,
            k.skip(4),
        ) by {
            let w = choose|w: int| 0 <= w < maps.integrities.entries@.len() && maps.integrities.entries@[w].0@
                == k.skip(4);
        }
        assert(integrities.view() =~= pinned_integrities(mv));
    }
    // Resolved tarballs.
    let mut resolved = PinMap::new();
    let mut i: usize = 0;
    while i < maps.resolved.entries.len()
        invariant
            maps.wf(),
            mv == maps.view(),
            prefix@ == "npm:"@,
            constraints.view() == pinned_constraints(mv),
            i <= maps.resolved.entries@.len(),
            resolved.wf(),
            resolved.view() == Map::new(
                |k: Seq<char>| pinned(mv, k) && mv.resolved.contains_key(k.skip(4)) && is_single(
                    mv.resolved[k.skip(4)],
                ) && among_first(maps.resolved, i as int, k.skip(4)),
                |k: Seq<char>| the_one(mv.resolved[k.skip(4)]),
            ),
        decreases maps.resolved.entries.len() - i,
    {
        let ghost before = resolved.view();
        let name = chars_of(maps.resolved.entries[i].0.as_str());
        let key = crate::text::concat_chars(prefix.as_slice(), name.as_slice());
        let vals = &maps.resolved.entries[i].1;
        proof {
            lemma_npm_key(name@);
            assert(maps.resolved.has_key(name@));
            let w = maps.resolved.index_of_key(name@);
            assert(w == i as int);
            assert(distinct_strings(vals@));
            lemma_single(vals@);
            assert(mv.resolved[name@] == string_set(vals@));
        }
        if constraints.contains(key.as_slice()) && vals.len() == 1 {
            let v = chars_of(vals[0].as_str());
            proof {
                assert(!among_first(maps.resolved, i as int, name@));
                assert(!before.contains_key(key@));
            }
            resolved.insert_new(key.as_slice(), v.as_slice());
            proof {
                assert forall|k: Seq<char>| #[trigger] resolved.view().contains_key(k) == (pinned(mv, k)
                    && mv.resolved.contains_key(k.skip(4)) && is_single(mv.resolved[k.skip(4)])
                    && among_first(maps.resolved, i + 1, k.skip(4))) by {
                    if among_first(maps.resolved, i + 1, k.skip(4)) && !among_first(maps.resolved, i as int, k.skip(4)) {
                        let j = choose|j: int| 0 <= j < i + 1 && maps.resolved.entries@[j].0@ == k.skip(4);
                        assert(j == i);
                        if starts_with(k, "npm:"@) {
                            lemma_npm_key_inverse(k);
                        }
                    }
                    if k == key@ {
                        assert(maps.resolved.entries@[i as int].0@ == k.skip(4));
                    }
                    if among_first(maps.resolved, i as int, k.skip(4)) {
                        let j = choose|j: int| 0 <= j < i && maps.resolved.entries@[j].0@ == k.skip(4);
                        assert(among_first(maps.resolved, i + 1, k.skip(4)));
                    }
                }
                assert(resolved.view() =~= Map::new(
                    |k: Seq<char>| pinned(mv, k) && mv.resolved.contains_key(k.skip(4)) && is_single(
                        mv.resolved[k.skip(4)],
                    ) && among_first(maps.resolved, i + 1, k.skip(4)),
                    |k: Seq<char>| the_one(mv.resolved[k.skip(4)]),
                ));
            }
        } else {
            proof {
                assert forall|k: Seq<char>| #[trigger] before.contains_key(k) == (pinned(mv, k)
                    && mv.resolved.contains_key(k.skip(4)) && is_single(mv.resolved[k.skip(4)])
                    && among_first(maps.resolved, i + 1, k.skip(4))) by {
                    if among_first(maps.resolved, i + 1, k.skip(4)) && !among_first(maps.resolved, i as int, k.skip(4)) {
                        let j = choose|j: int| 0 <= j < i + 1 && maps.resolved.entries@[j].0@ == k.skip(4);
                        assert(j == i);
                        if starts_with(k, "npm:"@) {
                            lemma_npm_key_inverse(k);
                        }
                    }
                    if among_first(maps.resolved, i as int, k.skip(4)) {
                        let j = choose|j: int| 0 <= j < i && maps.resolved.entries@[j].0@ == k.skip(4);
                        assert(among_first(maps.resolved, i + 1, k.skip(4)));
                    }
                }
                assert(resolved.view() =~= Map::new(
                    |k: Seq<char>| pinned(mv, k) && mv.resolved.contains_key(k.skip(4)) && is_single(
                        mv.resolved[k.skip(4)],
                    ) && among_first(maps.resolved, i + 1, k.skip(4)),
                    |k: Seq<char>| the_one(mv.resolved[k.skip(4)]),
                ));
            }
        }
        i = i + 1;
    }
    proof {
        assert forall|k: Seq<char>| pinned(mv, k) && mv.resolved.contains_key(k.skip(4)) implies among_first(
            maps.resolved,
            maps.resolved.entries@.len() as int,
            k.skip(4),
        ) by {
            let w = choose|w: int| 0 <= w < maps.resolved.entries@.len() && maps.resolved.entries@[w].0@
                == k.skip(4);
        }
        assert(resolved.view() =~= pinned_resolved(mv));
    }
    NpmLockRequirements { constraints, npm_integrities: integrities, npm_resolved: resolved }
}

/// `read_yarn_lock_requirements` on the text of a `yarn.lock`: what it pins.
pub fn read_yarn_lock_requirements(content: &str) -> (r: NpmLockRequirements)
    ensures
        r.constraints.wf(),
        r.npm_integrities.wf(),
        r.npm_resolved.wf(),
        r.constraints.view() == pinned_constraints(yarn_lock_maps(content@)),
        r.npm_integrities.view() == pinned_integrities(yarn_lock_maps(content@)),
        r.npm_resolved.view() == pinned_resolved(yarn_lock_maps(content@)),
{
    let maps = read_yarn_lock_maps(content);
    npm_requirements_from_lock_maps(&maps)
}

// ---------------------------------------------------------------------------
// package-lock.json
// ---------------------------------------------------------------------------

/// A `packages` entry of a `package-lock.json`.
#[derive(Debug)]
pub struct NpmPackageLockPackage {
    pub version: Option<String>,
    pub integrity: Option<String>,
    pub resolved: Option<String>,
}

/// A `dependencies` entry of an older `package-lock.json`, with the
/// entries nested under it.
#[derive(Debug)]
pub struct NpmPackageLockDependency {
    pub version: Option<String>,
    pub integrity: Option<String>,
    pub resolved: Option<String>,
    pub dependencies: Vec<(String, NpmPackageLockDependency)>,
}

/// A `package-lock.json`: its `packages` by path and its `dependencies` by
/// name, each in the order of their keys.
#[derive(Debug)]
pub struct NpmPackageLock {
    pub packages: Vec<(String, NpmPackageLockPackage)>,
    pub dependencies: Vec<(String, NpmPackageLockDependency)>,
}

pub open spec fn text_opt(o: Option<String>) -> Option<Seq<char>> {
    match o {
        Some(s) => Some(s@),
        None => None,
    }
}

/// What one locked package adds under its name: its version, integrity
/// and tarball URL, each where it has one.
pub open spec fn add_lock_fields(
    m: LockMapsView,
    name: Seq<char>,
    version: Option<Seq<char>>,
    integrity: Option<Seq<char>>,
    resolved: Option<Seq<char>>,
) -> LockMapsView {
    LockMapsView {
        versions: match version {
            Some(v) => add_to(m.versions, name, v),
            None => m.versions,
        },
        integrities: match integrity {
            Some(i) => add_to(m.integrities, name, i),
            None => m.integrities,
        },
        resolved: match resolved {
            Some(u) => add_to(m.resolved, name, u),
            None => m.resolved,
        },
    }
}

/// What the `packages` entries add, in order: each entry other than the
/// root (the empty path) whose path names a package.
pub open spec fn lock_packages_maps(
    m: LockMapsView,
    ps: Seq<(String, NpmPackageLockPackage)>,
) -> LockMapsView
    decreases ps.len(),
{
    if ps.len() == 0 {
        m
    } else {
        let before = lock_packages_maps(m, ps.drop_last());
        let (path, p) = ps.last();
        if path@.len() == 0 {
            before
        } else {
            match lock_path_name(split_char(path@, '/'), 0, None) {
                None => before,
                Some(name) => add_lock_fields(
                    before,
                    name,
                    text_opt(p.version),
                    text_opt(p.integrity),
                    text_opt(p.resolved),
                ),
            }
        }
    }
}

/// What the `dependencies` entries add, in order, each before the entries
/// nested under it.
pub open spec fn lock_dependencies_maps(
    m: LockMapsView,
    ds: Seq<(String, NpmPackageLockDependency)>,
) -> LockMapsView
    decreases ds,
{
    if ds.len() == 0 {
        m
    } else {
        let before = lock_dependencies_maps(m, ds.drop_last());
        let d = ds[ds.len() - 1];
        proof {
            assert(decreases_to!(ds => ds[ds.len() - 1]));
            assert(decreases_to!(ds[ds.len() - 1] => ds[ds.len() - 1].1));
            assert(decreases_to!(ds[ds.len() - 1].1 => ds[ds.len() - 1].1.dependencies));
            assert(decreases_to!(ds[ds.len() - 1].1.dependencies => ds[ds.len() - 1].1.dependencies@));
        }
        lock_dependencies_maps(
            add_lock_fields(
                before,
                d.0@,
                text_opt(d.1.version),
                text_opt(d.1.integrity),
                text_opt(d.1.resolved),
            ),
            d.1.dependencies@,
        )
    }
}

/// What a `package-lock.json` locks: its `packages`, then its
/// `dependencies`.
pub open spec fn package_lock_maps(lock: NpmPackageLock) -> LockMapsView {
    lock_dependencies_maps(
        lock_packages_maps(
            LockMapsView { versions: Map::empty(), integrities: Map::empty(), resolved: Map::empty() },
            lock.packages@,
        ),
        lock.dependencies@,
    )
}

fn add_lock_entry(
    maps: &mut LockMaps,
    name: &[char],
    version: &Option<String>,
    integrity: &Option<String>,
    resolved: &Option<String>,
)
    requires
        old(maps).wf(),
    ensures
        final(maps).wf(),
        final(maps).view() == add_lock_fields(
            old(maps).view(),
            name@,
            text_opt(*version),
            text_opt(*integrity),
            text_opt(*resolved),
        ),
{
    if let Some(v) = version {
        maps.versions.add(name, chars_of(v.as_str()).as_slice());
    }
    if let Some(i) = integrity {
        maps.integrities.add(name, chars_of(i.as_str()).as_slice());
    }
    if let Some(u) = resolved {
        maps.resolved.add(name, chars_of(u.as_str()).as_slice());
    }
}

/// Adds what the `dependencies` entries lock, nested ones included.
pub fn collect_npm_lock_dependency_requirements(
    dependencies: &Vec<(String, NpmPackageLockDependency)>,
    maps: &mut LockMaps,
)
    requires
        old(maps).wf(),
    ensures
        final(maps).wf(),
        final(maps).view() == lock_dependencies_maps(old(maps).view(), dependencies@),
    decreases dependencies@,
{
    let ghost start = maps.view();
    let mut i: usize = 0;
    assert(dependencies@.take(0) =~= Seq::<(String, NpmPackageLockDependency)>::empty());
    while i < dependencies.len()
        invariant
            i <= dependencies@.len(),
            maps.wf(),
            maps.view() == lock_dependencies_maps(start, dependencies@.take(i as int)),
        decreases dependencies.len() - i,
    {
        proof {
            let t = dependencies@.take(i + 1);
            assert(t.drop_last() =~= dependencies@.take(i as int));
            assert(t[t.len() - 1] == dependencies@[i as int]);
            assert(decreases_to!(dependencies@ => dependencies@[i as int]));
            assert(decreases_to!(dependencies@[i as int] => dependencies@[i as int].1));
            assert(decreases_to!(dependencies@[i as int].1 => dependencies@[i as int].1.dependencies));
            assert(decreases_to!(dependencies@[i as int].1.dependencies => dependencies@[i as int].1.dependencies@));
        }
        let name = chars_of(dependencies[i].0.as_str());
        add_lock_entry(
            maps,
            name.as_slice(),
            &dependencies[i].1.version,
            &dependencies[i].1.integrity,
            &dependencies[i].1.resolved,
        );
        collect_npm_lock_dependency_requirements(&dependencies[i].1.dependencies, maps);
        i = i + 1;
    }
    assert(dependencies@.take(dependencies@.len() as int) =~= dependencies@);
}

/// What a `package-lock.json` locks, gathered by package.
pub fn read_package_lock_maps(lock: &NpmPackageLock) -> (maps: LockMaps)
    ensures
        maps.wf(),
        maps.view() == package_lock_maps(*lock),
{
    let mut maps = LockMaps::new();
    let ghost start = maps.view();
    let mut i: usize = 0;
    assert(lock.packages@.take(0) =~= Seq::<(String, NpmPackageLockPackage)>::empty());
    while i < lock.packages.len()
        invariant
            i <= lock.packages@.len(),
            maps.wf(),
            maps.view() == lock_packages_maps(start, lock.packages@.take(i as int)),
            start == (LockMapsView { versions: Map::empty(), integrities: Map::empty(), resolved: Map::empty() }),
        decreases lock.packages.len() - i,
    {
        proof {
            let t = lock.packages@.take(i + 1);
            assert(t.drop_last() =~= lock.packages@.take(i as int));
            assert(t.last() == lock.packages@[i as int]);
        }
        let path = &lock.packages[i].0;
        let path_chars = chars_of(path.as_str());
        if path_chars.len() > 0 {
            match crate::npm_names::npm_package_name_from_lock_path(path.as_str()) {
                Some(name) => {
                    let p = &lock.packages[i].1;
                    add_lock_entry(&mut maps, name.as_slice(), &p.version, &p.integrity, &p.resolved);
                },
                None => {},
            }
        }
        i = i + 1;
    }
    assert(lock.packages@.take(lock.packages@.len() as int) =~= lock.packages@);
    collect_npm_lock_dependency_requirements(&lock.dependencies, &mut maps);
    maps
}

/// The requirements a `package-lock.json` pins: packages locked to exactly
/// one version, their integrities, and their tarball URLs where there is
/// exactly one.
pub fn read_package_lock_requirements(lock: &NpmPackageLock) -> (r: NpmLockRequirements)
    ensures
        r.constraints.wf(),
        r.npm_integrities.wf(),
        r.npm_resolved.wf(),
        r.constraints.view() == pinned_constraints(package_lock_maps(*lock)),
        r.npm_integrities.view() == pinned_integrities(package_lock_maps(*lock)),
        r.npm_resolved.view() == pinned_resolved(package_lock_maps(*lock)),
{
    let maps = read_package_lock_maps(lock);
    npm_requirements_from_lock_maps(&maps)
}

} // verus!
