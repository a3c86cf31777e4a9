//! A map from names to sets of strings, used to gather what lockfiles say of
//! each package (its versions, integrities and tarball URLs).
use vstd::prelude::*;
use crate::text::{chars_of, eq_chars, string_from_chars};

verus! {

/// The set of views of some strings.
pub open spec fn string_set(v: Seq<String>) -> Set<Seq<char>> {
    Set::new(|h: Seq<char>| exists|i: int| 0 <= i < v.len() && v[i]@ == h)
}

/// The strings are pairwise different.
pub open spec fn distinct_strings(v: Seq<String>) -> bool {
    forall|i: int, j: int| 0 <= i < v.len() && 0 <= j < v.len() && i != j ==> v[i]@ != v[j]@
}

/// Names mapped to sets of strings; each name occurs once and each set holds
/// no string twice.
pub struct SetMap {
    pub entries: Vec<(String, Vec<String>)>,
}

impl SetMap {
    pub open spec fn keys(&self) -> Seq<Seq<char>> {
        Seq::new(self.entries@.len(), |i: int| self.entries@[i].0@)
    }

    /// Each name once, each set without repeats.
    pub open spec fn wf(&self) -> bool {
        &&& forall|i: int, j: int|
            0 <= i < self.entries@.len() && 0 <= j < self.entries@.len() && i != j
                ==> self.entries@[i].0@ != self.entries@[j].0@
        &&& forall|i: int| 0 <= i < self.entries@.len() ==> distinct_strings(#[trigger] self.entries@[i].1@)
    }

    pub open spec fn has_key(&self, k: Seq<char>) -> bool {
        exists|i: int| 0 <= i < self.entries@.len() && self.entries@[i].0@ == k
    }

    pub open spec fn index_of_key(&self, k: Seq<char>) -> int {
        choose|i: int| 0 <= i < self.entries@.len() && self.entries@[i].0@ == k
    }

    /// The map from each name to its set.
    pub open spec fn view(&self) -> Map<Seq<char>, Set<Seq<char>>> {
        Map::new(|k: Seq<char>| self.has_key(k), |k: Seq<char>| string_set(self.entries@[self.index_of_key(k)].1@))
    }

    pub fn new() -> (m: SetMap)
        ensures
            m.wf(),
            m.view() == Map::<Seq<char>, Set<Seq<char>>>::empty(),
    {
        let m = SetMap { entries: Vec::new() };
        assert(m.view() =~= Map::<Seq<char>, Set<Seq<char>>>::empty());
        m
    }

    /// Index of the entry named `k`.
    pub fn find(&self, k: &[char]) -> (r: Option<usize>)
        requires
            self.wf(),
        ensures
            r matches Some(i) ==> i < self.entries@.len() && self.entries@[i as int].0@ == k@
                && self.index_of_key(k@) == i,
            r is None ==> !self.has_key(k@),
    {
        let mut i: usize = 0;
        while i < self.entries.len()
            invariant
                self.wf(),
                i <= self.entries@.len(),
                forall|j: int| 0 <= j < i ==> self.entries@[j].0@ != k@,
            decreases self.entries.len() - i,
        {
            let name = chars_of(self.entries[i].0.as_str());
            if eq_chars(name.as_slice(), k) {
                proof {
                    let w = self.index_of_key(k@);
                    assert(self.has_key(k@));
                    assert(0 <= w < self.entries@.len() && self.entries@[w].0@ == k@);
                }
                return Some(i);
            }
            i = i + 1;
        }
        None
    }

    /// Adds a name that is not there yet, with a set of distinct strings.
    pub fn insert_new(&mut self, k: &[char], vals: Vec<String>)
        requires
            old(self).wf(),
            !old(self).view().contains_key(k@),
            distinct_strings(vals@),
        ensures
            final(self).wf(),
            final(self).view() == old(self).view().insert(k@, string_set(vals@)),
    {
        let ghost before = self.view();
        let ghost old_entries = self.entries@;
        let ghost vs = vals@;
        self.entries.push((string_from_chars(k), vals));
        proof {
            let n = old_entries.len() as int;
            assert(self.entries@[n].0@ == k@);
            assert(self.entries@[n].1@ == vs);
            assert forall|x: Seq<char>| #[trigger] self.has_key(x) == (x == k@ || before.contains_key(x)) by {
                if self.has_key(x) {
                    let w = choose|w: int| 0 <= w < self.entries@.len() && self.entries@[w].0@ == x;
                    if w < n {
                        assert(old_entries[w].0@ == x);
                    }
                }
                if before.contains_key(x) {
                    let w = choose|w: int| 0 <= w < old_entries.len() && old_entries[w].0@ == x;
                    assert(self.entries@[w].0@ == x);
                }
            }
            assert forall|x: Seq<char>| #[trigger] self.has_key(x) implies self.view()[x] == before.insert(
                k@,
                string_set(vs),
            )[x] by {
                let w = self.index_of_key(x);
                assert(0 <= w < self.entries@.len() && self.entries@[w].0@ == x);
                if x == k@ {
                    if w < n {
                        assert(old_entries[w].0@ == k@);
                    }
                    assert(w == n);
                } else {
                    let w0 = choose|w0: int| 0 <= w0 < old_entries.len() && old_entries[w0].0@ == x;
                    assert(self.entries@[w0].0@ == x);
                    assert(w == w0);
                }
            }
            assert(self.view() =~= before.insert(k@, string_set(vs)));
        }
    }

    /// Adds `v` to the set of `k` (creating it when `k` is new).
    pub fn add(&mut self, k: &[char], v: &[char])
        requires
            old(self).wf(),
        ensures
            final(self).wf(),
            final(self).view() == old(self).view().insert(
                k@,
                if old(self).view().contains_key(k@) {
                    old(self).view()[k@].insert(v@)
                } else {
                    set![v@]
                },
            ),
    {
        let ghost before = self.view();
        match self.find(k) {
            Some(i) => {
                let ghost old_entries = self.entries@;
                let mut values = Vec::new();
                std::mem::swap(&mut values, &mut self.entries[i].1);
                let ghost old_vals = values@;
                proof {
                    assert(distinct_strings(old_entries[i as int].1@));
                }
                insert_distinct(&mut values, v);
                std::mem::swap(&mut values, &mut self.entries[i].1);
                proof {
                    assert(self.entries@[i as int].0@ == k@);
                    assert forall|j: int| 0 <= j < self.entries@.len() && j != i implies #[trigger] self.entries@[j]
                        == old_entries[j] by {}
                    assert forall|x: Seq<char>| #[trigger] self.has_key(x) == (x == k@ || before.contains_key(x)) by {
                        if self.has_key(x) {
                            let w = choose|w: int| 0 <= w < self.entries@.len() && self.entries@[w].0@ == x;
                            if w != i {
                                assert(old_entries[w].0@ == x);
                            }
                        }
                        if before.contains_key(x) {
                            let w = choose|w: int| 0 <= w < old_entries.len() && old_entries[w].0@ == x;
                            if w != i {
                                assert(self.entries@[w].0@ == x);
                            } else {
                                assert(self.entries@[i as int].0@ == x);
                            }
                        }
                    }
                    assert forall|x: Seq<char>| #[trigger] self.has_key(x) implies self.view()[x] == before.insert(
                        k@,
                        before[k@].insert(v@),
                    )[x] by {
                        let w = self.index_of_key(x);
                        assert(0 <= w < self.entries@.len() && self.entries@[w].0@ == x);
                        if x == k@ {
                            assert(w == i);
                        } else {
                            let w0 = choose|w0: int| 0 <= w0 < old_entries.len() && old_entries[w0].0@ == x;
                            assert(w0 != i);
                            assert(self.entries@[w0].0@ == x);
                            assert(w == w0);
                        }
                    }
                    assert(self.view() =~= before.insert(k@, before[k@].insert(v@)));
                }
            },
            None => {
                let ghost old_entries = self.entries@;
                let key = string_from_chars(k);
                let value = string_from_chars(v);
                let mut values: Vec<String> = Vec::new();
                values.push(value);
                proof {
                    assert forall|x: Seq<char>| string_set(values@).contains(x) == set![v@].contains(x) by {
                        if x == v@ {
                            assert(values@[0]@ == v@);
                        }
                    }
                    assert(string_set(values@) =~= set![v@]);
                }
                self.entries.push((key, values));
                proof {
                    let n = old_entries.len() as int;
                    assert(self.entries@[n].0@ == k@);
                    assert forall|x: Seq<char>| #[trigger] self.has_key(x) == (x == k@ || before.contains_key(x)) by {
                        if self.has_key(x) {
                            let w = choose|w: int| 0 <= w < self.entries@.len() && self.entries@[w].0@ == x;
                            if w < n {
                                assert(old_entries[w].0@ == x);
                            }
                        }
                        if before.contains_key(x) {
                            let w = choose|w: int| 0 <= w < old_entries.len() && old_entries[w].0@ == x;
                            assert(self.entries@[w].0@ == x);
                        }
                    }
                    assert forall|x: Seq<char>| #[trigger] self.has_key(x) implies self.view()[x] == before.insert(
                        k@,
                        set![v@],
                    )[x] by {
                        let w = self.index_of_key(x);
                        assert(0 <= w < self.entries@.len() && self.entries@[w].0@ == x);
                        if x == k@ {
                            if w < n {
                                assert(old_entries[w].0@ == k@);
                            }
                            assert(w == n);
                        } else {
                            let w0 = choose|w0: int| 0 <= w0 < old_entries.len() && old_entries[w0].0@ == x;
                            assert(self.entries@[w0].0@ == x);
                            assert(w == w0);
                        }
                    }
                    assert(self.view() =~= before.insert(k@, set![v@]));
                }
            },
        }
    }
}

/// Adds `v` to a list of distinct strings unless it is there.
pub fn insert_distinct(values: &mut Vec<String>, v: &[char])
    requires
        distinct_strings(old(values)@),
    ensures
        distinct_strings(final(values)@),
        string_set(final(values)@) == string_set(old(values)@).insert(v@),
{
    let mut i: usize = 0;
    while i < values.len()
        invariant
            i <= values@.len(),
            values@ == old(values)@,
            distinct_strings(values@),
            forall|j: int| 0 <= j < i ==> values@[j]@ != v@,
        decreases values.len() - i,
    {
        let existing = chars_of(values[i].as_str());
        if eq_chars(existing.as_slice(), v) {
            proof {
                assert(string_set(values@) =~= string_set(values@).insert(v@));
            }
            return;
        }
        i = i + 1;
    }
    let ghost before = values@;
    values.push(string_from_chars(v));
    proof {
        assert forall|x: Seq<char>| string_set(values@).contains(x) == string_set(before).insert(v@).contains(
            x,
        ) by {
            if string_set(before).contains(x) {
                let k = choose|k: int| 0 <= k < before.len() && before[k]@ == x;
                assert(values@[k] == before[k]);
            }
            if x == v@ {
                assert(values@[before.len() as int]@ == v@);
            }
            if string_set(values@).contains(x) {
                let k = choose|k: int| 0 <= k < values@.len() && values@[k]@ == x;
                if k < before.len() {
                    assert(values@[k] == before[k]);
                }
            }
        }
        assert(string_set(values@) =~= string_set(before).insert(v@));
    }
}

/// Names mapped to single strings; each name occurs once.
#[derive(Clone, Debug, PartialEq, Eq)]
pub struct PinMap {
    pub entries: Vec<(String, String)>,
}

impl PinMap {
    pub open spec fn wf(&self) -> bool {
        forall|i: int, j: int|
            0 <= i < self.entries@.len() && 0 <= j < self.entries@.len() && i != j
                ==> self.entries@[i].0@ != self.entries@[j].0@
    }

    pub open spec fn has_key(&self, k: Seq<char>) -> bool {
        exists|i: int| 0 <= i < self.entries@.len() && self.entries@[i].0@ == k
    }

    pub open spec fn index_of_key(&self, k: Seq<char>) -> int {
        choose|i: int| 0 <= i < self.entries@.len() && self.entries@[i].0@ == k
    }

    /// The map from each name to its string.
    pub open spec fn view(&self) -> Map<Seq<char>, Seq<char>> {
        Map::new(|k: Seq<char>| self.has_key(k), |k: Seq<char>| self.entries@[self.index_of_key(k)].1@)
    }

    pub fn new() -> (m: PinMap)
        ensures
            m.wf(),
            m.view() == Map::<Seq<char>, Seq<char>>::empty(),
    {
        let m = PinMap { entries: Vec::new() };
        assert(m.view() =~= Map::<Seq<char>, Seq<char>>::empty());
        m
    }

    pub fn contains(&self, k: &[char]) -> (b: bool)
        ensures
            b == self.view().contains_key(k@),
    {
        let mut i: usize = 0;
        while i < self.entries.len()
            invariant
                i <= self.entries@.len(),
                forall|j: int| 0 <= j < i ==> self.entries@[j].0@ != k@,
            decreases self.entries.len() - i,
        {
            let name = chars_of(self.entries[i].0.as_str());
            if eq_chars(name.as_slice(), k) {
                assert(self.has_key(k@));
                return true;
            }
            i = i + 1;
        }
        false
    }

    /// The string of `k`, if it has one.
    pub fn get(&self, k: &[char]) -> (r: Option<Vec<char>>)
        requires
            self.wf(),
        ensures
            r matches Some(v) ==> self.view().contains_key(k@) && self.view()[k@] == v@,
            r is None ==> !self.view().contains_key(k@),
    {
        let mut i: usize = 0;
        while i < self.entries.len()
            invariant
                self.wf(),
                i <= self.entries@.len(),
                forall|j: int| 0 <= j < i ==> self.entries@[j].0@ != k@,
            decreases self.entries.len() - i,
        {
            let name = chars_of(self.entries[i].0.as_str());
            if eq_chars(name.as_slice(), k) {
                proof {
                    assert(self.has_key(k@));
                    let w = self.index_of_key(k@);
                    assert(0 <= w < self.entries@.len() && self.entries@[w].0@ == k@);
                    assert(w == i);
                }
                return Some(chars_of(self.entries[i].1.as_str()));
            }
            i = i + 1;
        }
        None
    }

    /// Sets the string of `k`, replacing any it had.
    pub fn set(&mut self, k: &[char], v: &[char])
        requires
            old(self).wf(),
        ensures
            final(self).wf(),
            final(self).view() == old(self).view().insert(k@, v@),
    {
        let ghost before = self.view();
        let mut i: usize = 0;
        while i < self.entries.len()
            invariant
                self.wf(),
                before == self.view(),
                self.entries@ == old(self).entries@,
                i <= self.entries@.len(),
                forall|j: int| 0 <= j < i ==> self.entries@[j].0@ != k@,
            decreases self.entries.len() - i,
        {
            let name = chars_of(self.entries[i].0.as_str());
            if eq_chars(name.as_slice(), k) {
                let ghost old_entries = self.entries@;
                self.entries.set(i, (string_from_chars(k), string_from_chars(v)));
                proof {
                    assert(self.entries@[i as int].0@ == k@);
                    assert forall|j: int| 0 <= j < self.entries@.len() && j != i implies #[trigger] self.entries@[j]
                        == old_entries[j] by {}
                    assert forall|x: Seq<char>| #[trigger] self.has_key(x) == (x == k@ || before.contains_key(x)) by {
                        if self.has_key(x) {
                            let w = choose|w: int| 0 <= w < self.entries@.len() && self.entries@[w].0@ == x;
                            if w != i {
                                assert(old_entries[w].0@ == x);
                            } else {
                                assert(old_entries[w].0@ == x);
                            }
                        }
                        if before.contains_key(x) {
                            let w = choose|w: int| 0 <= w < old_entries.len() && old_entries[w].0@ == x;
                            if w != i {
                                assert(self.entries@[w].0@ == x);
                            } else {
                                assert(self.entries@[i as int].0@ == x);
                            }
                        }
                    }
                    assert forall|x: Seq<char>| #[trigger] self.has_key(x) implies self.view()[x] == before.insert(
                        k@,
                        v@,
                    )[x] by {
                        let w = self.index_of_key(x);
                        assert(0 <= w < self.entries@.len() && self.entries@[w].0@ == x);
                        if x == k@ {
                            assert(w == i);
                        } else {
                            let w0 = choose|w0: int| 0 <= w0 < old_entries.len() && old_entries[w0].0@ == x;
                            assert(w0 != i);
                            assert(self.entries@[w0].0@ == x);
                            assert(w == w0);
                        }
                    }
                    assert(self.view() =~= before.insert(k@, v@));
                }
                return;
            }
            i = i + 1;
        }
        self.insert_new(k, v);
    }

    /// Adds a name that is not there yet.
    pub fn insert_new(&mut self, k: &[char], v: &[char])
        requires
            old(self).wf(),
            !old(self).view().contains_key(k@),
        ensures
            final(self).wf(),
            final(self).view() == old(self).view().insert(k@, v@),
    {
        let ghost before = self.view();
        let ghost old_entries = self.entries@;
        self.entries.push((string_from_chars(k), string_from_chars(v)));
        proof {
            let n = old_entries.len() as int;
            assert(self.entries@[n].0@ == k@);
            assert forall|x: Seq<char>| #[trigger] self.has_key(x) == (x == k@ || before.contains_key(x)) by {
                if self.has_key(x) {
                    let w = choose|w: int| 0 <= w < self.entries@.len() && self.entries@[w].0@ == x;
                    if w < n {
                        assert(old_entries[w].0@ == x);
                    }
                }
                if before.contains_key(x) {
                    let w = choose|w: int| 0 <= w < old_entries.len() && old_entries[w].0@ == x;
                    assert(self.entries@[w].0@ == x);
                }
            }
            assert forall|x: Seq<char>| #[trigger] self.has_key(x) implies self.view()[x] == before.insert(
                k@,
                v@,
            )[x] by {
                let w = self.index_of_key(x);
                assert(0 <= w < self.entries@.len() && self.entries@[w].0@ == x);
                if x == k@ {
                    if w < n {
                        assert(old_entries[w].0@ == k@);
                    }
                    assert(w == n);
                } else {
                    let w0 = choose|w0: int| 0 <= w0 < old_entries.len() && old_entries[w0].0@ == x;
                    assert(self.entries@[w0].0@ == x);
                    assert(w == w0);
                }
            }
            assert(self.view() =~= before.insert(k@, v@));
        }
    }
}

/// The set holds exactly one string.
pub open spec fn is_single(s: Set<Seq<char>>) -> bool {
    exists|v: Seq<char>| s == set![v]
}

/// The string of a set that holds exactly one.
pub open spec fn the_one(s: Set<Seq<char>>) -> Seq<char> {
    choose|v: Seq<char>| s == set![v]
}

/// A list of distinct strings has exactly one element exactly when its set
/// holds exactly one string, and then it is that string.
pub proof fn lemma_single(v: Seq<String>)
    requires
        distinct_strings(v),
    ensures
        is_single(string_set(v)) <==> v.len() == 1,
        v.len() == 1 ==> the_one(string_set(v)) == v[0]@,
{
    if v.len() == 1 {
        assert forall|x: Seq<char>| string_set(v).contains(x) == set![v[0]@].contains(x) by {
            if x == v[0]@ {
                assert(v[0]@ == x);
            }
        }
        assert(string_set(v) =~= set![v[0]@]);
        let w = the_one(string_set(v));
        assert(string_set(v) == set![w]);
        assert(set![w].contains(v[0]@));
    } else if v.len() == 0 {
        if is_single(string_set(v)) {
            let w = choose|w: Seq<char>| string_set(v) == set![w];
            assert(set![w].contains(w));
            assert(string_set(v).contains(w));
        }
    } else {
        if is_single(string_set(v)) {
            let w = choose|w: Seq<char>| string_set(v) == set![w];
            assert(string_set(v).contains(v[0]@));
            assert(string_set(v).contains(v[1]@));
            assert(v[0]@ != v[1]@);
        }
    }
}

/// Two lists with the same strings at each index have the same set, and
/// the copy of a list without repeats has none.
pub proof fn lemma_same_strings(a: Seq<String>, b: Seq<String>)
    requires
        a.len() == b.len(),
        forall|i: int| 0 <= i < a.len() ==> #[trigger] a[i]@ == b[i]@,
    ensures
        string_set(a) == string_set(b),
        distinct_strings(b) ==> distinct_strings(a),
{
    assert forall|x: Seq<char>| string_set(a).contains(x) == string_set(b).contains(x) by {
        if string_set(a).contains(x) {
            let k = choose|k: int| 0 <= k < a.len() && a[k]@ == x;
            assert(b[k]@ == x);
        }
        if string_set(b).contains(x) {
            let k = choose|k: int| 0 <= k < b.len() && b[k]@ == x;
            assert(a[k]@ == x);
        }
    }
    assert(string_set(a) =~= string_set(b));
    if distinct_strings(b) {
        assert forall|i: int, j: int| 0 <= i < a.len() && 0 <= j < a.len() && i != j implies a[i]@ != a[j]@ by {
            assert(a[i]@ == b[i]@);
            assert(a[j]@ == b[j]@);
        }
    }
}

} // verus!
