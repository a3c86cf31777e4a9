//! Matching PEP 440 style versions against comma separated requirements such
//! as `>=1.0, <2`, and the pre-release rules around them.
use vstd::prelude::*;
use std::cmp::Ordering;
use crate::text::{
    chars_of, matches_at, occurs_at, seqs_of, split_char, split_chars, starts_with,
    string_from_chars, suffix_from, trim, trim_chars, trim_set, trim_set_chars, trim_start,
    trim_start_chars, trimmed_nonempty, trimmed_nonempty_pieces,
};
use crate::pypi_key::{comparable_pypi_version, pypi_key, pypi_version_ok, pypi_version_readable, PypiReleasePhase};
use crate::pypi_version::{
    compare_pypi_versions, compare_pypi_versions_antisymmetric, key_order, ordering_value,
    prerelease_below_its_release, version_order,
};
use crate::pypi_key::PypiKeyModel;

verus! {

/// The character sequences of a list of strings.
pub open spec fn strings_view(v: Seq<String>) -> Seq<Seq<char>> {
    Seq::new(v.len(), |i: int| v[i]@)
}

/// The comparison operators, in the order in which they are tried.
pub open spec fn comparator_ops() -> Seq<Seq<char>> {
    seq![">="@, "<="@, "=="@, "!="@, "~="@, ">"@, "<"@]
}

/// Index of the first operator of `ops` that `c` starts with.
pub open spec fn first_prefix(c: Seq<char>, ops: Seq<Seq<char>>) -> Option<int>
    decreases ops.len(),
{
    if ops.len() == 0 {
        None
    } else if starts_with(c, ops[0]) {
        Some(0)
    } else {
        match first_prefix(c, ops.drop_first()) {
            Some(k) => Some(k + 1),
            None => None,
        }
    }
}

/// What an operator (by its index in [`comparator_ops`]) accepts for an order.
pub open spec fn op_accepts(k: int, o: int) -> bool {
    if k == 0 {
        o >= 0
    } else if k == 1 {
        o <= 0
    } else if k == 2 {
        o == 0
    } else if k == 3 {
        o != 0
    } else if k == 4 {
        o >= 0
    } else if k == 5 {
        o > 0
    } else {
        o < 0
    }
}

/// `version <op> operand`; `None` where comparing would panic.
pub open spec fn compare_with(version: Seq<char>, operand: Seq<char>, k: int) -> Option<bool> {
    if pypi_version_ok(version) && pypi_version_ok(operand) {
        Some(op_accepts(k, version_order(version, operand)))
    } else {
        None
    }
}

/// Whether `version` satisfies one comparator such as `>=1.2`; a bare version
/// means equality.  `None` where reading the version would panic.
pub open spec fn comparator_satisfied(version: Seq<char>, comparator: Seq<char>) -> Option<bool> {
    match first_prefix(comparator, comparator_ops()) {
        Some(k) => compare_with(
            version,
            trim(comparator.skip(comparator_ops()[k].len() as int)),
            k,
        ),
        None => compare_with(version, comparator, 2),
    }
}

/// All comparators hold, tried in order and stopping at the first that fails.
pub open spec fn all_comparators(version: Seq<char>, parts: Seq<Seq<char>>) -> Option<bool>
    decreases parts.len(),
{
    if parts.len() == 0 {
        Some(true)
    } else {
        match comparator_satisfied(version, parts[0]) {
            None => None,
            Some(false) => Some(false),
            Some(true) => all_comparators(version, parts.drop_first()),
        }
    }
}

pub open spec fn paren_set() -> Seq<char> {
    seq!['(', ')']
}

/// The comparators of a requirement: parentheses trimmed, split on commas,
/// each trimmed, empty ones dropped.
pub open spec fn requirement_parts(requirement: Seq<char>) -> Seq<Seq<char>> {
    trimmed_nonempty(split_char(trim_set(requirement, paren_set()), ','))
}

/// Whether `version` satisfies `requirement`; an empty requirement or `*`
/// accepts every version.
pub open spec fn version_satisfies(version: Seq<char>, requirement: Seq<char>) -> Option<bool> {
    let r = trim(requirement);
    if r.len() == 0 || r == "*"@ {
        Some(true)
    } else {
        all_comparators(version, requirement_parts(r))
    }
}

/// The version a comparator names: the operator (`===` included) removed.
pub open spec fn comparator_version(comparator: Seq<char>) -> Seq<char> {
    match first_prefix(comparator, version_ops()) {
        Some(k) => trim(comparator.skip(version_ops()[k].len() as int)),
        None => trim(comparator),
    }
}

pub open spec fn version_ops() -> Seq<Seq<char>> {
    seq![">="@, "<="@, "==="@, "=="@, "!="@, "~="@, ">"@, "<"@]
}

/// A pre-release is any version whose phase is not final.
pub open spec fn is_prerelease(version: Seq<char>) -> bool {
    !(pypi_key(version).unwrap().phase is Final)
}

/// Some of the versions is a pre-release, tried in order; `None` where
/// computing a key would panic first.
pub open spec fn any_prerelease(versions: Seq<Seq<char>>) -> Option<bool>
    decreases versions.len(),
{
    if versions.len() == 0 {
        Some(false)
    } else if !pypi_version_ok(versions[0]) {
        None
    } else if is_prerelease(versions[0]) {
        Some(true)
    } else {
        any_prerelease(versions.drop_first())
    }
}

/// Some of the versions is final, tried in order.
pub open spec fn any_final(versions: Seq<Seq<char>>) -> Option<bool>
    decreases versions.len(),
{
    if versions.len() == 0 {
        Some(false)
    } else if !pypi_version_ok(versions[0]) {
        None
    } else if !is_prerelease(versions[0]) {
        Some(true)
    } else {
        any_final(versions.drop_first())
    }
}

/// The requirement names a pre-release in one of its comparators.
pub open spec fn mentions_prerelease(requirement: Seq<char>) -> Option<bool> {
    any_prerelease(
        Seq::new(
            requirement_parts(requirement).len(),
            |i: int| comparator_version(requirement_parts(requirement)[i]),
        ),
    )
}

/// Pre-releases are allowed: asked for, named by the requirement, or the only
/// versions there are.
pub open spec fn prereleases_allowed(
    requirement: Seq<char>,
    allow: bool,
    versions: Seq<Seq<char>>,
) -> Option<bool> {
    if allow {
        Some(true)
    } else {
        match mentions_prerelease(requirement) {
            None => None,
            Some(true) => Some(true),
            Some(false) => match any_final(versions) {
                None => None,
                Some(b) => Some(!b),
            },
        }
    }
}

pub open spec fn exact_version_char(c: char) -> bool {
    c == '<' || c == '>' || c == '=' || c == '!' || c == '~' || c == ',' || c == '*' || c == ' '
}

/// A requirement with an exact pin: some comma separated part starts with
/// `==` once leading whitespace is dropped.
pub open spec fn exact_requirement(requirement: Seq<char>) -> bool {
    exists|i: int|
        0 <= i < split_char(requirement, ',').len() && starts_with(
            trim_start(#[trigger] split_char(requirement, ',')[i]),
            "=="@,
        )
}

// ---------------------------------------------------------------------------
// Implementation
// ---------------------------------------------------------------------------

fn word_list(words: Vec<&str>) -> (out: Vec<Vec<char>>)
    ensures
        seqs_of(out@) == Seq::new(words@.len(), |i: int| words@[i]@),
{
    let mut out: Vec<Vec<char>> = Vec::new();
    let mut i: usize = 0;
    while i < words.len()
        invariant
            i <= words@.len(),
            out@.len() == i,
            forall|k: int| 0 <= k < i ==> #[trigger] out@[k]@ == words@[k]@,
        decreases words.len() - i,
    {
        out.push(chars_of(words[i]));
        i = i + 1;
    }
    assert(seqs_of(out@) =~= Seq::new(words@.len(), |k: int| words@[k]@));
    out
}

/// Index and length of the first operator that `c` starts with.
fn first_operator(c: &[char], ops: &Vec<Vec<char>>) -> (r: Option<(usize, usize)>)
    ensures
        r matches Some((k, n)) ==> first_prefix(c@, seqs_of(ops@)) == Some(k as int) && k
            < ops@.len() && n == ops@[k as int]@.len() && n <= c@.len(),
        r is None ==> first_prefix(c@, seqs_of(ops@)) is None,
{
    let ghost all = seqs_of(ops@);
    let mut j: usize = 0;
    assert(all.skip(0) =~= all);
    while j < ops.len()
        invariant
            j <= ops@.len(),
            all == seqs_of(ops@),
            first_prefix(c@, all) == (match first_prefix(c@, all.skip(j as int)) {
                Some(k) => Some(k + j),
                None => None,
            }),
        decreases ops.len() - j,
    {
        proof {
            assert(all.skip(j as int)[0] == ops@[j as int]@);
            assert(all.skip(j as int).drop_first() =~= all.skip(j + 1));
        }
        let hit = matches_at(c, ops[j].as_slice(), 0);
        proof {
            if ops@[j as int]@.len() <= c@.len() {
                assert(c@.subrange(0, ops@[j as int]@.len() as int) == c@.take(
                    ops@[j as int]@.len() as int,
                ));
            }
        }
        if hit {
            return Some((j, ops[j].len()));
        }
        j = j + 1;
    }
    proof {
        assert(all.skip(j as int).len() == 0);
    }
    None
}

/// The operator of a comparator (if any) and the trimmed operand after it.
fn split_comparator(comparator: &[char]) -> (r: (Option<usize>, Vec<char>))
    ensures
        r.0 matches Some(k) ==> first_prefix(comparator@, comparator_ops()) == Some(k as int)
            && r.1@ == trim(comparator@.skip(comparator_ops()[k as int].len() as int)),
        r.0 is None ==> first_prefix(comparator@, comparator_ops()) is None && r.1@
            == comparator@,
{
    let ops = word_list(vec![">=", "<=", "==", "!=", "~=", ">", "<"]);
    assert(seqs_of(ops@) =~= comparator_ops());
    match first_operator(comparator, &ops) {
        Some((k, n)) => {
            let rest = suffix_from(comparator, n);
            (Some(k), trim_chars(rest.as_slice()))
        },
        None => (None, crate::text::slice_of(comparator, 0, comparator.len())),
    }
}

/// -1, 0 or 1 for an ordering.
fn ordering_sign(o: Ordering) -> (v: i8)
    ensures
        v == ordering_value(o),
{
    match o {
        Ordering::Less => -1,
        Ordering::Equal => 0,
        Ordering::Greater => 1,
    }
}

/// Whether an operator index accepts an order value.
fn accepts(k: usize, v: i8) -> (b: bool)
    requires
        -1 <= v <= 1,
    ensures
        b == op_accepts(k as int, v as int),
{
    if v < 0 {
        k == 1 || k == 3 || k >= 6
    } else if v == 0 {
        k == 0 || k == 1 || k == 2 || k == 4
    } else {
        k == 0 || k == 3 || k == 4 || k == 5
    }
}

/// `pypi_comparator_satisfied`: whether `version` satisfies one comparator.
pub fn pypi_comparator_satisfied(version: &str, comparator: &str) -> (b: bool)
    requires
        comparator_satisfied(version@, comparator@) is Some,
    ensures
        Some(b) == comparator_satisfied(version@, comparator@),
{
    let c = chars_of(comparator);
    let (op, operand) = split_comparator(c.as_slice());
    let operand_text = string_from_chars(operand.as_slice());
    let k = match op {
        Some(k) => k,
        None => 2,
    };
    let o = compare_pypi_versions(version, operand_text.as_str());
    accepts(k, ordering_sign(o))
}

/// The comparators of a requirement (parentheses trimmed, split on commas,
/// trimmed, empty ones dropped).
pub fn pypi_requirement_parts(requirement: &[char]) -> (out: Vec<Vec<char>>)
    ensures
        seqs_of(out@) == requirement_parts(requirement@),
{
    let parens = vec!['(', ')'];
    assert(parens@ =~= paren_set());
    let inner = trim_set_chars(requirement, parens.as_slice());
    let pieces = split_chars(inner.as_slice(), ',');
    trimmed_nonempty_pieces(&pieces)
}

/// `pypi_version_satisfies`: whether `version` satisfies a comma separated
/// requirement.
pub fn pypi_version_satisfies(version: &str, requirement: &str) -> (b: bool)
    requires
        version_satisfies(version@, requirement@) is Some,
    ensures
        Some(b) == version_satisfies(version@, requirement@),
{
    let req = chars_of(requirement);
    let r = trim_chars(req.as_slice());
    let star = chars_of("*");
    if r.len() == 0 || crate::text::eq_chars(r.as_slice(), star.as_slice()) {
        return true;
    }
    let parts = pypi_requirement_parts(r.as_slice());
    let ghost ps = seqs_of(parts@);
    let mut i: usize = 0;
    assert(ps.skip(0) =~= ps);
    while i < parts.len()
        invariant
            i <= parts@.len(),
            ps == seqs_of(parts@),
            version_satisfies(version@, requirement@) == all_comparators(version@, ps.skip(i as int)),
            all_comparators(version@, ps.skip(i as int)) is Some,
        decreases parts.len() - i,
    {
        proof {
            assert(ps.skip(i as int)[0] == parts@[i as int]@);
            assert(ps.skip(i as int).drop_first() =~= ps.skip(i + 1));
        }
        let part = string_from_chars(parts[i].as_slice());
        if !pypi_comparator_satisfied(version, part.as_str()) {
            return false;
        }
        i = i + 1;
    }
    true
}

/// `pypi_comparator_version`: the version a comparator names.
pub fn pypi_comparator_version(comparator: &[char]) -> (r: Option<Vec<char>>)
    ensures
        r matches Some(v) && v@ == comparator_version(comparator@),
{
    let ops = word_list(vec![">=", "<=", "===", "==", "!=", "~=", ">", "<"]);
    assert(seqs_of(ops@) =~= version_ops());
    match first_operator(comparator, &ops) {
        Some((_k, n)) => {
            let rest = suffix_from(comparator, n);
            Some(trim_chars(rest.as_slice()))
        },
        None => Some(trim_chars(comparator)),
    }
}

/// `pypi_version_is_prerelease`: the version's phase is not final.
pub fn pypi_version_is_prerelease(version: &str) -> (b: bool)
    requires
        pypi_version_ok(version@),
    ensures
        b == is_prerelease(version@),
{
    let k = comparable_pypi_version(version);
    match k.phase {
        PypiReleasePhase::Final => false,
        _ => true,
    }
}

/// `pypi_requirement_mentions_prerelease`: a comparator of the requirement
/// names a pre-release.
pub fn pypi_requirement_mentions_prerelease(requirement: &str) -> (b: bool)
    requires
        mentions_prerelease(requirement@) is Some,
    ensures
        Some(b) == mentions_prerelease(requirement@),
{
    let req = chars_of(requirement);
    let parts = pypi_requirement_parts(req.as_slice());
    let ghost vs = Seq::new(
        requirement_parts(requirement@).len(),
        |i: int| comparator_version(requirement_parts(requirement@)[i]),
    );
    let mut i: usize = 0;
    assert(vs.skip(0) =~= vs);
    while i < parts.len()
        invariant
            i <= parts@.len(),
            seqs_of(parts@) == requirement_parts(requirement@),
            vs == Seq::new(
                requirement_parts(requirement@).len(),
                |i: int| comparator_version(requirement_parts(requirement@)[i]),
            ),
            mentions_prerelease(requirement@) == any_prerelease(vs.skip(i as int)),
            any_prerelease(vs.skip(i as int)) is Some,
        decreases parts.len() - i,
    {
        proof {
            assert(vs.skip(i as int).drop_first() =~= vs.skip(i + 1));
        }
        let v = match pypi_comparator_version(parts[i].as_slice()) {
            Some(v) => v,
            None => Vec::new(),
        };
        proof {
            assert(vs.skip(i as int)[0] == v@);
        }
        let text = string_from_chars(v.as_slice());
        if pypi_version_is_prerelease(text.as_str()) {
            return true;
        }
        i = i + 1;
    }
    false
}

/// `pypi_prereleases_allowed`: pre-releases are asked for, named by the
/// requirement, or all that the candidate versions offer.
pub fn pypi_prereleases_allowed(
    requirement: &str,
    allow_prereleases: bool,
    versions: &Vec<String>,
) -> (b: bool)
    requires
        prereleases_allowed(
            requirement@,
            allow_prereleases,
            strings_view(versions@),
        ) is Some,
    ensures
        Some(b) == prereleases_allowed(
            requirement@,
            allow_prereleases,
            strings_view(versions@),
        ),
{
    if allow_prereleases {
        return true;
    }
    if pypi_requirement_mentions_prerelease(requirement) {
        return true;
    }
    let ghost vs = strings_view(versions@);
    let mut i: usize = 0;
    assert(vs.skip(0) =~= vs);
    while i < versions.len()
        invariant
            i <= versions@.len(),
            vs == strings_view(versions@),
            any_final(vs) == any_final(vs.skip(i as int)),
            any_final(vs.skip(i as int)) is Some,
            mentions_prerelease(requirement@) == Some(false),
            !allow_prereleases,
        decreases versions.len() - i,
    {
        proof {
            assert(vs.skip(i as int)[0] == versions@[i as int]@);
            assert(vs.skip(i as int).drop_first() =~= vs.skip(i + 1));
        }
        if !pypi_version_is_prerelease(versions[i].as_str()) {
            proof {
                assert(any_final(vs.skip(i as int)) == Some(true));
            }
            return false;
        }
        i = i + 1;
    }
    true
}

/// `is_exact_pypi_version`: the requirement holds no operator, comma, star or
/// space.
pub fn is_exact_pypi_version(requirement: &str) -> (b: bool)
    ensures
        b == forall|j: int| 0 <= j < requirement@.len() ==> !exact_version_char(requirement@[j]),
{
    let r = chars_of(requirement);
    let mut i: usize = 0;
    while i < r.len()
        invariant
            r@ == requirement@,
            i <= r@.len(),
            forall|j: int| 0 <= j < i ==> !exact_version_char(r@[j]),
        decreases r.len() - i,
    {
        let ch = r[i];
        if ch == '<' || ch == '>' || ch == '=' || ch == '!' || ch == '~' || ch == ',' || ch == '*'
            || ch == ' ' {
            return false;
        }
        i = i + 1;
    }
    true
}

/// `is_exact_pypi_requirement`: some comma separated part is an `==` pin.
pub fn is_exact_pypi_requirement(requirement: &str) -> (b: bool)
    ensures
        b == exact_requirement(requirement@),
{
    let r = chars_of(requirement);
    let pieces = split_chars(r.as_slice(), ',');
    let eq = chars_of("==");
    let mut i: usize = 0;
    while i < pieces.len()
        invariant
            i <= pieces@.len(),
            seqs_of(pieces@) == split_char(requirement@, ','),
            eq@ == "=="@,
            forall|j: int|
                0 <= j < i ==> !starts_with(trim_start(#[trigger] split_char(requirement@, ',')[j]), "=="@),
        decreases pieces.len() - i,
    {
        let t = trim_start_chars(pieces[i].as_slice());
        proof {
            assert(split_char(requirement@, ',')[i as int] == pieces@[i as int]@);
        }
        if crate::text::starts_with_chars(t.as_slice(), eq.as_slice()) {
            return true;
        }
        i = i + 1;
    }
    false
}

// ---------------------------------------------------------------------------
// Laws
// ---------------------------------------------------------------------------

/// A readable version is a pre-release exactly when it sorts below its own
/// release, the same version in the final phase: dev, alpha, beta and rc
/// versions are pre-releases, final and post releases are not.
pub proof fn prerelease_iff_below_release(version: Seq<char>)
    requires
        pypi_version_ok(version),
    ensures
        is_prerelease(version) <==> key_order(
            pypi_key(version)->0,
            PypiKeyModel { phase: PypiReleasePhase::Final, ..pypi_key(version)->0 },
        ) < 0,
{
    prerelease_below_its_release(pypi_key(version)->0);
}

proof fn lemma_op_prefix(op: Seq<char>, w: Seq<char>, other: Seq<char>)
    requires
        other.len() > 0,
        op.len() > 0,
        other[0] != op[0],
    ensures
        !starts_with(op + w, other),
{
    if starts_with(op + w, other) {
        assert((op + w).take(other.len() as int)[0] == other[0]);
        assert((op + w)[0] == op[0]);
    }
}

proof fn lemma_op_starts(op: Seq<char>, w: Seq<char>)
    ensures
        starts_with(op + w, op),
        (op + w).skip(op.len() as int) == w,
{
    assert((op + w).take(op.len() as int) =~= op);
    assert((op + w).skip(op.len() as int) =~= w);
}

/// Each comparison operator compares a readable version with the version it
/// names by the order of versions: `<=` holds exactly when the version is
/// at most the named one, `>=` when at least, `==` when equal, `!=` when
/// not, `~=` when at least, `<` and `>` when strictly below or above.  So a version satisfies
/// `<=V`, `>=V` and `==V` for any V it compares equal to.
pub proof fn comparators_follow_the_version_order(v: Seq<char>, w: Seq<char>)
    requires
        pypi_version_ok(v),
        pypi_version_ok(w),
        w == trim(w),
        w.len() > 0,
        w[0] != '=',
    ensures
        comparator_satisfied(v, "<="@ + w) == Some(version_order(v, w) <= 0),
        comparator_satisfied(v, ">="@ + w) == Some(version_order(v, w) >= 0),
        comparator_satisfied(v, "=="@ + w) == Some(version_order(v, w) == 0),
        comparator_satisfied(v, "!="@ + w) == Some(version_order(v, w) != 0),
        comparator_satisfied(v, "~="@ + w) == Some(version_order(v, w) >= 0),
        comparator_satisfied(v, "<"@ + w) == Some(version_order(v, w) < 0),
        comparator_satisfied(v, ">"@ + w) == Some(version_order(v, w) > 0),
        version_order(v, w) == 0 ==> comparator_satisfied(v, "<="@ + w) == Some(true)
            && comparator_satisfied(v, ">="@ + w) == Some(true) && comparator_satisfied(v, "=="@ + w)
            == Some(true),
{
    reveal_strlit("<=");
    reveal_strlit(">=");
    reveal_strlit("==");
    reveal_strlit("!=");
    reveal_strlit("~=");
    reveal_strlit("<");
    reveal_strlit(">");
    reveal_with_fuel(first_prefix, 8);
    let ops = comparator_ops();
    assert(ops[0] == ">="@ && ops[1] == "<="@ && ops[2] == "=="@ && ops[3] == "!="@ && ops[4] == "~="@
        && ops[5] == ">"@ && ops[6] == "<"@);
    // `<=`
    let c = "<="@ + w;
    lemma_op_prefix("<="@, w, ">="@);
    lemma_op_starts("<="@, w);
    assert(ops.drop_first()[0] == "<="@);
    assert(first_prefix(c, ops) == Some(1int));
    // `>=`
    lemma_op_starts(">="@, w);
    assert(first_prefix(">="@ + w, ops) == Some(0int));
    // `==`
    let c2 = "=="@ + w;
    lemma_op_prefix("=="@, w, ">="@);
    lemma_op_prefix("=="@, w, "<="@);
    lemma_op_starts("=="@, w);
    assert(first_prefix(c2, ops.drop_first().drop_first()) == Some(0int));
    assert(first_prefix(c2, ops) == Some(2int));
    // `!=`
    let c3 = "!="@ + w;
    lemma_op_prefix("!="@, w, ">="@);
    lemma_op_prefix("!="@, w, "<="@);
    lemma_op_prefix("!="@, w, "=="@);
    lemma_op_starts("!="@, w);
    assert(first_prefix(c3, ops) == Some(3int));
    // `~=`
    let c4 = "~="@ + w;
    lemma_op_prefix("~="@, w, ">="@);
    lemma_op_prefix("~="@, w, "<="@);
    lemma_op_prefix("~="@, w, "=="@);
    lemma_op_prefix("~="@, w, "!="@);
    lemma_op_starts("~="@, w);
    assert(first_prefix(c4, ops) == Some(4int));
    // `>`
    let c5 = ">"@ + w;
    assert(!starts_with(c5, ">="@)) by {
        if starts_with(c5, ">="@) {
            assert(c5.take(2)[1] == '=');
            assert(c5[1] == w[0]);
        }
    }
    lemma_op_prefix(">"@, w, "<="@);
    lemma_op_prefix(">"@, w, "=="@);
    lemma_op_prefix(">"@, w, "!="@);
    lemma_op_prefix(">"@, w, "~="@);
    lemma_op_starts(">"@, w);
    assert(first_prefix(c5, ops) == Some(5int));
    // `<`
    let c6 = "<"@ + w;
    assert(!starts_with(c6, "<="@)) by {
        if starts_with(c6, "<="@) {
            assert(c6.take(2)[1] == '=');
            assert(c6[1] == w[0]);
        }
    }
    lemma_op_prefix("<"@, w, ">="@);
    lemma_op_prefix("<"@, w, "=="@);
    lemma_op_prefix("<"@, w, "!="@);
    lemma_op_prefix("<"@, w, "~="@);
    lemma_op_prefix("<"@, w, ">"@);
    lemma_op_starts("<"@, w);
    assert(first_prefix(c6, ops) == Some(6int));
    compare_pypi_versions_antisymmetric(v, w);
}

// ---------------------------------------------------------------------------
// Checked forms: `None` exactly where the unchecked forms would panic
// ---------------------------------------------------------------------------

/// Whether `version` satisfies one comparator, or `None` where one of the
/// two versions cannot be read.
pub fn pypi_comparator_satisfied_checked(version: &str, comparator: &str) -> (r: Option<bool>)
    ensures
        r == comparator_satisfied(version@, comparator@),
{
    let c = chars_of(comparator);
    let (op, operand) = split_comparator(c.as_slice());
    let operand_text = string_from_chars(operand.as_slice());
    if !pypi_version_readable(version) || !pypi_version_readable(operand_text.as_str()) {
        return None;
    }
    Some(pypi_comparator_satisfied(version, comparator))
}

/// Whether `version` satisfies a requirement, or `None` where a version on
/// the way cannot be read.
pub fn pypi_version_satisfies_checked(version: &str, requirement: &str) -> (r: Option<bool>)
    ensures
        r == version_satisfies(version@, requirement@),
{
    let req = chars_of(requirement);
    let r = trim_chars(req.as_slice());
    let star = chars_of("*");
    if r.len() == 0 || crate::text::eq_chars(r.as_slice(), star.as_slice()) {
        return Some(true);
    }
    let parts = pypi_requirement_parts(r.as_slice());
    let ghost ps = seqs_of(parts@);
    let mut i: usize = 0;
    assert(ps.skip(0) =~= ps);
    while i < parts.len()
        invariant
            i <= parts@.len(),
            ps == seqs_of(parts@),
            version_satisfies(version@, requirement@) == all_comparators(version@, ps.skip(i as int)),
        decreases parts.len() - i,
    {
        proof {
            assert(ps.skip(i as int)[0] == parts@[i as int]@);
            assert(ps.skip(i as int).drop_first() =~= ps.skip(i + 1));
        }
        let part = string_from_chars(parts[i].as_slice());
        match pypi_comparator_satisfied_checked(version, part.as_str()) {
            None => {
                return None;
            },
            Some(false) => {
                return Some(false);
            },
            Some(true) => {},
        }
        i = i + 1;
    }
    assert(ps.skip(i as int) =~= Seq::<Seq<char>>::empty());
    Some(true)
}

/// Whether some version is final, or `None` where a version met first
/// cannot be read.
pub fn pypi_any_final_checked(versions: &Vec<String>) -> (r: Option<bool>)
    ensures
        r == any_final(strings_view(versions@)),
{
    let ghost vs = strings_view(versions@);
    let mut i: usize = 0;
    assert(vs.skip(0) =~= vs);
    while i < versions.len()
        invariant
            i <= versions@.len(),
            vs == strings_view(versions@),
            any_final(vs) == any_final(vs.skip(i as int)),
        decreases versions.len() - i,
    {
        proof {
            assert(vs.skip(i as int)[0] == versions@[i as int]@);
            assert(vs.skip(i as int).drop_first() =~= vs.skip(i + 1));
        }
        if !pypi_version_readable(versions[i].as_str()) {
            return None;
        }
        if !pypi_version_is_prerelease(versions[i].as_str()) {
            return Some(true);
        }
        i = i + 1;
    }
    assert(vs.skip(i as int) =~= Seq::<Seq<char>>::empty());
    Some(false)
}

/// Whether the requirement names a pre-release, or `None` where a version
/// it names first cannot be read.
pub fn pypi_mentions_prerelease_checked(requirement: &str) -> (r: Option<bool>)
    ensures
        r == mentions_prerelease(requirement@),
{
    let req = chars_of(requirement);
    let parts = pypi_requirement_parts(req.as_slice());
    let ghost vs = Seq::new(
        requirement_parts(requirement@).len(),
        |i: int| comparator_version(requirement_parts(requirement@)[i]),
    );
    let mut i: usize = 0;
    assert(vs.skip(0) =~= vs);
    while i < parts.len()
        invariant
            i <= parts@.len(),
            seqs_of(parts@) == requirement_parts(requirement@),
            vs == Seq::new(
                requirement_parts(requirement@).len(),
                |i: int| comparator_version(requirement_parts(requirement@)[i]),
            ),
            mentions_prerelease(requirement@) == any_prerelease(vs.skip(i as int)),
        decreases parts.len() - i,
    {
        proof {
            assert(vs.skip(i as int).drop_first() =~= vs.skip(i + 1));
        }
        let v = match pypi_comparator_version(parts[i].as_slice()) {
            Some(v) => v,
            None => Vec::new(),
        };
        proof {
            assert(vs.skip(i as int)[0] == v@);
        }
        let text = string_from_chars(v.as_slice());
        if !pypi_version_readable(text.as_str()) {
            return None;
        }
        if pypi_version_is_prerelease(text.as_str()) {
            return Some(true);
        }
        i = i + 1;
    }
    assert(vs.skip(i as int) =~= Seq::<Seq<char>>::empty());
    Some(false)
}

/// Whether pre-releases are allowed, or `None` where a version it reads
/// cannot be read.
pub fn pypi_prereleases_allowed_checked(requirement: &str, allow_prereleases: bool, versions: &Vec<String>) -> (r:
    Option<bool>)
    ensures
        r == prereleases_allowed(requirement@, allow_prereleases, strings_view(versions@)),
{
    if allow_prereleases {
        return Some(true);
    }
    match pypi_mentions_prerelease_checked(requirement) {
        None => None,
        Some(true) => Some(true),
        Some(false) => match pypi_any_final_checked(versions) {
            None => None,
            Some(b) => Some(!b),
        },
    }
}

} // verus!
