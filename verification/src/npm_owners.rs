//! npm package owners: the maintainers a packument lists, sorted by name,
//! and what adding or removing an owner does to them.
use vstd::prelude::*;
use crate::error::OmcRegistryError;
use crate::json::{text_field, JsonValue, JsonView};
use crate::npm_arguments::{fixed, message};
use crate::pypi_listing::{lemma_text_less_strict, lemma_text_less_transitive, text_less, text_less_exec};
use crate::text::{chars_of, eq_chars, string_from_chars, trim, trim_chars};

verus! {

/// A registry user: e-mail and user name, each when known.
#[derive(Clone, Debug, PartialEq, Eq)]
pub struct NpmSearchUser {
    pub email: Option<String>,
    pub username: Option<String>,
}

/// The text of an optional string.
pub open spec fn opt_text(o: Option<String>) -> Option<Seq<char>> {
    match o {
        Some(s) => Some(s@),
        None => None,
    }
}

impl View for NpmSearchUser {
    type V = (Option<Seq<char>>, Option<Seq<char>>);

    open spec fn view(&self) -> (Option<Seq<char>>, Option<Seq<char>>) {
        (opt_text(self.email), opt_text(self.username))
    }
}

/// The views of users.
pub open spec fn users_view(s: Seq<NpmSearchUser>) -> Seq<(Option<Seq<char>>, Option<Seq<char>>)> {
    Seq::new(s.len(), |i: int| s[i]@)
}

fn copy_text(s: &Option<String>) -> (r: Option<String>)
    ensures
        opt_text(r) == opt_text(*s),
{
    match s {
        Some(t) => Some(t.clone()),
        None => None,
    }
}

fn copy_user(u: &NpmSearchUser) -> (r: NpmSearchUser)
    ensures
        r@ == u@,
{
    NpmSearchUser { email: copy_text(&u.email), username: copy_text(&u.username) }
}

// ---------------------------------------------------------------------------
// Order by name
// ---------------------------------------------------------------------------

/// The order of `Option<String>`: no name first, then names as texts.
pub open spec fn name_less(a: Option<Seq<char>>, b: Option<Seq<char>>) -> bool {
    match (a, b) {
        (None, Some(_)) => true,
        (Some(x), Some(y)) => text_less(x, y),
        _ => false,
    }
}

/// `u` placed into `s` after every user whose name it does not sort before.
pub open spec fn insert_by_name(
    s: Seq<(Option<Seq<char>>, Option<Seq<char>>)>,
    u: (Option<Seq<char>>, Option<Seq<char>>),
) -> Seq<(Option<Seq<char>>, Option<Seq<char>>)>
    decreases s.len(),
{
    if s.len() == 0 {
        seq![u]
    } else if name_less(u.1, s.last().1) {
        insert_by_name(s.drop_last(), u).push(s.last())
    } else {
        s.push(u)
    }
}

/// The users in a stable sort by name.
pub open spec fn sort_by_name(s: Seq<(Option<Seq<char>>, Option<Seq<char>>)>) -> Seq<
    (Option<Seq<char>>, Option<Seq<char>>),
>
    decreases s.len(),
{
    if s.len() == 0 {
        s
    } else {
        insert_by_name(sort_by_name(s.drop_last()), s.last())
    }
}

/// No user is followed by one whose name sorts before it.
pub open spec fn names_ascending(s: Seq<(Option<Seq<char>>, Option<Seq<char>>)>) -> bool {
    forall|i: int, j: int| 0 <= i < j < s.len() ==> !name_less(#[trigger] s[j].1, #[trigger] s[i].1)
}

proof fn lemma_name_order(a: Option<Seq<char>>, b: Option<Seq<char>>, c: Option<Seq<char>>)
    ensures
        !(name_less(a, b) && name_less(b, a)),
        name_less(a, b) && name_less(b, c) ==> name_less(a, c),
        !name_less(a, b) && !name_less(b, c) ==> !name_less(a, c),
        !name_less(a, b) ==> name_less(b, a) || a == b,
{
    if a is Some && b is Some {
        lemma_text_less_strict(a->0, b->0);
    }
    if b is Some && c is Some {
        lemma_text_less_strict(b->0, c->0);
    }
    if a is Some && c is Some {
        lemma_text_less_strict(a->0, c->0);
    }
    if a is Some && b is Some && c is Some {
        if text_less(a->0, b->0) && text_less(b->0, c->0) {
            lemma_text_less_transitive(a->0, b->0, c->0);
        }
        if text_less(c->0, b->0) && text_less(b->0, a->0) {
            lemma_text_less_transitive(c->0, b->0, a->0);
        }
    }
}

proof fn lemma_insert_by_name_at(
    s: Seq<(Option<Seq<char>>, Option<Seq<char>>)>,
    u: (Option<Seq<char>>, Option<Seq<char>>),
    p: int,
)
    requires
        0 <= p <= s.len(),
        forall|k: int| p <= k < s.len() ==> name_less(u.1, #[trigger] s[k].1),
        p > 0 ==> !name_less(u.1, s[p - 1].1),
    ensures
        insert_by_name(s, u) == s.take(p).push(u) + s.skip(p),
    decreases s.len(),
{
    if s.len() == 0 {
        assert(s.take(p).push(u) + s.skip(p) =~= seq![u]);
    } else if p == s.len() {
        assert(s.take(p).push(u) + s.skip(p) =~= s.push(u));
    } else {
        let t = s.drop_last();
        lemma_insert_by_name_at(t, u, p);
        assert(s.take(p).push(u) + s.skip(p) =~= (t.take(p).push(u) + t.skip(p)).push(s.last()));
    }
}

/// Inserting into users sorted by name keeps them sorted.
proof fn lemma_insert_by_name_sorted(
    s: Seq<(Option<Seq<char>>, Option<Seq<char>>)>,
    u: (Option<Seq<char>>, Option<Seq<char>>),
)
    requires
        names_ascending(s),
    ensures
        names_ascending(insert_by_name(s, u)),
        insert_by_name(s, u).to_multiset() == s.to_multiset().insert(u),
    decreases s.len(),
{
    broadcast use vstd::seq_lib::group_to_multiset_ensures;

    if s.len() == 0 {
        assert(seq![u] =~= Seq::<(Option<Seq<char>>, Option<Seq<char>>)>::empty().push(u));
    } else if name_less(u.1, s.last().1) {
        let t = s.drop_last();
        assert forall|i: int, j: int| 0 <= i < j < t.len() implies !name_less(
            #[trigger] t[j].1,
            #[trigger] t[i].1,
        ) by {
            assert(t[i] == s[i] && t[j] == s[j]);
        }
        lemma_insert_by_name_sorted(t, u);
        let r = insert_by_name(t, u);
        let q = r.push(s.last());
        assert(s =~= t.push(s.last()));
        assert(q.to_multiset() =~= r.to_multiset().insert(s.last()));
        assert forall|i: int, j: int| 0 <= i < j < q.len() implies !name_less(
            #[trigger] q[j].1,
            #[trigger] q[i].1,
        ) by {
            if j == q.len() - 1 {
                assert(q[j] == s.last());
                assert(r.to_multiset().count(q[i]) > 0) by {
                    assert(q[i] == r[i]);
                }
                assert(r.to_multiset().count(q[i]) == t.to_multiset().insert(u).count(q[i]));
                if q[i] == u {
                    lemma_name_order(s.last().1, u.1, u.1);
                } else {
                    assert(t.to_multiset().count(q[i]) > 0);
                    assert(t.contains(q[i]));
                    let k = choose|k: int| 0 <= k < t.len() && t[k] == q[i];
                    assert(s[k] == t[k]);
                    assert(!name_less(s[s.len() - 1].1, s[k].1));
                }
            } else {
                assert(q[i] == r[i] && q[j] == r[j]);
            }
        }
    } else {
        let q = s.push(u);
        assert forall|i: int, j: int| 0 <= i < j < q.len() implies !name_less(
            #[trigger] q[j].1,
            #[trigger] q[i].1,
        ) by {
            if j == q.len() - 1 {
                assert(q[j] == u);
                assert(q[i] == s[i]);
                if i < s.len() - 1 {
                    assert(!name_less(s[s.len() - 1].1, s[i].1));
                    lemma_name_order(u.1, s[s.len() - 1].1, s[i].1);
                }
            } else {
                assert(q[i] == s[i] && q[j] == s[j]);
            }
        }
    }
}

/// Sorting users by name orders them and keeps each of them.
pub proof fn sorted_owners_are_ordered(s: Seq<(Option<Seq<char>>, Option<Seq<char>>)>)
    ensures
        names_ascending(sort_by_name(s)),
        sort_by_name(s).to_multiset() == s.to_multiset(),
    decreases s.len(),
{
    broadcast use vstd::seq_lib::group_to_multiset_ensures;

    if s.len() > 0 {
        sorted_owners_are_ordered(s.drop_last());
        lemma_insert_by_name_sorted(sort_by_name(s.drop_last()), s.last());
        assert(s =~= s.drop_last().push(s.last()));
    }
}

fn name_before(a: &Option<String>, b: &Option<String>) -> (r: bool)
    ensures
        r == name_less(opt_text(*a), opt_text(*b)),
{
    match (a, b) {
        (None, Some(_)) => true,
        (Some(x), Some(y)) => {
            let xc = chars_of(x.as_str());
            let yc = chars_of(y.as_str());
            text_less_exec(xc.as_slice(), yc.as_slice())
        },
        _ => false,
    }
}

/// Inserts `u` after every user whose name it does not sort before.
fn insert_user(out: &mut Vec<NpmSearchUser>, u: NpmSearchUser)
    ensures
        users_view(final(out)@) == insert_by_name(users_view(old(out)@), u@),
{
    let ghost s = users_view(out@);
    let ghost before = out@;
    let mut p: usize = out.len();
    let mut stop = false;
    while p > 0 && !stop
        invariant
            out@ == before,
            s == users_view(before),
            0 <= p <= s.len(),
            forall|k: int| p <= k < s.len() ==> name_less(u@.1, #[trigger] s[k].1),
            stop ==> p > 0 && !name_less(u@.1, s[p - 1].1),
        decreases p + (if stop { 0int } else { 1int }),
    {
        if name_before(&u.username, &out[p - 1].username) {
            p = p - 1;
        } else {
            stop = true;
        }
    }
    proof {
        lemma_insert_by_name_at(s, u@, p as int);
    }
    let ghost uv = u@;
    out.insert(p, u);
    assert(users_view(out@) =~= s.take(p as int).push(uv) + s.skip(p as int));
}

/// Sorts users by name, keeping users of equal names in order.
fn sort_users(users: Vec<NpmSearchUser>) -> (r: Vec<NpmSearchUser>)
    ensures
        users_view(r@) == sort_by_name(users_view(users@)),
{
    let ghost all = users_view(users@);
    let ghost raw = users@;
    let mut users = users;
    let mut out: Vec<NpmSearchUser> = Vec::new();
    let mut j: usize = 0;
    let n = users.len();
    assert(all.take(0) =~= Seq::<(Option<Seq<char>>, Option<Seq<char>>)>::empty());
    assert(users_view(out@) =~= Seq::<(Option<Seq<char>>, Option<Seq<char>>)>::empty());
    while users.len() > 0
        invariant
            j + users@.len() == n,
            n == raw.len(),
            all == users_view(raw),
            users@ == raw.skip(j as int),
            users_view(out@) == sort_by_name(all.take(j as int)),
        decreases users.len(),
    {
        let u = users.remove(0);
        proof {
            let t = all.take(j + 1);
            assert(t.drop_last() =~= all.take(j as int));
            assert(t.last() == u@);
            assert(users@ =~= raw.skip(j + 1));
        }
        insert_user(&mut out, u);
        j = j + 1;
    }
    assert(all.take(n as int) =~= all);
    out
}

// ---------------------------------------------------------------------------
// Owners of a packument
// ---------------------------------------------------------------------------

/// A user with a name that is not blank keeps it; else the name is
/// dropped.
pub open spec fn owner_user(u: (Option<Seq<char>>, Option<Seq<char>>)) -> (
    Option<Seq<char>>,
    Option<Seq<char>>,
) {
    match u.1 {
        Some(n) => if trim(n).len() > 0 {
            u
        } else {
            (u.0, None)
        },
        None => u,
    }
}

/// The user record that the registry gave for an owner, with a blank name
/// dropped.
pub fn npm_owner_user(user: NpmSearchUser) -> (r: NpmSearchUser)
    ensures
        r@ == owner_user(user@),
{
    let blank = match &user.username {
        Some(n) => {
            let c = chars_of(n.as_str());
            trim_chars(c.as_slice()).len() == 0
        },
        None => false,
    };
    if blank {
        NpmSearchUser { email: user.email, username: None }
    } else {
        user
    }
}

/// The users that have a name that is not empty, in order.
pub open spec fn named_users(s: Seq<(Option<Seq<char>>, Option<Seq<char>>)>) -> Seq<
    (Option<Seq<char>>, Option<Seq<char>>),
>
    decreases s.len(),
{
    if s.len() == 0 {
        s
    } else if s.last().1 is Some && s.last().1->0.len() > 0 {
        named_users(s.drop_last()).push(s.last())
    } else {
        named_users(s.drop_last())
    }
}

/// The owners that a packument's maintainers name: those with a name,
/// sorted by name.
pub open spec fn listed_owners(maintainers: Seq<(Option<Seq<char>>, Option<Seq<char>>)>) -> Seq<
    (Option<Seq<char>>, Option<Seq<char>>),
> {
    sort_by_name(named_users(maintainers))
}

/// The owners among a packument's maintainers: those with a name that is
/// not empty, sorted by name.
pub fn npm_listed_owners(maintainers: Vec<NpmSearchUser>) -> (r: Vec<NpmSearchUser>)
    ensures
        users_view(r@) == listed_owners(users_view(maintainers@)),
{
    let ghost all = users_view(maintainers@);
    let ghost raw = maintainers@;
    let mut rest = maintainers;
    let mut named: Vec<NpmSearchUser> = Vec::new();
    let mut j: usize = 0;
    let n = rest.len();
    assert(all.take(0) =~= Seq::<(Option<Seq<char>>, Option<Seq<char>>)>::empty());
    assert(users_view(named@) =~= Seq::<(Option<Seq<char>>, Option<Seq<char>>)>::empty());
    while rest.len() > 0
        invariant
            j + rest@.len() == n,
            n == raw.len(),
            all == users_view(raw),
            rest@ == raw.skip(j as int),
            users_view(named@) == named_users(all.take(j as int)),
        decreases rest.len(),
    {
        let u = rest.remove(0);
        proof {
            let t = all.take(j + 1);
            assert(t.drop_last() =~= all.take(j as int));
            assert(t.last() == u@);
            assert(rest@ =~= raw.skip(j + 1));
        }
        let keep = match &u.username {
            Some(name) => {
                let c = chars_of(name.as_str());
                c.len() > 0
            },
            None => false,
        };
        if keep {
            let ghost before = named@;
            named.push(u);
            assert(users_view(named@) =~= users_view(before).push(named@[named@.len() - 1]@));
        }
        j = j + 1;
    }
    assert(all.take(n as int) =~= all);
    sort_users(named)
}

/// The owners of a package as the registry lists them.
#[derive(Debug)]
pub struct NpmOwnerListResult {
    pub registry: String,
    pub package: String,
    pub owners: Vec<NpmSearchUser>,
}

/// The owner listing of a package from its packument's maintainers.
pub fn npm_owner_list_result(registry: String, package: String, maintainers: Vec<NpmSearchUser>) -> (r:
    NpmOwnerListResult)
    ensures
        r.registry == registry,
        r.package == package,
        users_view(r.owners@) == listed_owners(users_view(maintainers@)),
{
    NpmOwnerListResult { registry, package, owners: npm_listed_owners(maintainers) }
}

// ---------------------------------------------------------------------------
// Adding and removing an owner
// ---------------------------------------------------------------------------

/// Some owner has the name.
pub open spec fn has_owner(owners: Seq<(Option<Seq<char>>, Option<Seq<char>>)>, name: Seq<char>) -> bool {
    exists|i: int| 0 <= i < owners.len() && (#[trigger] owners[i]).1 == Some(name)
}

/// The owners without those of the name, in order.
pub open spec fn without_owner(
    owners: Seq<(Option<Seq<char>>, Option<Seq<char>>)>,
    name: Seq<char>,
) -> Seq<(Option<Seq<char>>, Option<Seq<char>>)>
    decreases owners.len(),
{
    if owners.len() == 0 {
        owners
    } else if owners.last().1 == Some(name) {
        without_owner(owners.drop_last(), name)
    } else {
        without_owner(owners.drop_last(), name).push(owners.last())
    }
}

/// What adding (or removing) the user as an owner does: the user's name,
/// whether the owners change, and the owners after.  A user without a name
/// is refused; adding a listed owner or removing one who is not listed
/// changes nothing; an added owner takes its place by name; removing the
/// last owner is refused.
pub open spec fn owner_change(
    owners: Seq<(Option<Seq<char>>, Option<Seq<char>>)>,
    user: (Option<Seq<char>>, Option<Seq<char>>),
    requested: Seq<char>,
    added: bool,
) -> Result<(Seq<char>, bool, Seq<(Option<Seq<char>>, Option<Seq<char>>)>), Seq<char>> {
    match user.1 {
        None => Err("npm owner user `"@ + requested + "` did not include a name"@),
        Some(name) => {
            let existing = has_owner(owners, name);
            if added {
                if existing {
                    Ok((name, false, owners))
                } else {
                    Ok((name, true, sort_by_name(owners.push(user))))
                }
            } else if !existing {
                Ok((name, false, owners))
            } else {
                let rest = without_owner(owners, name);
                if rest.len() == 0 {
                    Err("Cannot remove all owners of a package. Add someone else first."@)
                } else {
                    Ok((name, true, rest))
                }
            }
        },
    }
}

/// The view of an owner change: name, changed, owners; or the refusal's
/// message.
pub open spec fn change_result(r: Result<(String, bool, Vec<NpmSearchUser>), OmcRegistryError>) -> Result<
    (Seq<char>, bool, Seq<(Option<Seq<char>>, Option<Seq<char>>)>),
    Seq<char>,
> {
    match r {
        Ok((n, c, o)) => Ok((n@, c, users_view(o@))),
        Err(OmcRegistryError::UnsupportedSpec(m)) => Err(m@),
        Err(_) => Err(Seq::empty()),
    }
}

fn owner_listed(owners: &Vec<NpmSearchUser>, name: &[char]) -> (b: bool)
    ensures
        b == has_owner(users_view(owners@), name@),
{
    let ghost s = users_view(owners@);
    let mut i: usize = 0;
    while i < owners.len()
        invariant
            i <= owners@.len(),
            s == users_view(owners@),
            forall|k: int| 0 <= k < i ==> (#[trigger] s[k]).1 != Some(name@),
        decreases owners.len() - i,
    {
        if let Some(n) = &owners[i].username {
            let c = chars_of(n.as_str());
            if eq_chars(c.as_slice(), name) {
                assert(s[i as int].1 == Some(name@));
                return true;
            }
        }
        i = i + 1;
    }
    false
}

fn drop_owner(owners: Vec<NpmSearchUser>, name: &[char]) -> (r: Vec<NpmSearchUser>)
    ensures
        users_view(r@) == without_owner(users_view(owners@), name@),
{
    let ghost all = users_view(owners@);
    let ghost raw = owners@;
    let mut rest = owners;
    let mut kept: Vec<NpmSearchUser> = Vec::new();
    let mut j: usize = 0;
    let n = rest.len();
    assert(all.take(0) =~= Seq::<(Option<Seq<char>>, Option<Seq<char>>)>::empty());
    assert(users_view(kept@) =~= Seq::<(Option<Seq<char>>, Option<Seq<char>>)>::empty());
    while rest.len() > 0
        invariant
            j + rest@.len() == n,
            n == raw.len(),
            all == users_view(raw),
            rest@ == raw.skip(j as int),
            users_view(kept@) == without_owner(all.take(j as int), name@),
        decreases rest.len(),
    {
        let u = rest.remove(0);
        proof {
            let t = all.take(j + 1);
            assert(t.drop_last() =~= all.take(j as int));
            assert(t.last() == u@);
            assert(rest@ =~= raw.skip(j + 1));
        }
        let same = match &u.username {
            Some(x) => {
                let c = chars_of(x.as_str());
                eq_chars(c.as_slice(), name)
            },
            None => false,
        };
        if !same {
            let ghost before = kept@;
            kept.push(u);
            assert(users_view(kept@) =~= users_view(before).push(kept@[kept@.len() - 1]@));
        }
        j = j + 1;
    }
    assert(all.take(n as int) =~= all);
    kept
}

/// Adds (or removes) the user, as the registry gave its record, to (or
/// from) the owners; `requested` is the name asked for.
pub fn npm_owner_change(
    owners: Vec<NpmSearchUser>,
    user: NpmSearchUser,
    requested: &str,
    added: bool,
) -> (r: Result<(String, bool, Vec<NpmSearchUser>), OmcRegistryError>)
    ensures
        change_result(r) == owner_change(users_view(owners@), user@, requested@, added),
        r is Err ==> r matches Err(OmcRegistryError::UnsupportedSpec(_)),
{
    let name = match &user.username {
        Some(n) => n.clone(),
        None => {
            let c = chars_of(requested);
            return Err(
                OmcRegistryError::UnsupportedSpec(
                    message("npm owner user `", c.as_slice(), "` did not include a name"),
                ),
            );
        },
    };
    let nc = chars_of(name.as_str());
    let existing = owner_listed(&owners, nc.as_slice());
    if added {
        if existing {
            Ok((name, false, owners))
        } else {
            let ghost before = owners@;
            let mut all = owners;
            all.push(user);
            assert(users_view(all@) =~= users_view(before).push(all@[all@.len() - 1]@));
            Ok((name, true, sort_users(all)))
        }
    } else if !existing {
        Ok((name, false, owners))
    } else {
        let rest = drop_owner(owners, nc.as_slice());
        if rest.len() == 0 {
            return Err(
                OmcRegistryError::UnsupportedSpec(
                    fixed("Cannot remove all owners of a package. Add someone else first."),
                ),
            );
        }
        Ok((name, true, rest))
    }
}

/// Adding an owner lists it; removing one leaves no owner of that name.
pub proof fn owner_changes_take_effect(
    owners: Seq<(Option<Seq<char>>, Option<Seq<char>>)>,
    user: (Option<Seq<char>>, Option<Seq<char>>),
    requested: Seq<char>,
    added: bool,
)
    requires
        owner_change(owners, user, requested, added) is Ok,
    ensures
        ({
            let (name, _, after) = owner_change(owners, user, requested, added)->Ok_0;
            &&& user.1 == Some(name)
            &&& added ==> has_owner(after, name)
            &&& !added ==> !has_owner(after, name)
        }),
{
    let name = user.1->0;
    if added {
        if !has_owner(owners, name) {
            let grown = owners.push(user);
            sorted_owners_are_ordered(grown);
            let after = sort_by_name(grown);
            assert(grown[grown.len() - 1] == user);
            assert(grown.to_multiset().count(user) > 0) by {
                broadcast use vstd::seq_lib::group_to_multiset_ensures;

                assert(grown.contains(user));
            }
            assert(after.contains(user)) by {
                broadcast use vstd::seq_lib::group_to_multiset_ensures;

            }
            let k = choose|k: int| 0 <= k < after.len() && after[k] == user;
            assert(after[k].1 == Some(name));
        }
    } else {
        lemma_without_owner_gone(owners, name);
    }
}

proof fn lemma_without_owner_gone(owners: Seq<(Option<Seq<char>>, Option<Seq<char>>)>, name: Seq<char>)
    ensures
        !has_owner(without_owner(owners, name), name),
    decreases owners.len(),
{
    if owners.len() > 0 {
        lemma_without_owner_gone(owners.drop_last(), name);
        let w = without_owner(owners.drop_last(), name);
        if owners.last().1 != Some(name) {
            let q = w.push(owners.last());
            assert forall|i: int| 0 <= i < q.len() implies (#[trigger] q[i]).1 != Some(name) by {
                if i < w.len() {
                    assert(q[i] == w[i]);
                }
            }
        }
    }
}

} // verus!
