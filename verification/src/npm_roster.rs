//! What the npm registry answers about access, organisations and teams,
//! read into listings.
use vstd::prelude::*;
use crate::error::OmcRegistryError;
use crate::json::{
    entries_view, field, lemma_entries_view, lemma_items_view, lemma_view_object, items_view,
    text_of, JsonValue, JsonView,
};
use crate::npm_arguments::{fixed, npm_access_permission_text, permission_text};
use crate::pypi_listing::{lemma_text_less_strict, lemma_text_less_transitive, text_less, text_less_exec};
use crate::set_map::PinMap;
use crate::text::{chars_of, eq_chars, string_from_chars};

verus! {

// ---------------------------------------------------------------------------
// Access
// ---------------------------------------------------------------------------

/// A member of an access listing, as the logic reads it: a text, or the
/// JSON text of any other value.
#[derive(Clone, Debug, PartialEq, Eq)]
pub enum NpmAccessValue {
    Text(String),
    Json(String),
}

/// The listing's text for a member: a permission's words, or the JSON
/// text.
pub open spec fn access_value_text(v: NpmAccessValue) -> Seq<char> {
    match v {
        NpmAccessValue::Text(s) => permission_text(s@),
        NpmAccessValue::Json(s) => s@,
    }
}

/// The listing of the members that the limiter (when given) names; a later
/// member of the same name wins.
pub open spec fn access_items(members: Seq<(String, NpmAccessValue)>, limiter: Option<Seq<char>>) -> Map<
    Seq<char>,
    Seq<char>,
>
    decreases members.len(),
{
    if members.len() == 0 {
        Map::empty()
    } else {
        let before = access_items(members.drop_last(), limiter);
        let (k, v) = members.last();
        if limiter is Some && limiter->0 != k@ {
            before
        } else {
            before.insert(k@, access_value_text(v))
        }
    }
}

/// Who has access to what, as the registry lists it.
#[derive(Debug)]
pub struct NpmAccessMapResult {
    pub registry: String,
    pub subject: String,
    pub package: Option<String>,
    pub items: PinMap,
}

/// The text of an optional string.
pub open spec fn opt_str(o: Option<&str>) -> Option<Seq<char>> {
    match o {
        Some(s) => Some(s@),
        None => None,
    }
}

/// The listing of an access response's members (`None` when the response
/// is not an object, which is refused).
pub fn npm_access_items(members: Option<Vec<(String, NpmAccessValue)>>, limiter: Option<&str>) -> (r:
    Result<PinMap, OmcRegistryError>)
    ensures
        match members {
            None => r matches Err(OmcRegistryError::UnsupportedSpec(m)) && m@
                == "npm access response was not an object"@,
            Some(ms) => r matches Ok(items) && items.wf() && items.view() == access_items(
                ms@,
                opt_str(limiter),
            ),
        },
{
    let members = match members {
        Some(ms) => ms,
        None => {
            return Err(OmcRegistryError::UnsupportedSpec(fixed("npm access response was not an object")));
        },
    };
    let lim = match limiter {
        Some(l) => Some(chars_of(l)),
        None => None,
    };
    let mut items = PinMap::new();
    let mut i: usize = 0;
    assert(members@.take(0) =~= Seq::<(String, NpmAccessValue)>::empty());
    while i < members.len()
        invariant
            i <= members@.len(),
            items.wf(),
            match lim {
                Some(l) => opt_str(limiter) == Some(l@),
                None => opt_str(limiter) is None,
            },
            items.view() == access_items(members@.take(i as int), opt_str(limiter)),
        decreases members.len() - i,
    {
        proof {
            let t = members@.take(i + 1);
            assert(t.drop_last() =~= members@.take(i as int));
            assert(t.last() == members@[i as int]);
        }
        let key = chars_of(members[i].0.as_str());
        let skip = match &lim {
            Some(l) => !eq_chars(l.as_slice(), key.as_slice()),
            None => false,
        };
        if !skip {
            let text = match &members[i].1 {
                NpmAccessValue::Text(s) => {
                    let c = chars_of(s.as_str());
                    npm_access_permission_text(c.as_slice())
                },
                NpmAccessValue::Json(s) => chars_of(s.as_str()),
            };
            items.set(key.as_slice(), text.as_slice());
        }
        i = i + 1;
    }
    assert(members@.take(members@.len() as int) =~= members@);
    Ok(items)
}

/// An access listing: the subject, the package it is about (if any), and
/// the listing of the response's members that the limiter names.
pub fn npm_access_map_result(
    registry: String,
    subject: String,
    package: Option<String>,
    members: Option<Vec<(String, NpmAccessValue)>>,
    limiter: Option<&str>,
) -> (r: Result<NpmAccessMapResult, OmcRegistryError>)
    ensures
        match members {
            None => r matches Err(OmcRegistryError::UnsupportedSpec(m)) && m@
                == "npm access response was not an object"@,
            Some(ms) => r matches Ok(res) && res.registry == registry && res.subject == subject
                && res.package == package && res.items.wf() && res.items.view() == access_items(
                ms@,
                opt_str(limiter),
            ),
        },
{
    let items = npm_access_items(members, limiter)?;
    Ok(NpmAccessMapResult { registry, subject, package, items })
}

// ---------------------------------------------------------------------------
// Organisations
// ---------------------------------------------------------------------------

/// The role of a member of an org listing: its text, or the text of its
/// `role`.
pub open spec fn org_role(v: JsonView) -> Option<Seq<char>> {
    match text_of(v) {
        Some(r) => Some(r),
        None => match field(v, "role"@) {
            Some(x) => text_of(x),
            None => None,
        },
    }
}

/// The roles of the users in an org listing; a later member of the same
/// name wins, members without a role are left out.
pub open spec fn org_roles(es: Seq<(Seq<char>, JsonView)>) -> Map<Seq<char>, Seq<char>>
    decreases es.len(),
{
    if es.len() == 0 {
        Map::empty()
    } else {
        let before = org_roles(es.drop_last());
        match org_role(es.last().1) {
            Some(r) => before.insert(es.last().0, r),
            None => before,
        }
    }
}

/// The roles of an org listing; refused when it is not an object.
pub open spec fn org_user_map(v: JsonView) -> Result<Map<Seq<char>, Seq<char>>, Seq<char>> {
    match v {
        JsonView::Object(es) => Ok(org_roles(es)),
        _ => Err("npm org response was not an object"@),
    }
}

fn role_of(v: &JsonValue) -> (r: Option<Vec<char>>)
    ensures
        match r {
            Some(x) => org_role(v@) == Some(x@),
            None => org_role(v@) is None,
        },
{
    match v {
        JsonValue::Text(s) => Some(chars_of(s.as_str())),
        _ => {
            match crate::json::json_text_field(v, "role") {
                Some(s) => Some(chars_of(s.as_str())),
                None => None,
            }
        },
    }
}

/// The roles of the users in an org listing.
pub fn npm_org_user_map(value: &JsonValue) -> (r: Result<PinMap, OmcRegistryError>)
    ensures
        match org_user_map(value@) {
            Ok(m) => r matches Ok(users) && users.wf() && users.view() == m,
            Err(msg) => r matches Err(OmcRegistryError::UnsupportedSpec(x)) && x@ == msg,
        },
{
    let es = match value {
        JsonValue::Object(es) => es,
        _ => {
            return Err(OmcRegistryError::UnsupportedSpec(fixed("npm org response was not an object")));
        },
    };
    proof {
        lemma_view_object(es);
        lemma_entries_view(es@);
    }
    let ghost ev = entries_view(es@);
    let mut users = PinMap::new();
    let mut i: usize = 0;
    assert(ev.take(0) =~= Seq::<(Seq<char>, JsonView)>::empty());
    while i < es.len()
        invariant
            i <= es@.len(),
            ev == entries_view(es@),
            ev.len() == es@.len(),
            forall|j: int| 0 <= j < es@.len() ==> #[trigger] ev[j] == (es@[j].0@, es@[j].1@),
            users.wf(),
            users.view() == org_roles(ev.take(i as int)),
        decreases es.len() - i,
    {
        proof {
            let t = ev.take(i + 1);
            assert(t.drop_last() =~= ev.take(i as int));
            assert(t.last() == ev[i as int]);
        }
        match role_of(&es[i].1) {
            Some(role) => {
                let name = chars_of(es[i].0.as_str());
                users.set(name.as_slice(), role.as_slice());
            },
            None => {},
        }
        i = i + 1;
    }
    assert(ev.take(es@.len() as int) =~= ev);
    Ok(users)
}

/// The users of an org, as the registry lists them.
#[derive(Debug)]
pub struct NpmOrgListResult {
    pub registry: String,
    pub org: String,
    pub users: PinMap,
}

/// The users of an org listing, only the named user's when one is given.
pub open spec fn org_users(roles: Map<Seq<char>, Seq<char>>, user: Option<Seq<char>>) -> Map<
    Seq<char>,
    Seq<char>,
> {
    match user {
        Some(u) => roles.restrict(set![u]),
        None => roles,
    }
}

/// An org's user listing, only the named user's when one is given.
pub fn npm_org_list_result(registry: String, org: String, value: &JsonValue, user: Option<&str>) -> (r:
    Result<NpmOrgListResult, OmcRegistryError>)
    ensures
        match org_user_map(value@) {
            Ok(m) => r matches Ok(res) && res.registry == registry && res.org == org
                && res.users.wf() && res.users.view() == org_users(m, opt_str(user)),
            Err(msg) => r matches Err(OmcRegistryError::UnsupportedSpec(x)) && x@ == msg,
        },
{
    let all = npm_org_user_map(value)?;
    let users = match user {
        None => all,
        Some(u) => {
            let uc = chars_of(u);
            let mut only = PinMap::new();
            match all.get(uc.as_slice()) {
                Some(role) => {
                    only.set(uc.as_slice(), role.as_slice());
                    assert(only.view() =~= all.view().restrict(set![u@]));
                },
                None => {
                    assert(only.view() =~= all.view().restrict(set![u@]));
                },
            }
            only
        },
    };
    Ok(NpmOrgListResult { registry, org, users })
}

// ---------------------------------------------------------------------------
// Teams
// ---------------------------------------------------------------------------

/// The text of a team listing's item: the item itself, or its `name`,
/// `team` or `user`.
pub open spec fn team_item_text(v: JsonView) -> Option<Seq<char>> {
    match text_of(v) {
        Some(t) => Some(t),
        None => match crate::json::text_field(v, "name"@) {
            Some(t) => Some(t),
            None => match crate::json::text_field(v, "team"@) {
                Some(t) => Some(t),
                None => crate::json::text_field(v, "user"@),
            },
        },
    }
}

/// The texts of a list's items, those that have one.
pub open spec fn array_texts(items: Seq<JsonView>) -> Seq<Seq<char>>
    decreases items.len(),
{
    if items.len() == 0 {
        Seq::empty()
    } else {
        match team_item_text(items.last()) {
            Some(t) => array_texts(items.drop_last()).push(t),
            None => array_texts(items.drop_last()),
        }
    }
}

/// The text of an object's member: its text, its item text, or its key.
pub open spec fn member_item_text(m: (Seq<char>, JsonView)) -> Seq<char> {
    match text_of(m.1) {
        Some(t) => t,
        None => match team_item_text(m.1) {
            Some(t) => t,
            None => m.0,
        },
    }
}

/// The texts of an object's members.
pub open spec fn object_texts(es: Seq<(Seq<char>, JsonView)>) -> Seq<Seq<char>> {
    Seq::new(es.len(), |i: int| member_item_text(es[i]))
}

/// The texts that a team listing yields, before sorting; refused when it
/// is neither a list nor an object.
pub open spec fn team_texts(v: JsonView) -> Result<Seq<Seq<char>>, Seq<char>> {
    match v {
        JsonView::Array(items) => Ok(array_texts(items)),
        JsonView::Object(es) => Ok(object_texts(es)),
        _ => Err("npm team response was not a list or object"@),
    }
}

/// Strictly ascending texts.
pub open spec fn strictly_ascending(s: Seq<Seq<char>>) -> bool {
    forall|i: int, j: int| 0 <= i < j < s.len() ==> text_less(#[trigger] s[i], #[trigger] s[j])
}

/// The texts of strings.
pub open spec fn texts_of(s: Seq<String>) -> Seq<Seq<char>> {
    Seq::new(s.len(), |i: int| s[i]@)
}

fn item_text(v: &JsonValue) -> (r: Option<String>)
    ensures
        match r {
            Some(t) => team_item_text(v@) == Some(t@),
            None => team_item_text(v@) is None,
        },
{
    if let JsonValue::Text(s) = v {
        return Some(s.clone());
    }
    if let Some(s) = crate::json::json_text_field(v, "name") {
        return Some(s.clone());
    }
    if let Some(s) = crate::json::json_text_field(v, "team") {
        return Some(s.clone());
    }
    match crate::json::json_text_field(v, "user") {
        Some(s) => Some(s.clone()),
        None => None,
    }
}

/// Adds `t` at its place among strictly ascending texts, unless it is
/// there.
pub fn insert_text(out: &mut Vec<String>, t: String)
    requires
        strictly_ascending(texts_of(old(out)@)),
    ensures
        strictly_ascending(texts_of(final(out)@)),
        texts_of(final(out)@).to_set() == texts_of(old(out)@).to_set().insert(t@),
{
    let ghost s = texts_of(out@);
    let tc = chars_of(t.as_str());
    let mut p: usize = 0;
    let mut stop = false;
    while p < out.len() && !stop
        invariant
            s == texts_of(out@),
            strictly_ascending(s),
            tc@ == t@,
            p <= s.len(),
            forall|k: int| 0 <= k < p ==> text_less(#[trigger] s[k], t@),
            stop ==> p < s.len() && !text_less(s[p as int], t@),
        decreases s.len() - p + (if stop { 0int } else { 1int }),
    {
        let c = chars_of(out[p].as_str());
        if text_less_exec(c.as_slice(), tc.as_slice()) {
            p = p + 1;
        } else {
            stop = true;
        }
    }
    if p < out.len() {
        let c = chars_of(out[p].as_str());
        if eq_chars(c.as_slice(), tc.as_slice()) {
            assert(s.to_set() =~= s.to_set().insert(t@)) by {
                assert(s[p as int] == t@);
            }
            return;
        }
        proof {
            lemma_text_less_strict(s[p as int], t@);
        }
    }
    let ghost tv = t@;
    out.insert(p, t);
    proof {
        let u = texts_of(out@);
        assert(u =~= s.take(p as int).push(tv) + s.skip(p as int));
        assert forall|i: int, j: int| 0 <= i < j < u.len() implies text_less(
            #[trigger] u[i],
            #[trigger] u[j],
        ) by {
            if j < p {
                assert(u[i] == s[i] && u[j] == s[j]);
            } else if j == p {
                assert(u[i] == s[i]);
            } else if i > p {
                assert(u[i] == s[i - 1] && u[j] == s[j - 1]);
            } else if i == p {
                assert(u[j] == s[j - 1]);
                if j - 1 > p {
                    lemma_text_less_transitive(tv, s[p as int], s[j - 1]);
                }
            } else {
                assert(u[i] == s[i] && u[j] == s[j - 1]);
            }
        }
        assert forall|x: Seq<char>| #[trigger] u.to_set().contains(x) == s.to_set().insert(
            tv,
        ).contains(x) by {
            if u.to_set().contains(x) {
                let k = choose|k: int| 0 <= k < u.len() && u[k] == x;
                if k < p {
                    assert(s[k] == x);
                } else if k > p {
                    assert(s[k - 1] == x);
                }
            }
            if s.to_set().contains(x) {
                let k = choose|k: int| 0 <= k < s.len() && s[k] == x;
                if k < p {
                    assert(u[k] == x);
                } else {
                    assert(u[k + 1] == x);
                }
            }
            if x == tv {
                assert(u[p as int] == x);
            }
        }
        assert(u.to_set() =~= s.to_set().insert(tv));
    }
}

proof fn lemma_push_set(s: Seq<Seq<char>>, x: Seq<char>)
    ensures
        s.push(x).to_set() == s.to_set().insert(x),
{
    let q = s.push(x);
    assert forall|y: Seq<char>| #[trigger] q.to_set().contains(y) == s.to_set().insert(x).contains(
        y,
    ) by {
        if q.contains(y) {
            let k = choose|k: int| 0 <= k < q.len() && q[k] == y;
            if k < s.len() {
                assert(s[k] == y);
            }
        }
        if s.contains(y) {
            let k = choose|k: int| 0 <= k < s.len() && s[k] == y;
            assert(q[k] == y);
        }
        if y == x {
            assert(q[s.len() as int] == x);
        }
    }
    assert(q.to_set() =~= s.to_set().insert(x));
}

/// The items of a team listing, sorted and each once.
pub fn npm_team_list_items(value: &JsonValue) -> (r: Result<Vec<String>, OmcRegistryError>)
    ensures
        match team_texts(value@) {
            Ok(ts) => r matches Ok(items) && strictly_ascending(texts_of(items@)) && texts_of(
                items@,
            ).to_set() == ts.to_set(),
            Err(m) => r matches Err(OmcRegistryError::UnsupportedSpec(x)) && x@ == m,
        },
{
    let mut out: Vec<String> = Vec::new();
    assert(texts_of(out@) =~= Seq::<Seq<char>>::empty());
    match value {
        JsonValue::Array(items) => {
            proof {
                lemma_items_view(items@);
            }
            let ghost iv = items_view(items@);
            let mut i: usize = 0;
            assert(iv.take(0) =~= Seq::<JsonView>::empty());
            while i < items.len()
                invariant
                    i <= items@.len(),
                    iv == items_view(items@),
                    iv.len() == items@.len(),
                    forall|j: int| 0 <= j < items@.len() ==> #[trigger] iv[j] == items@[j]@,
                    strictly_ascending(texts_of(out@)),
                    texts_of(out@).to_set() == array_texts(iv.take(i as int)).to_set(),
                decreases items.len() - i,
            {
                proof {
                    let t = iv.take(i + 1);
                    assert(t.drop_last() =~= iv.take(i as int));
                    assert(t.last() == iv[i as int]);
                }
                match item_text(&items[i]) {
                    Some(t) => {
                        proof {
                            let a = array_texts(iv.take(i as int));
                            lemma_push_set(a, t@);
                        }
                        insert_text(&mut out, t);
                    },
                    None => {},
                }
                i = i + 1;
            }
            assert(iv.take(items@.len() as int) =~= iv);
            Ok(out)
        },
        JsonValue::Object(es) => {
            proof {
                lemma_entries_view(es@);
            }
            let ghost ev = entries_view(es@);
            let ghost all = object_texts(ev);
            let mut i: usize = 0;
            assert(all.take(0).to_set() =~= Set::<Seq<char>>::empty());
            assert(texts_of(out@).to_set() =~= Set::<Seq<char>>::empty());
            while i < es.len()
                invariant
                    i <= es@.len(),
                    ev == entries_view(es@),
                    all == object_texts(ev),
                    ev.len() == es@.len(),
                    forall|j: int| 0 <= j < es@.len() ==> #[trigger] ev[j] == (es@[j].0@, es@[j].1@),
                    strictly_ascending(texts_of(out@)),
                    texts_of(out@).to_set() == all.take(i as int).to_set(),
                decreases es.len() - i,
            {
                let t = match &es[i].1 {
                    JsonValue::Text(s) => s.clone(),
                    other => match item_text(other) {
                        Some(t) => t,
                        None => es[i].0.clone(),
                    },
                };
                proof {
                    assert(all[i as int] == member_item_text(ev[i as int]));
                    assert(t@ == all[i as int]);
                    assert(all.take(i + 1) =~= all.take(i as int).push(t@));
                    lemma_push_set(all.take(i as int), t@);
                }
                insert_text(&mut out, t);
                i = i + 1;
            }
            assert(all.take(es@.len() as int) =~= all);
            Ok(out)
        },
        _ => Err(OmcRegistryError::UnsupportedSpec(fixed("npm team response was not a list or object"))),
    }
}

/// The teams of a scope, or the users of a team, as the registry lists
/// them.
#[derive(Debug)]
pub struct NpmTeamListResult {
    pub registry: String,
    pub scope: String,
    pub team: Option<String>,
    pub items: Vec<String>,
}

/// A team listing from the registry's response.
pub fn npm_team_list_result(registry: String, scope: String, team: Option<String>, value: &JsonValue) -> (r:
    Result<NpmTeamListResult, OmcRegistryError>)
    ensures
        match team_texts(value@) {
            Ok(ts) => r matches Ok(res) && res.registry == registry && res.scope == scope && res.team
                == team && strictly_ascending(texts_of(res.items@)) && texts_of(res.items@).to_set()
                == ts.to_set(),
            Err(m) => r matches Err(OmcRegistryError::UnsupportedSpec(x)) && x@ == m,
        },
{
    let items = npm_team_list_items(value)?;
    Ok(NpmTeamListResult { registry, scope, team, items })
}

} // verus!
