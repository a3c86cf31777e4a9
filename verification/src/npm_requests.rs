//! The requests of the npm registry commands: their URLs, the checks on
//! their arguments, the bodies they send and what is read from the
//! answers.
use vstd::prelude::*;
use crate::error::OmcRegistryError;
use crate::json::{
    entries_view, field, items_view, lemma_entries_view, lemma_items_view, lemma_view_not_object,
    lemma_view_object, member, set_member, take_member, text_field, text_of, with_member,
    without_member, JsonValue, JsonView,
};
use crate::npm_arguments::{deprecate_valid_at, fixed, message, npm_deprecate_valid_requirement};
use crate::npm_config::{ensure_trailing_slash, with_trailing_slash};
use crate::npm_github::{url_encode, url_encoded};
use crate::npm_owners::{opt_text, users_view, NpmSearchUser};
use crate::npm_semver::{decimal_chars, decimal_u64, is_exact_npm_version, parsed_semver};
use crate::set_map::PinMap;
use crate::text::{chars_of, concat_chars, eq_chars, lower_seq, string_from_chars, trim, trim_chars};

verus! {

/// `a`, `x`, `b` and `y` in a row.
fn four(a: &[char], x: &[char], b: &[char], y: &[char]) -> (r: String)
    ensures
        r@ == a@ + x@ + b@ + y@,
{
    let ax = concat_chars(a, x);
    let axb = concat_chars(ax.as_slice(), b);
    let all = concat_chars(axb.as_slice(), y);
    assert(all@ =~= a@ + x@ + b@ + y@);
    string_from_chars(all.as_slice())
}

// ---------------------------------------------------------------------------
// URLs
// ---------------------------------------------------------------------------

/// The trust configurations of a package.
pub open spec fn trust_url(registry: Seq<char>, package: Seq<char>) -> Seq<char> {
    with_trailing_slash(registry) + "-/package/"@ + url_encoded(package) + "/trust"@
}

/// The URL of a package's trust configurations.
pub fn npm_trust_url(registry: &str, package: &str) -> (r: String)
    ensures
        r@ == trust_url(registry@, package@),
{
    let rc = chars_of(registry);
    let base = ensure_trailing_slash(rc.as_slice());
    let e = url_encode(package);
    let ec = chars_of(e.as_str());
    let mid = chars_of("-/package/");
    let tail = chars_of("/trust");
    four(base.as_slice(), mid.as_slice(), ec.as_slice(), tail.as_slice())
}

/// The URL that revokes a trust configuration: the package's trust URL and
/// the trimmed id; refused for a blank id.
pub open spec fn trust_revoke_url(registry: Seq<char>, package: Seq<char>, id: Seq<char>) -> Result<
    Seq<char>,
    Seq<char>,
> {
    if trim(id).len() == 0 {
        Err("npm trust revoke needs --id"@)
    } else {
        Ok(trust_url(registry, package) + "/"@ + url_encoded(trim(id)))
    }
}

/// The URL that revokes a package's trust configuration.
pub fn npm_trust_revoke_url(registry: &str, package: &str, id: &str) -> (r: Result<
    String,
    OmcRegistryError,
>)
    ensures
        match trust_revoke_url(registry@, package@, id@) {
            Ok(u) => r matches Ok(x) && x@ == u,
            Err(m) => r matches Err(OmcRegistryError::UnsupportedSpec(x)) && x@ == m,
        },
{
    let ic = chars_of(id);
    let t = trim_chars(ic.as_slice());
    if t.len() == 0 {
        return Err(OmcRegistryError::UnsupportedSpec(fixed("npm trust revoke needs --id")));
    }
    let ts = string_from_chars(t.as_slice());
    let base = npm_trust_url(registry, package);
    let bc = chars_of(base.as_str());
    let e = url_encode(ts.as_str());
    let ec = chars_of(e.as_str());
    let slash = chars_of("/");
    let empty: Vec<char> = Vec::new();
    let r = four(bc.as_slice(), slash.as_slice(), ec.as_slice(), empty.as_slice());
    assert(r@ =~= trust_url(registry@, package@) + "/"@ + url_encoded(trim(id@)));
    Ok(r)
}

/// A package's dist-tag.
pub open spec fn dist_tag_url(registry: Seq<char>, package: Seq<char>, tag: Seq<char>) -> Seq<char> {
    with_trailing_slash(registry) + "-/package/"@ + url_encoded(package) + "/dist-tags/"@
        + url_encoded(tag)
}

/// The URL of a package's dist-tag.
pub fn npm_dist_tag_url(registry: &str, package: &str, tag: &str) -> (r: String)
    ensures
        r@ == dist_tag_url(registry@, package@, tag@),
{
    let rc = chars_of(registry);
    let base = ensure_trailing_slash(rc.as_slice());
    let p = url_encode(package);
    let pc = chars_of(p.as_str());
    let t = url_encode(tag);
    let tc = chars_of(t.as_str());
    let mid = chars_of("-/package/");
    let tags = chars_of("/dist-tags/");
    let head = four(base.as_slice(), mid.as_slice(), pc.as_slice(), tags.as_slice());
    let hc = chars_of(head.as_str());
    let all = concat_chars(hc.as_slice(), tc.as_slice());
    string_from_chars(all.as_slice())
}

/// A package's access endpoint (`suffix` such as `collaborators`).
pub open spec fn access_package_url(registry: Seq<char>, package: Seq<char>, suffix: Seq<char>) -> Seq<
    char,
> {
    registry + "-/package/"@ + url_encoded(package) + "/"@ + suffix
}

/// The URL of a package's access endpoint under a registry that ends with
/// `/`.
pub fn npm_access_package_url(registry: &str, package: &str, suffix: &str) -> (r: String)
    ensures
        r@ == access_package_url(registry@, package@, suffix@),
{
    let rc = chars_of(registry);
    let p = url_encode(package);
    let pc = chars_of(p.as_str());
    let mid = chars_of("-/package/");
    let head = four(rc.as_slice(), mid.as_slice(), pc.as_slice(), chars_of("/").as_slice());
    let hc = chars_of(head.as_str());
    let sc = chars_of(suffix);
    let all = concat_chars(hc.as_slice(), sc.as_slice());
    string_from_chars(all.as_slice())
}

/// A search: the registry's search endpoint with the trimmed terms and the
/// size; refused for blank terms.
pub open spec fn search_url(registry: Seq<char>, query: Seq<char>, limit: u64) -> Result<
    Seq<char>,
    Seq<char>,
> {
    if trim(query).len() == 0 {
        Err("npm search needs search terms"@)
    } else {
        Ok(
            with_trailing_slash(registry) + "-/v1/search?text="@ + url_encoded(trim(query))
                + "&size="@ + decimal_u64(limit as nat),
        )
    }
}

/// The URL of a search.
pub fn npm_search_url(registry: &str, query: &str, limit: u64) -> (r: Result<String, OmcRegistryError>)
    ensures
        match search_url(registry@, query@, limit) {
            Ok(u) => r matches Ok(x) && x@ == u,
            Err(m) => r matches Err(OmcRegistryError::UnsupportedSpec(x)) && x@ == m,
        },
{
    let qc = chars_of(query);
    let q = trim_chars(qc.as_slice());
    if q.len() == 0 {
        return Err(OmcRegistryError::UnsupportedSpec(fixed("npm search needs search terms")));
    }
    let qs = string_from_chars(q.as_slice());
    let rc = chars_of(registry);
    let base = ensure_trailing_slash(rc.as_slice());
    let e = url_encode(qs.as_str());
    let ec = chars_of(e.as_str());
    let head = four(base.as_slice(), chars_of("-/v1/search?text=").as_slice(), ec.as_slice(), chars_of("&size=").as_slice());
    let hc = chars_of(head.as_str());
    let n = decimal_chars(limit);
    let all = concat_chars(hc.as_slice(), n.as_slice());
    Ok(string_from_chars(all.as_slice()))
}

/// The stars of a user: the view of the packages it starred.
pub open spec fn stars_url(registry: Seq<char>, user: Seq<char>) -> Seq<char> {
    registry + "-/_view/starredByUser?key="@ + url_encoded("\""@ + user + "\""@)
}

/// The URL that lists the packages a user starred, under a registry that
/// ends with `/`.
pub fn npm_stars_url(registry: &str, user: &str) -> (r: String)
    ensures
        r@ == stars_url(registry@, user@),
{
    let uc = chars_of(user);
    let quote = chars_of("\"");
    let empty: Vec<char> = Vec::new();
    let key = four(quote.as_slice(), uc.as_slice(), quote.as_slice(), empty.as_slice());
    let e = url_encode(key.as_str());
    let ec = chars_of(e.as_str());
    let rc = chars_of(registry);
    let r = four(rc.as_slice(), chars_of("-/_view/starredByUser?key=").as_slice(), ec.as_slice(), empty.as_slice());
    assert(r@ =~= stars_url(registry@, user@));
    r
}

/// The endpoint of a team request, by its action: `create` on the scope's
/// teams, `destroy` on the team, `add` and `rm` on the team's users;
/// another action is refused.
pub open spec fn team_request_url(
    registry: Seq<char>,
    scope: Seq<char>,
    team: Option<Seq<char>>,
    action: Seq<char>,
) -> Result<Seq<char>, Seq<char>> {
    let t = match team {
        Some(t) => t,
        None => Seq::empty(),
    };
    if action == "create"@ {
        Ok(registry + "-/org/"@ + url_encoded(scope) + "/team"@)
    } else if action == "destroy"@ {
        Ok(registry + "-/team/"@ + url_encoded(scope) + "/"@ + url_encoded(t))
    } else if action == "add"@ || action == "rm"@ {
        Ok(registry + "-/team/"@ + url_encoded(scope) + "/"@ + url_encoded(t) + "/user"@)
    } else {
        Err("unsupported npm team action `"@ + action + "`"@)
    }
}

/// The URL of a team request under a registry that ends with `/`.
pub fn npm_team_request_url(registry: &str, scope: &str, team: Option<&str>, action: &str) -> (r:
    Result<String, OmcRegistryError>)
    ensures
        match team_request_url(
            registry@,
            scope@,
            match team {
                Some(t) => Some(t@),
                None => None,
            },
            action@,
        ) {
            Ok(u) => r matches Ok(x) && x@ == u,
            Err(m) => r matches Err(OmcRegistryError::UnsupportedSpec(x)) && x@ == m,
        },
{
    proof {
        reveal_strlit("");
    }
    let ac = chars_of(action);
    let rc = chars_of(registry);
    let s = url_encode(scope);
    let sc = chars_of(s.as_str());
    let tt = match team {
        Some(t) => t,
        None => "",
    };
    let t = url_encode(tt);
    let tc = chars_of(t.as_str());
    let ghost team_text = match team {
        Some(x) => x@,
        None => Seq::<char>::empty(),
    };
    assert(tt@ == team_text);
    if eq_chars(ac.as_slice(), chars_of("create").as_slice()) {
        return Ok(four(rc.as_slice(), chars_of("-/org/").as_slice(), sc.as_slice(), chars_of("/team").as_slice()));
    }
    let head = four(rc.as_slice(), chars_of("-/team/").as_slice(), sc.as_slice(), chars_of("/").as_slice());
    let hc = chars_of(head.as_str());
    if eq_chars(ac.as_slice(), chars_of("destroy").as_slice()) {
        let all = concat_chars(hc.as_slice(), tc.as_slice());
        assert(all@ =~= registry@ + "-/team/"@ + url_encoded(scope@) + "/"@ + url_encoded(team_text));
        return Ok(string_from_chars(all.as_slice()));
    }
    if eq_chars(ac.as_slice(), chars_of("add").as_slice()) || eq_chars(
        ac.as_slice(),
        chars_of("rm").as_slice(),
    ) {
        let empty: Vec<char> = Vec::new();
        let r = four(hc.as_slice(), tc.as_slice(), chars_of("/user").as_slice(), empty.as_slice());
        assert(r@ =~= registry@ + "-/team/"@ + url_encoded(scope@) + "/"@ + url_encoded(team_text)
            + "/user"@);
        return Ok(r);
    }
    Err(OmcRegistryError::UnsupportedSpec(message("unsupported npm team action `", ac.as_slice(), "`")))
}

// ---------------------------------------------------------------------------
// Arguments
// ---------------------------------------------------------------------------

/// The version an unpublish names: none for the whole package (`*` or
/// nothing), an exact version, and otherwise refused.
pub open spec fn unpublish_version(requested: Option<Seq<char>>) -> Result<Option<Seq<char>>, Seq<char>> {
    match requested {
        None => Ok(None),
        Some(v) => if v == "*"@ {
            Ok(None)
        } else if parsed_semver(v) is Some {
            Ok(Some(v))
        } else {
            Err(
                "Can only unpublish a single version, or the entire project. Tags and ranges are not supported: `"@
                    + v + "`"@,
            )
        },
    }
}

/// The version an unpublish names.
pub fn npm_unpublish_version(requested: Option<&str>) -> (r: Result<Option<String>, OmcRegistryError>)
    ensures
        match unpublish_version(
            match requested {
                Some(v) => Some(v@),
                None => None,
            },
        ) {
            Ok(v) => r matches Ok(x) && opt_text(x) == v,
            Err(m) => r matches Err(OmcRegistryError::UnsupportedSpec(x)) && x@ == m,
        },
{
    match requested {
        None => Ok(None),
        Some(v) => {
            let vc = chars_of(v);
            if eq_chars(vc.as_slice(), chars_of("*").as_slice()) {
                Ok(None)
            } else if is_exact_npm_version(v) {
                Ok(Some(fixed(v)))
            } else {
                Err(
                    OmcRegistryError::UnsupportedSpec(
                        message(
                            "Can only unpublish a single version, or the entire project. Tags and ranges are not supported: `",
                            vc.as_slice(),
                            "`",
                        ),
                    ),
                )
            }
        },
    }
}

/// The range a deprecation covers: `*` when none is given; refused when it
/// is not a valid range.
pub open spec fn deprecate_requirement(requirement: Option<Seq<char>>) -> Result<Seq<char>, Seq<char>> {
    let r = match requirement {
        Some(r) => r,
        None => "*"@,
    };
    if deprecate_valid_at(r, 1) {
        Ok(r)
    } else {
        Err("npm deprecate got invalid version range `"@ + r + "`"@)
    }
}

/// The range a deprecation covers.
pub fn npm_deprecate_requirement(requirement: Option<&str>) -> (r: Result<String, OmcRegistryError>)
    ensures
        match deprecate_requirement(
            match requirement {
                Some(v) => Some(v@),
                None => None,
            },
        ) {
            Ok(v) => r matches Ok(x) && x@ == v,
            Err(m) => r matches Err(OmcRegistryError::UnsupportedSpec(x)) && x@ == m,
        },
{
    let r = match requirement {
        Some(r) => fixed(r),
        None => fixed("*"),
    };
    if npm_deprecate_valid_requirement(r.as_str()) {
        Ok(r)
    } else {
        let c = chars_of(r.as_str());
        Err(
            OmcRegistryError::UnsupportedSpec(
                message("npm deprecate got invalid version range `", c.as_slice(), "`"),
            ),
        )
    }
}

/// The arguments of `dist-tag add`: package, version and tag, trimmed and
/// not blank, the version exact.
pub open spec fn dist_tag_add_args(package: Seq<char>, version: Seq<char>, tag: Seq<char>) -> Result<
    (Seq<char>, Seq<char>, Seq<char>),
    Seq<char>,
> {
    let (p, v, t) = (trim(package), trim(version), trim(tag));
    if p.len() == 0 || v.len() == 0 || t.len() == 0 {
        Err("npm dist-tag add needs package, version, and tag"@)
    } else if parsed_semver(v) is None {
        Err("npm dist-tag add needs an exact semver version, got `"@ + v + "`"@)
    } else {
        Ok((p, v, t))
    }
}

/// Checks the arguments of `dist-tag add`.
pub fn npm_dist_tag_add_args(package: &str, version: &str, tag: &str) -> (r: Result<
    (String, String, String),
    OmcRegistryError,
>)
    ensures
        match dist_tag_add_args(package@, version@, tag@) {
            Ok((p, v, t)) => r matches Ok((x, y, z)) && x@ == p && y@ == v && z@ == t,
            Err(m) => r matches Err(OmcRegistryError::UnsupportedSpec(x)) && x@ == m,
        },
{
    let p = trim_chars(chars_of(package).as_slice());
    let v = trim_chars(chars_of(version).as_slice());
    let t = trim_chars(chars_of(tag).as_slice());
    if p.len() == 0 || v.len() == 0 || t.len() == 0 {
        return Err(
            OmcRegistryError::UnsupportedSpec(fixed("npm dist-tag add needs package, version, and tag")),
        );
    }
    let vs = string_from_chars(v.as_slice());
    if !is_exact_npm_version(vs.as_str()) {
        return Err(
            OmcRegistryError::UnsupportedSpec(
                message("npm dist-tag add needs an exact semver version, got `", v.as_slice(), "`"),
            ),
        );
    }
    Ok((string_from_chars(p.as_slice()), vs, string_from_chars(t.as_slice())))
}

/// The arguments of `dist-tag rm`: package and tag, trimmed and not blank.
pub open spec fn dist_tag_rm_args(package: Seq<char>, tag: Seq<char>) -> Result<
    (Seq<char>, Seq<char>),
    Seq<char>,
> {
    if trim(package).len() == 0 || trim(tag).len() == 0 {
        Err("npm dist-tag rm needs package and tag"@)
    } else {
        Ok((trim(package), trim(tag)))
    }
}

/// Checks the arguments of `dist-tag rm`.
pub fn npm_dist_tag_rm_args(package: &str, tag: &str) -> (r: Result<(String, String), OmcRegistryError>)
    ensures
        match dist_tag_rm_args(package@, tag@) {
            Ok((p, t)) => r matches Ok((x, y)) && x@ == p && y@ == t,
            Err(m) => r matches Err(OmcRegistryError::UnsupportedSpec(x)) && x@ == m,
        },
{
    let p = trim_chars(chars_of(package).as_slice());
    let t = trim_chars(chars_of(tag).as_slice());
    if p.len() == 0 || t.len() == 0 {
        return Err(OmcRegistryError::UnsupportedSpec(fixed("npm dist-tag rm needs package and tag")));
    }
    Ok((string_from_chars(p.as_slice()), string_from_chars(t.as_slice())))
}

/// The user an owner change names: trimmed, not blank.
pub open spec fn owner_request_user(user: Seq<char>) -> Result<Seq<char>, Seq<char>> {
    if trim(user).len() == 0 {
        Err("npm owner mutation needs a username"@)
    } else {
        Ok(trim(user))
    }
}

/// Checks the user an owner change names.
pub fn npm_owner_request_user(user: &str) -> (r: Result<String, OmcRegistryError>)
    ensures
        match owner_request_user(user@) {
            Ok(u) => r matches Ok(x) && x@ == u,
            Err(m) => r matches Err(OmcRegistryError::UnsupportedSpec(x)) && x@ == m,
        },
{
    let u = trim_chars(chars_of(user).as_slice());
    if u.len() == 0 {
        return Err(OmcRegistryError::UnsupportedSpec(fixed("npm owner mutation needs a username")));
    }
    Ok(string_from_chars(u.as_slice()))
}

// ---------------------------------------------------------------------------
// Answers
// ---------------------------------------------------------------------------

/// The trust configurations of an answer: the items of a list, none for
/// `null`, else the answer itself.
pub open spec fn trust_configs(v: JsonView) -> Seq<JsonView> {
    match v {
        JsonView::Array(items) => items,
        JsonView::Null => Seq::empty(),
        _ => seq![v],
    }
}

/// The trust configurations of an answer.
pub fn npm_trust_configs(response: JsonValue) -> (r: Vec<JsonValue>)
    ensures
        items_view(r@) == trust_configs(response@),
{
    match response {
        JsonValue::Array(items) => {
            proof {
                assert(JsonValue::Array(items)@ == JsonView::Array(items_view(items@)));
            }
            items
        },
        JsonValue::Null => {
            let r: Vec<JsonValue> = Vec::new();
            assert(items_view(r@) =~= Seq::<JsonView>::empty());
            r
        },
        other => {
            proof {
                lemma_view_not_object(&other);
            }
            let ghost ov = other@;
            let mut r: Vec<JsonValue> = Vec::new();
            r.push(other);
            proof {
                lemma_items_view(r@);
                assert(items_view(r@) =~= seq![ov]);
            }
            r
        },
    }
}

/// The user name of a `whoami` answer.
pub open spec fn whoami_username(v: JsonView) -> Result<Seq<char>, Seq<char>> {
    match text_field(v, "username"@) {
        Some(u) => Ok(u),
        None => Err("npm whoami response did not include username"@),
    }
}

/// Reads the user name of a `whoami` answer.
pub fn npm_whoami_username(response: &JsonValue) -> (r: Result<String, OmcRegistryError>)
    ensures
        match whoami_username(response@) {
            Ok(u) => r matches Ok(x) && x@ == u,
            Err(m) => r matches Err(OmcRegistryError::UnsupportedSpec(x)) && x@ == m,
        },
{
    match crate::json::json_text_field(response, "username") {
        Some(u) => Ok(u.clone()),
        None => Err(
            OmcRegistryError::UnsupportedSpec(fixed("npm whoami response did not include username")),
        ),
    }
}

/// The tarball of a version manifest: `dist.tarball` when it is a text that
/// is not blank; else the package has no downloadable artifact.
pub open spec fn manifest_tarball(manifest: JsonView) -> Option<Seq<char>> {
    match field(manifest, "dist"@) {
        Some(dist) => match text_field(dist, "tarball"@) {
            Some(t) => if trim(t).len() > 0 {
                Some(t)
            } else {
                None
            },
            None => None,
        },
        None => None,
    }
}

/// The URL of a version's tarball; refused with `MissingArtifact` (naming
/// the package) when the manifest has none.
pub fn npm_manifest_tarball_url(manifest: &JsonValue, name: &str) -> (r: Result<
    String,
    OmcRegistryError,
>)
    ensures
        match manifest_tarball(manifest@) {
            Some(t) => r matches Ok(x) && x@ == t,
            None => r matches Err(OmcRegistryError::MissingArtifact(n)) && n@ == name@,
        },
{
    if let Some(dist) = crate::json::json_get(manifest, "dist") {
        if let Some(t) = crate::json::json_text_field(dist, "tarball") {
            if trim_chars(chars_of(t.as_str()).as_slice()).len() > 0 {
                return Ok(t.clone());
            }
        }
    }
    Err(OmcRegistryError::MissingArtifact(fixed(name)))
}

/// The dist-tags of a packument: its `dist-tags` members that are texts; a
/// later member of the same name wins.
pub open spec fn text_members(es: Seq<(Seq<char>, JsonView)>) -> Map<Seq<char>, Seq<char>>
    decreases es.len(),
{
    if es.len() == 0 {
        Map::empty()
    } else {
        match text_of(es.last().1) {
            Some(t) => text_members(es.drop_last()).insert(es.last().0, t),
            None => text_members(es.drop_last()),
        }
    }
}

/// The dist-tags of a packument: none unless `dist-tags` is an object.
pub open spec fn dist_tags(root: JsonView) -> Map<Seq<char>, Seq<char>> {
    match field(root, "dist-tags"@) {
        Some(JsonView::Object(es)) => text_members(es),
        _ => Map::empty(),
    }
}

/// The members of an object whose values are texts, by key; a later
/// member of the same name wins.
pub fn object_text_members(es: &Vec<(String, JsonValue)>) -> (r: PinMap)
    ensures
        r.wf(),
        r.view() == text_members(entries_view(es@)),
{
    let mut found = PinMap::new();
    proof {
        lemma_entries_view(es@);
    }
    let ghost ev = entries_view(es@);
    let mut i: usize = 0;
    assert(ev.take(0) =~= Seq::<(Seq<char>, JsonView)>::empty());
    while i < es.len()
        invariant
            i <= es@.len(),
            ev == entries_view(es@),
            ev.len() == es@.len(),
            forall|j: int| 0 <= j < es@.len() ==> #[trigger] ev[j] == (es@[j].0@, es@[j].1@),
            found.wf(),
            found.view() == text_members(ev.take(i as int)),
        decreases es.len() - i,
    {
        proof {
            let t = ev.take(i + 1);
            assert(t.drop_last() =~= ev.take(i as int));
            assert(t.last() == ev[i as int]);
        }
        if let JsonValue::Text(v) = &es[i].1 {
            let k = chars_of(es[i].0.as_str());
            let vc = chars_of(v.as_str());
            found.set(k.as_slice(), vc.as_slice());
        }
        i = i + 1;
    }
    assert(ev.take(es@.len() as int) =~= ev);
    found
}

/// The dist-tags of a packument.
pub fn npm_dist_tags(root: &JsonValue) -> (r: PinMap)
    ensures
        r.wf(),
        r.view() == dist_tags(root@),
{
    match crate::json::json_get(root, "dist-tags") {
        Some(JsonValue::Object(es)) => {
            proof {
                lemma_view_object(es);
            }
            object_text_members(es)
        },
        Some(other) => {
            proof {
                lemma_view_not_object(other);
            }
            PinMap::new()
        },
        None => PinMap::new(),
    }
}

/// The packages of a stars answer: the `value` texts of its `rows`;
/// refused without `rows`.
pub open spec fn row_values(rows: Seq<JsonView>) -> Seq<Seq<char>>
    decreases rows.len(),
{
    if rows.len() == 0 {
        Seq::empty()
    } else {
        match text_field(rows.last(), "value"@) {
            Some(t) => row_values(rows.drop_last()).push(t),
            None => row_values(rows.drop_last()),
        }
    }
}

/// The packages of a stars answer.
pub open spec fn starred_packages(v: JsonView) -> Result<Seq<Seq<char>>, Seq<char>> {
    match field(v, "rows"@) {
        Some(JsonView::Array(rows)) => Ok(row_values(rows)),
        _ => Err("npm stars response did not include rows"@),
    }
}

/// The texts of strings.
pub open spec fn texts(s: Seq<String>) -> Seq<Seq<char>> {
    Seq::new(s.len(), |i: int| s[i]@)
}

/// Reads the packages of a stars answer.
pub fn npm_starred_packages(response: &JsonValue) -> (r: Result<Vec<String>, OmcRegistryError>)
    ensures
        match starred_packages(response@) {
            Ok(ps) => r matches Ok(x) && texts(x@) == ps,
            Err(m) => r matches Err(OmcRegistryError::UnsupportedSpec(x)) && x@ == m,
        },
{
    match crate::json::json_get(response, "rows") {
        Some(JsonValue::Array(rows)) => {
            proof {
                lemma_items_view(rows@);
                assert(JsonValue::Array(*rows)@ == JsonView::Array(items_view(rows@)));
            }
            let ghost rv = items_view(rows@);
            let mut out: Vec<String> = Vec::new();
            let mut i: usize = 0;
            assert(rv.take(0) =~= Seq::<JsonView>::empty());
            assert(texts(out@) =~= Seq::<Seq<char>>::empty());
            while i < rows.len()
                invariant
                    i <= rows@.len(),
                    rv == items_view(rows@),
                    rv.len() == rows@.len(),
                    forall|j: int| 0 <= j < rows@.len() ==> #[trigger] rv[j] == rows@[j]@,
                    texts(out@) == row_values(rv.take(i as int)),
                decreases rows.len() - i,
            {
                proof {
                    let t = rv.take(i + 1);
                    assert(t.drop_last() =~= rv.take(i as int));
                    assert(t.last() == rv[i as int]);
                }
                if let Some(v) = crate::json::json_text_field(&rows[i], "value") {
                    let ghost before = out@;
                    out.push(v.clone());
                    assert(texts(out@) =~= texts(before).push(v@));
                }
                i = i + 1;
            }
            assert(rv.take(rows@.len() as int) =~= rv);
            Ok(out)
        },
        Some(other) => {
            proof {
                lemma_view_not_object(other);
            }
            Err(OmcRegistryError::UnsupportedSpec(fixed("npm stars response did not include rows")))
        },
        None => Err(OmcRegistryError::UnsupportedSpec(fixed("npm stars response did not include rows"))),
    }
}

// ---------------------------------------------------------------------------
// Owner and star documents
// ---------------------------------------------------------------------------

/// A packument's id (its `_id` text, else the package) and revision (its
/// `_rev` text, which must not be blank).
pub open spec fn packument_identity(p: JsonView, package: Seq<char>) -> Result<
    (Seq<char>, Seq<char>),
    Seq<char>,
> {
    let id = match text_field(p, "_id"@) {
        Some(i) => i,
        None => package,
    };
    match text_field(p, "_rev"@) {
        Some(r) => if trim(r).len() > 0 {
            Ok((id, r))
        } else {
            Err("npm registry response for `"@ + package + "` did not include _rev"@)
        },
        None => Err("npm registry response for `"@ + package + "` did not include _rev"@),
    }
}

/// Reads a packument's id and revision.
pub fn npm_packument_identity(packument: &JsonValue, package: &str) -> (r: Result<
    (String, String),
    OmcRegistryError,
>)
    ensures
        match packument_identity(packument@, package@) {
            Ok((i, v)) => r matches Ok((x, y)) && x@ == i && y@ == v,
            Err(m) => r matches Err(OmcRegistryError::UnsupportedSpec(x)) && x@ == m,
        },
{
    let id = match crate::json::json_text_field(packument, "_id") {
        Some(i) => i.clone(),
        None => fixed(package),
    };
    if let Some(rev) = crate::json::json_text_field(packument, "_rev") {
        if trim_chars(chars_of(rev.as_str()).as_slice()).len() > 0 {
            return Ok((id, rev.clone()));
        }
    }
    let pc = chars_of(package);
    Err(
        OmcRegistryError::UnsupportedSpec(
            message("npm registry response for `", pc.as_slice(), "` did not include _rev"),
        ),
    )
}

/// An optional text as JSON: the text, or `null`.
pub open spec fn text_or_null(o: Option<Seq<char>>) -> JsonView {
    match o {
        Some(t) => JsonView::Text(t),
        None => JsonView::Null,
    }
}

/// An owner as the registry takes it: name and e-mail.
pub open spec fn owner_json(u: (Option<Seq<char>>, Option<Seq<char>>)) -> JsonView {
    JsonView::Object(
        with_member(
            with_member(Seq::empty(), "name"@, text_or_null(u.1)),
            "email"@,
            text_or_null(u.0),
        ),
    )
}

/// The document that sets a package's owners.
pub open spec fn owner_document(
    id: Seq<char>,
    rev: Seq<char>,
    owners: Seq<(Option<Seq<char>>, Option<Seq<char>>)>,
) -> JsonView {
    JsonView::Object(
        with_member(
            with_member(
                with_member(Seq::empty(), "_id"@, JsonView::Text(id)),
                "_rev"@,
                JsonView::Text(rev),
            ),
            "maintainers"@,
            JsonView::Array(Seq::new(owners.len(), |i: int| owner_json(owners[i]))),
        ),
    )
}

fn text_or_null_value(o: &Option<String>) -> (v: JsonValue)
    ensures
        v@ == text_or_null(opt_text(*o)),
{
    match o {
        Some(t) => JsonValue::Text(t.clone()),
        None => JsonValue::Null,
    }
}

/// The document that sets a package's owners.
pub fn npm_owner_document(id: &str, rev: &str, owners: &Vec<NpmSearchUser>) -> (v: JsonValue)
    ensures
        v@ == owner_document(id@, rev@, users_view(owners@)),
{
    let mut list: Vec<JsonValue> = Vec::new();
    let mut i: usize = 0;
    while i < owners.len()
        invariant
            i <= owners@.len(),
            list@.len() == i,
            forall|j: int| 0 <= j < i ==> (#[trigger] list@[j])@ == owner_json(owners@[j]@),
        decreases owners.len() - i,
    {
        let mut o: Vec<(String, JsonValue)> = Vec::new();
        assert(entries_view(o@) =~= Seq::<(Seq<char>, JsonView)>::empty());
        set_member(&mut o, fixed("name"), text_or_null_value(&owners[i].username));
        set_member(&mut o, fixed("email"), text_or_null_value(&owners[i].email));
        proof {
            lemma_view_object(&o);
        }
        list.push(JsonValue::Object(o));
        i = i + 1;
    }
    proof {
        lemma_items_view(list@);
        assert(items_view(list@) =~= Seq::new(
            users_view(owners@).len(),
            |j: int| owner_json(users_view(owners@)[j]),
        ));
        assert(JsonValue::Array(list)@ == JsonView::Array(items_view(list@)));
    }
    let mut doc: Vec<(String, JsonValue)> = Vec::new();
    assert(entries_view(doc@) =~= Seq::<(Seq<char>, JsonView)>::empty());
    set_member(&mut doc, fixed("_id"), JsonValue::Text(fixed(id)));
    set_member(&mut doc, fixed("_rev"), JsonValue::Text(fixed(rev)));
    set_member(&mut doc, fixed("maintainers"), JsonValue::Array(list));
    proof {
        lemma_view_object(&doc);
    }
    JsonValue::Object(doc)
}

/// The users who starred a package: its `users` members that are
/// booleans; none without `users`; refused when `users` is not an object.
pub open spec fn bool_members(es: Seq<(Seq<char>, JsonView)>) -> Seq<(Seq<char>, JsonView)>
    decreases es.len(),
{
    if es.len() == 0 {
        es
    } else if es.last().1 is Bool {
        with_member(bool_members(es.drop_last()), es.last().0, es.last().1)
    } else {
        bool_members(es.drop_last())
    }
}

/// The users of a packument as a map from name to starred, as members.
pub open spec fn packument_users(p: JsonView) -> Result<Seq<(Seq<char>, JsonView)>, Seq<char>> {
    match field(p, "users"@) {
        None => Ok(Seq::empty()),
        Some(JsonView::Object(es)) => Ok(bool_members(es)),
        Some(_) => Err("npm registry response users field was not an object"@),
    }
}

/// The document that stars (or unstars) a package for a user: the
/// packument's id and revision, and its users with the user added as
/// `true` (or removed).
pub open spec fn star_document(p: JsonView, package: Seq<char>, user: Seq<char>, starred: bool) -> Result<
    JsonView,
    Seq<char>,
> {
    match packument_identity(p, package) {
        Err(m) => Err(m),
        Ok((id, rev)) => match packument_users(p) {
            Err(m) => Err(m),
            Ok(users) => {
                let after = if starred {
                    with_member(users, user, JsonView::Bool(true))
                } else {
                    without_member(users, user)
                };
                Ok(
                    JsonView::Object(
                        with_member(
                            with_member(
                                with_member(Seq::empty(), "_id"@, JsonView::Text(id)),
                                "_rev"@,
                                JsonView::Text(rev),
                            ),
                            "users"@,
                            JsonView::Object(after),
                        ),
                    ),
                )
            },
        },
    }
}

fn bool_entries(es: &Vec<(String, JsonValue)>) -> (r: Vec<(String, JsonValue)>)
    ensures
        entries_view(r@) == bool_members(entries_view(es@)),
{
    proof {
        lemma_entries_view(es@);
    }
    let ghost ev = entries_view(es@);
    let mut out: Vec<(String, JsonValue)> = Vec::new();
    let mut i: usize = 0;
    assert(ev.take(0) =~= Seq::<(Seq<char>, JsonView)>::empty());
    assert(entries_view(out@) =~= Seq::<(Seq<char>, JsonView)>::empty());
    while i < es.len()
        invariant
            i <= es@.len(),
            ev == entries_view(es@),
            ev.len() == es@.len(),
            forall|j: int| 0 <= j < es@.len() ==> #[trigger] ev[j] == (es@[j].0@, es@[j].1@),
            entries_view(out@) == bool_members(ev.take(i as int)),
        decreases es.len() - i,
    {
        proof {
            let t = ev.take(i + 1);
            assert(t.drop_last() =~= ev.take(i as int));
            assert(t.last() == ev[i as int]);
        }
        if let JsonValue::Bool(b) = &es[i].1 {
            set_member(&mut out, es[i].0.clone(), JsonValue::Bool(*b));
        } else {
            proof {
                lemma_view_not_bool(&es@[i as int].1);
            }
        }
        i = i + 1;
    }
    assert(ev.take(es@.len() as int) =~= ev);
    out
}

proof fn lemma_view_not_bool(v: &JsonValue)
    ensures
        (v@ is Bool) == (*v is Bool),
{
}

/// The document that stars (or unstars) a package (see `star_document`).
pub fn npm_star_document(packument: &JsonValue, package: &str, user: &str, starred: bool) -> (r:
    Result<JsonValue, OmcRegistryError>)
    ensures
        match star_document(packument@, package@, user@, starred) {
            Ok(d) => r matches Ok(v) && v@ == d,
            Err(m) => r matches Err(OmcRegistryError::UnsupportedSpec(x)) && x@ == m,
        },
{
    let (id, rev) = npm_packument_identity(packument, package)?;
    let mut users = match crate::json::json_get(packument, "users") {
        None => {
            let v: Vec<(String, JsonValue)> = Vec::new();
            assert(entries_view(v@) =~= Seq::<(Seq<char>, JsonView)>::empty());
            v
        },
        Some(JsonValue::Object(es)) => {
            proof {
                lemma_view_object(es);
            }
            bool_entries(es)
        },
        Some(other) => {
            proof {
                lemma_view_not_object(other);
            }
            return Err(
                OmcRegistryError::UnsupportedSpec(
                    fixed("npm registry response users field was not an object"),
                ),
            );
        },
    };
    if starred {
        set_member(&mut users, fixed(user), JsonValue::Bool(true));
    } else {
        let _ = take_member(&mut users, user);
    }
    proof {
        lemma_view_object(&users);
    }
    let mut doc: Vec<(String, JsonValue)> = Vec::new();
    assert(entries_view(doc@) =~= Seq::<(Seq<char>, JsonView)>::empty());
    set_member(&mut doc, fixed("_id"), JsonValue::Text(id));
    set_member(&mut doc, fixed("_rev"), JsonValue::Text(rev));
    set_member(&mut doc, fixed("users"), JsonValue::Object(users));
    proof {
        lemma_view_object(&doc);
    }
    Ok(JsonValue::Object(doc))
}

// ---------------------------------------------------------------------------
// Profile
// ---------------------------------------------------------------------------

/// What `str::to_lowercase` makes of a text.
pub uninterp spec fn lowercased(text: Seq<char>) -> Seq<char>;

/// A text of ASCII characters only.
pub open spec fn all_ascii(s: Seq<char>) -> bool {
    forall|i: int| 0 <= i < s.len() ==> (#[trigger] s[i]) as u32 <= 0x7f
}

/// Lower-cases a text with `str::to_lowercase`.  The contract names the
/// result (Unicode lower-casing) and states that an ASCII text is
/// lower-cased letter by letter.
#[verifier::external_body]
fn to_lowercase(text: &str) -> (r: String)
    ensures
        r@ == lowercased(text@),
        all_ascii(text@) ==> r@ == lower_seq(text@),
{
    text.to_lowercase()
}

/// The profile properties that can be set (`password` among them, though
/// it is refused).
pub open spec fn writable_key(p: Seq<char>) -> bool {
    p == "email"@ || p == "password"@ || p == "fullname"@ || p == "homepage"@ || p == "freenode"@
        || p == "twitter"@ || p == "github"@
}

/// The property a profile change names: trimmed and lower-cased; refused
/// unless writable, and for `password`.
pub open spec fn profile_property(property: Seq<char>) -> Result<Seq<char>, Seq<char>> {
    let p = lowercased(trim(property));
    if !writable_key(p) {
        Err("\""@ + p + "\" is not a property we can set"@)
    } else if p == "password"@ {
        Err("npm profile set password is interactive and is not implemented by OMC"@)
    } else {
        Ok(p)
    }
}

fn same(a: &[char], b: &str) -> (r: bool)
    ensures
        r == (a@ == b@),
{
    let bc = chars_of(b);
    eq_chars(a, bc.as_slice())
}

/// Checks the property a profile change names.
pub fn npm_profile_property(property: &str) -> (r: Result<String, OmcRegistryError>)
    ensures
        match profile_property(property@) {
            Ok(p) => r matches Ok(x) && x@ == p,
            Err(m) => r matches Err(OmcRegistryError::UnsupportedSpec(x)) && x@ == m,
        },
{
    let t = string_from_chars(trim_chars(chars_of(property).as_slice()).as_slice());
    let p = to_lowercase(t.as_str());
    let pc = chars_of(p.as_str());
    let s = pc.as_slice();
    let writable = same(s, "email") || same(s, "password") || same(s, "fullname") || same(
        s,
        "homepage",
    ) || same(s, "freenode") || same(s, "twitter") || same(s, "github");
    if !writable {
        return Err(
            OmcRegistryError::UnsupportedSpec(message("\"", s, "\" is not a property we can set")),
        );
    }
    if same(s, "password") {
        return Err(
            OmcRegistryError::UnsupportedSpec(
                fixed("npm profile set password is interactive and is not implemented by OMC"),
            ),
        );
    }
    Ok(p)
}

/// The value a profile property is set to: `null` for an empty text.
pub open spec fn profile_value(value: Seq<char>) -> JsonView {
    if value.len() == 0 {
        JsonView::Null
    } else {
        JsonView::Text(value)
    }
}

/// The members with `key` copied from the profile when it has it.
pub open spec fn copied(es: Seq<(Seq<char>, JsonView)>, current: JsonView, key: Seq<char>) -> Seq<
    (Seq<char>, JsonView),
> {
    match field(current, key) {
        Some(v) => with_member(es, key, v),
        None => es,
    }
}

/// The body of a profile change: the writable properties the profile has
/// (but the password), then the property set to its value.
pub open spec fn profile_body(current: JsonView, property: Seq<char>, value: Seq<char>) -> JsonView {
    let e = copied(
        copied(
            copied(
                copied(
                    copied(copied(Seq::empty(), current, "email"@), current, "fullname"@),
                    current,
                    "homepage"@,
                ),
                current,
                "freenode"@,
            ),
            current,
            "twitter"@,
        ),
        current,
        "github"@,
    );
    JsonView::Object(with_member(e, property, profile_value(value)))
}

fn copy_member(es: &mut Vec<(String, JsonValue)>, current: &JsonValue, key: &str)
    ensures
        entries_view(final(es)@) == copied(entries_view(old(es)@), current@, key@),
{
    if let Some(v) = crate::json::json_get(current, key) {
        set_member(es, fixed(key), crate::json::json_copy(v));
    }
}

fn profile_value_of(value: &str) -> (v: JsonValue)
    ensures
        v@ == profile_value(value@),
{
    if chars_of(value).len() == 0 {
        JsonValue::Null
    } else {
        JsonValue::Text(fixed(value))
    }
}

/// The body of a profile change from the current profile.
pub fn npm_profile_body(current: &JsonValue, property: &str, value: &str) -> (v: JsonValue)
    ensures
        v@ == profile_body(current@, property@, value@),
{
    let mut es: Vec<(String, JsonValue)> = Vec::new();
    assert(entries_view(es@) =~= Seq::<(Seq<char>, JsonView)>::empty());
    copy_member(&mut es, current, "email");
    copy_member(&mut es, current, "fullname");
    copy_member(&mut es, current, "homepage");
    copy_member(&mut es, current, "freenode");
    copy_member(&mut es, current, "twitter");
    copy_member(&mut es, current, "github");
    set_member(&mut es, fixed(property), profile_value_of(value));
    proof {
        lemma_view_object(&es);
    }
    JsonValue::Object(es)
}

/// The value a profile change reports: the answer's, else the one sent.
pub open spec fn profile_result_value(response: JsonView, property: Seq<char>, value: Seq<char>) -> JsonView {
    match field(response, property) {
        Some(v) => v,
        None => profile_value(value),
    }
}

/// The value a profile change reports.
pub fn npm_profile_result_value(response: &JsonValue, property: &str, value: &str) -> (v: JsonValue)
    ensures
        v@ == profile_result_value(response@, property@, value@),
{
    match crate::json::json_get(response, property) {
        Some(v) => crate::json::json_copy(v),
        None => profile_value_of(value),
    }
}

} // verus!
