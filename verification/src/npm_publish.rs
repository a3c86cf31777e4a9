//! What `npm publish` and `npm token create` send: the publish document
//! with its attachments and integrity, and the token request.
use vstd::prelude::*;
use crate::error::OmcRegistryError;
use crate::json::{json_copy, set_member, text_field, with_member, JsonValue, JsonView};
use crate::npm_arguments::{fixed, message};
use crate::npm_config::{ensure_trailing_slash, with_trailing_slash};
use crate::npm_github::{url_encode, url_encoded};
use crate::text::{chars_of, concat_chars, string_from_chars, trim, trim_chars};

verus! {

// ---------------------------------------------------------------------------
// Digests
// ---------------------------------------------------------------------------

/// What the `base64` crate's standard engine (with padding) writes for the
/// bytes.
pub uninterp spec fn base64_text(bytes: Seq<u8>) -> Seq<char>;

/// Encodes bytes with `base64::engine::general_purpose::STANDARD`.  The
/// contract names the result.  The engine panics when the length of the
/// text overflows `usize`, which the `requires` rules out.
#[verifier::external_body]
fn base64_encode(bytes: &[u8]) -> (r: String)
    requires
        bytes@.len() <= usize::MAX / 2,
    ensures
        r@ == base64_text(bytes@),
{
    base64::Engine::encode(&base64::engine::general_purpose::STANDARD, bytes)
}

/// The SHA-512 digest of the bytes.
pub uninterp spec fn sha512_digest(bytes: Seq<u8>) -> Seq<u8>;

/// Hashes bytes with `sha2::Sha512` through `Digest::digest`.  The contract
/// names the result and states its length, 64 bytes, which SHA-512 fixes.
#[verifier::external_body]
fn sha512_of(bytes: &[u8]) -> (r: Vec<u8>)
    ensures
        r@ == sha512_digest(bytes@),
        r@.len() == 64,
{
    <sha2::Sha512 as sha2::Digest>::digest(bytes).to_vec()
}

/// The integrity of a tarball as npm writes it: `sha512-` and the base64 of
/// its SHA-512 digest.
pub open spec fn publish_integrity(bytes: Seq<u8>) -> Seq<char> {
    "sha512-"@ + base64_text(sha512_digest(bytes))
}

/// The integrity of a tarball.
pub fn npm_publish_integrity(bytes: &[u8]) -> (r: String)
    ensures
        r@ == publish_integrity(bytes@),
{
    let digest = sha512_of(bytes);
    let text = base64_encode(digest.as_slice());
    let c = chars_of(text.as_str());
    let m = message("sha512-", c.as_slice(), "");
    proof {
        reveal_strlit("");
        assert(m@ =~= "sha512-"@ + base64_text(sha512_digest(bytes@)));
    }
    m
}

// ---------------------------------------------------------------------------
// The publish document
// ---------------------------------------------------------------------------

/// A provenance bundle attached to a publish.
#[derive(Clone, Debug, PartialEq, Eq)]
pub struct NpmProvenanceBundle {
    pub media_type: String,
    pub data: String,
}

/// A package to publish: its manifest, its tarball and where it goes.
#[derive(Debug)]
pub struct NpmPublishPackage {
    pub name: String,
    pub version: String,
    pub manifest: JsonValue,
    pub filename: String,
    pub tarball: Vec<u8>,
    pub tag: String,
    pub access: Option<String>,
    pub provenance: Option<NpmProvenanceBundle>,
}

/// Where the registry serves a published tarball.
pub open spec fn publish_tarball_url(registry: Seq<char>, name: Seq<char>, filename: Seq<char>) -> Seq<
    char,
> {
    with_trailing_slash(registry) + url_encoded(name) + "/-/"@ + filename
}

/// An attachment: content type, data and length.
pub open spec fn attachment(content_type: Seq<char>, data: Seq<char>, length: u64) -> JsonView {
    JsonView::Object(
        with_member(
            with_member(
                with_member(Seq::empty(), "content_type"@, JsonView::Text(content_type)),
                "data"@,
                JsonView::Text(data),
            ),
            "length"@,
            JsonView::Unsigned(length),
        ),
    )
}

/// The number of bytes of a text in UTF-8.
pub open spec fn byte_len(s: Seq<char>) -> nat {
    vstd::utf8::encode_utf8(s).len()
}

/// The document that publishes a package: its id and name, its
/// description from the manifest, the dist-tag, the access, the version's
/// manifest with its id, name, version and dist, and the tarball (and
/// provenance) as attachments.  Refused when the manifest is not an
/// object.
pub open spec fn publish_document(
    registry: Seq<char>,
    p: NpmPublishPackage,
    shasum: Seq<char>,
    integrity: Seq<char>,
) -> Result<JsonView, Seq<char>> {
    match p.manifest@ {
        JsonView::Object(mem) => {
            let e2 = with_member(
                with_member(Seq::empty(), "_id"@, JsonView::Text(p.name@)),
                "name"@,
                JsonView::Text(p.name@),
            );
            let e3 = match text_field(p.manifest@, "description"@) {
                Some(d) => with_member(e2, "description"@, JsonView::Text(d)),
                None => e2,
            };
            let e4 = with_member(
                e3,
                "dist-tags"@,
                JsonView::Object(with_member(Seq::empty(), p.tag@, JsonView::Text(p.version@))),
            );
            let e5 = match p.access {
                Some(a) => with_member(e4, "access"@, JsonView::Text(a@)),
                None => e4,
            };
            let dist = with_member(
                with_member(
                    with_member(Seq::empty(), "shasum"@, JsonView::Text(shasum)),
                    "integrity"@,
                    JsonView::Text(integrity),
                ),
                "tarball"@,
                JsonView::Text(publish_tarball_url(registry, p.name@, p.filename@)),
            );
            let v4 = with_member(
                with_member(
                    with_member(
                        with_member(mem, "_id"@, JsonView::Text(p.name@ + "@"@ + p.version@)),
                        "name"@,
                        JsonView::Text(p.name@),
                    ),
                    "version"@,
                    JsonView::Text(p.version@),
                ),
                "dist"@,
                JsonView::Object(dist),
            );
            let e6 = with_member(
                e5,
                "versions"@,
                JsonView::Object(with_member(Seq::empty(), p.version@, JsonView::Object(v4))),
            );
            let a1 = with_member(
                Seq::empty(),
                p.filename@,
                attachment(
                    "application/octet-stream"@,
                    base64_text(p.tarball@),
                    p.tarball@.len() as u64,
                ),
            );
            let a2 = match p.provenance {
                Some(pv) => with_member(
                    a1,
                    p.name@ + "-"@ + p.version@ + ".sigstore"@,
                    attachment(
                        pv.media_type@,
                        pv.data@,
                        (byte_len(pv.data@) as usize) as u64,
                    ),
                ),
                None => a1,
            };
            Ok(JsonView::Object(with_member(e6, "_attachments"@, JsonView::Object(a2))))
        },
        _ => Err("npm publish package manifest must be a JSON object"@),
    }
}

fn text_value(s: &str) -> (v: JsonValue)
    ensures
        v@ == JsonView::Text(s@),
{
    JsonValue::Text(fixed(s))
}

/// Where the registry serves a published tarball.
pub fn npm_publish_tarball_url(registry: &str, name: &str, filename: &str) -> (r: String)
    ensures
        r@ == publish_tarball_url(registry@, name@, filename@),
{
    let rc = chars_of(registry);
    let base = ensure_trailing_slash(rc.as_slice());
    let encoded = url_encode(name);
    let ec = chars_of(encoded.as_str());
    let fc = chars_of(filename);
    let head = concat_chars(base.as_slice(), ec.as_slice());
    let m = message("", head.as_slice(), "/-/");
    let mc = chars_of(m.as_str());
    let all = concat_chars(mc.as_slice(), fc.as_slice());
    proof {
        reveal_strlit("");
        assert(all@ =~= with_trailing_slash(registry@) + url_encoded(name@) + "/-/"@ + filename@);
    }
    string_from_chars(all.as_slice())
}

fn attachment_value(content_type: String, data: String, length: u64) -> (v: JsonValue)
    ensures
        v@ == attachment(content_type@, data@, length),
{
    let mut es: Vec<(String, JsonValue)> = Vec::new();
    assert(crate::json::entries_view(es@) =~= Seq::<(Seq<char>, JsonView)>::empty());
    set_member(&mut es, fixed("content_type"), JsonValue::Text(content_type));
    set_member(&mut es, fixed("data"), JsonValue::Text(data));
    set_member(&mut es, fixed("length"), JsonValue::Unsigned(length));
    proof {
        crate::json::lemma_view_object(&es);
    }
    JsonValue::Object(es)
}

fn joined3(a: &str, b: &str, c: &str, d: &str) -> (r: String)
    ensures
        r@ == a@ + b@ + c@ + d@,
{
    let ac = chars_of(a);
    let bc = chars_of(b);
    let ab = concat_chars(ac.as_slice(), bc.as_slice());
    let m = message("", ab.as_slice(), c);
    let mc = chars_of(m.as_str());
    let dc = chars_of(d);
    let all = concat_chars(mc.as_slice(), dc.as_slice());
    proof {
        reveal_strlit("");
        assert(all@ =~= a@ + b@ + c@ + d@);
    }
    string_from_chars(all.as_slice())
}

/// The document that publishes a package (see `publish_document`).
pub fn npm_publish_document(
    registry: &str,
    package: &NpmPublishPackage,
    shasum: &str,
    integrity: &str,
) -> (r: Result<JsonValue, OmcRegistryError>)
    requires
        package.tarball@.len() <= usize::MAX / 2,
    ensures
        match publish_document(registry@, *package, shasum@, integrity@) {
            Ok(d) => r matches Ok(v) && v@ == d,
            Err(m) => r matches Err(OmcRegistryError::UnsupportedSpec(x)) && x@ == m,
        },
{
    let mut root: Vec<(String, JsonValue)> = Vec::new();
    assert(crate::json::entries_view(root@) =~= Seq::<(Seq<char>, JsonView)>::empty());
    set_member(&mut root, fixed("_id"), text_value(package.name.as_str()));
    set_member(&mut root, fixed("name"), text_value(package.name.as_str()));
    if let Some(description) = crate::json::json_text_field(&package.manifest, "description") {
        set_member(&mut root, fixed("description"), text_value(description.as_str()));
    }
    let ghost e3 = crate::json::entries_view(root@);
    let mut dist_tags: Vec<(String, JsonValue)> = Vec::new();
    assert(crate::json::entries_view(dist_tags@) =~= Seq::<(Seq<char>, JsonView)>::empty());
    set_member(&mut dist_tags, package.tag.clone(), text_value(package.version.as_str()));
    proof {
        crate::json::lemma_view_object(&dist_tags);
    }
    set_member(&mut root, fixed("dist-tags"), JsonValue::Object(dist_tags));
    if let Some(access) = &package.access {
        set_member(&mut root, fixed("access"), text_value(access.as_str()));
    }
    let mut version = match json_copy(&package.manifest) {
        JsonValue::Object(es) => es,
        other => {
            proof {
                crate::json::lemma_view_not_object(&other);
            }
            return Err(
                OmcRegistryError::UnsupportedSpec(
                    fixed("npm publish package manifest must be a JSON object"),
                ),
            );
        },
    };
    proof {
        crate::json::lemma_view_object(&version);
    }
    let id = joined3(package.name.as_str(), "@", package.version.as_str(), "");
    proof {
        reveal_strlit("");
        assert(id@ =~= package.name@ + "@"@ + package.version@);
    }
    set_member(&mut version, fixed("_id"), JsonValue::Text(id));
    set_member(&mut version, fixed("name"), text_value(package.name.as_str()));
    set_member(&mut version, fixed("version"), text_value(package.version.as_str()));
    let mut dist: Vec<(String, JsonValue)> = Vec::new();
    assert(crate::json::entries_view(dist@) =~= Seq::<(Seq<char>, JsonView)>::empty());
    set_member(&mut dist, fixed("shasum"), text_value(shasum));
    set_member(&mut dist, fixed("integrity"), text_value(integrity));
    let url = npm_publish_tarball_url(registry, package.name.as_str(), package.filename.as_str());
    set_member(&mut dist, fixed("tarball"), JsonValue::Text(url));
    proof {
        crate::json::lemma_view_object(&dist);
    }
    set_member(&mut version, fixed("dist"), JsonValue::Object(dist));
    proof {
        crate::json::lemma_view_object(&version);
    }
    let mut versions: Vec<(String, JsonValue)> = Vec::new();
    assert(crate::json::entries_view(versions@) =~= Seq::<(Seq<char>, JsonView)>::empty());
    set_member(&mut versions, package.version.clone(), JsonValue::Object(version));
    proof {
        crate::json::lemma_view_object(&versions);
    }
    set_member(&mut root, fixed("versions"), JsonValue::Object(versions));
    let mut attachments: Vec<(String, JsonValue)> = Vec::new();
    assert(crate::json::entries_view(attachments@) =~= Seq::<(Seq<char>, JsonView)>::empty());
    let data = base64_encode(package.tarball.as_slice());
    let length = package.tarball.len() as u64;
    set_member(
        &mut attachments,
        package.filename.clone(),
        attachment_value(fixed("application/octet-stream"), data, length),
    );
    if let Some(provenance) = &package.provenance {
        let key = joined3(package.name.as_str(), "-", package.version.as_str(), ".sigstore");
        let n = provenance.data.as_str().len() as u64;
        set_member(
            &mut attachments,
            key,
            attachment_value(provenance.media_type.clone(), provenance.data.clone(), n),
        );
    }
    proof {
        crate::json::lemma_view_object(&attachments);
    }
    set_member(&mut root, fixed("_attachments"), JsonValue::Object(attachments));
    proof {
        crate::json::lemma_view_object(&root);
    }
    Ok(JsonValue::Object(root))
}

/// A package can be published: it has a name and version that are not
/// blank, and a filename that is not blank and a tarball that is not
/// empty.
pub open spec fn publish_check(p: NpmPublishPackage) -> Result<(), Seq<char>> {
    if trim(p.name@).len() == 0 || trim(p.version@).len() == 0 {
        Err("npm publish needs package name and version"@)
    } else if trim(p.filename@).len() == 0 || p.tarball@.len() == 0 {
        Err("npm publish needs a non-empty package tarball"@)
    } else {
        Ok(())
    }
}

/// Checks that a package can be published.
pub fn npm_publish_check(package: &NpmPublishPackage) -> (r: Result<(), OmcRegistryError>)
    ensures
        match publish_check(*package) {
            Ok(()) => r is Ok,
            Err(m) => r matches Err(OmcRegistryError::UnsupportedSpec(x)) && x@ == m,
        },
{
    let n = chars_of(package.name.as_str());
    let v = chars_of(package.version.as_str());
    if trim_chars(n.as_slice()).len() == 0 || trim_chars(v.as_slice()).len() == 0 {
        return Err(OmcRegistryError::UnsupportedSpec(fixed("npm publish needs package name and version")));
    }
    let f = chars_of(package.filename.as_str());
    if trim_chars(f.as_slice()).len() == 0 || package.tarball.len() == 0 {
        return Err(OmcRegistryError::UnsupportedSpec(fixed("npm publish needs a non-empty package tarball")));
    }
    Ok(())
}

// ---------------------------------------------------------------------------
// Tokens
// ---------------------------------------------------------------------------

/// What a new access token is to be: name, description, expiry, the
/// packages, scopes and orgs it covers with their permissions, the CIDR
/// ranges it is limited to, and whether it bypasses two-factor checks.
#[derive(Clone, Debug, Default)]
pub struct NpmTokenCreateOptions {
    pub password: Option<String>,
    pub name: Option<String>,
    pub description: Option<String>,
    pub expires: Option<u64>,
    pub packages: Vec<String>,
    pub packages_all: bool,
    pub scopes: Vec<String>,
    pub orgs: Vec<String>,
    pub packages_and_scopes_permission: Option<String>,
    pub orgs_permission: Option<String>,
    pub cidr: Vec<String>,
    pub bypass_2fa: bool,
    pub read_only: bool,
}

/// A list of texts as a JSON array.
pub open spec fn text_array(s: Seq<String>) -> JsonView {
    JsonView::Array(Seq::new(s.len(), |i: int| JsonView::Text(s[i]@)))
}

/// The members with `key` set to `value` when `present`.
pub open spec fn with_member_if(
    es: Seq<(Seq<char>, JsonView)>,
    present: bool,
    key: Seq<char>,
    value: JsonView,
) -> Seq<(Seq<char>, JsonView)> {
    if present {
        with_member(es, key, value)
    } else {
        es
    }
}

/// The permission on packages and scopes: the one given, else `read-only`
/// for a read-only token.
pub open spec fn packages_permission(o: NpmTokenCreateOptions) -> Option<Seq<char>> {
    match o.packages_and_scopes_permission {
        Some(p) => Some(p@),
        None => if o.read_only {
            Some("read-only"@)
        } else {
            None
        },
    }
}

/// The body of a token request: the password and name, then each option
/// that is set.
pub open spec fn token_payload(o: NpmTokenCreateOptions, password: Seq<char>) -> JsonView {
    let e2 = with_member(
        with_member(Seq::empty(), "password"@, JsonView::Text(password)),
        "name"@,
        match o.name {
            Some(n) => JsonView::Text(n@),
            None => JsonView::Null,
        },
    );
    let e3 = with_member_if(
        e2,
        o.description is Some,
        "description"@,
        JsonView::Text(o.description->0@),
    );
    let e4 = with_member_if(e3, o.packages@.len() > 0, "packages"@, text_array(o.packages@));
    let e5 = with_member_if(e4, o.packages_all, "packages_all"@, JsonView::Bool(true));
    let e6 = with_member_if(e5, o.scopes@.len() > 0, "scopes"@, text_array(o.scopes@));
    let e7 = with_member_if(e6, o.orgs@.len() > 0, "orgs"@, text_array(o.orgs@));
    let e8 = with_member_if(
        e7,
        packages_permission(o) is Some,
        "packages_and_scopes_permission"@,
        JsonView::Text(packages_permission(o)->0),
    );
    let e9 = with_member_if(
        e8,
        o.orgs_permission is Some,
        "orgs_permission"@,
        JsonView::Text(o.orgs_permission->0@),
    );
    let e10 = with_member_if(e9, o.expires is Some, "expires"@, JsonView::Unsigned(o.expires->0));
    let e11 = with_member_if(e10, o.cidr@.len() > 0, "cidr_whitelist"@, text_array(o.cidr@));
    JsonView::Object(with_member_if(e11, o.bypass_2fa, "bypass_2fa"@, JsonView::Bool(true)))
}

fn texts_value(s: &Vec<String>) -> (v: JsonValue)
    ensures
        v@ == text_array(s@),
{
    let mut items: Vec<JsonValue> = Vec::new();
    let mut i: usize = 0;
    while i < s.len()
        invariant
            i <= s@.len(),
            items@.len() == i,
            forall|j: int| 0 <= j < i ==> (#[trigger] items@[j])@ == JsonView::Text(s@[j]@),
        decreases s.len() - i,
    {
        items.push(JsonValue::Text(s[i].clone()));
        i = i + 1;
    }
    proof {
        crate::json::lemma_items_view(items@);
        assert(crate::json::items_view(items@) =~= Seq::new(
            s@.len(),
            |j: int| JsonView::Text(s@[j]@),
        ));
    }
    JsonValue::Array(items)
}

/// The body of a request that creates an access token.
pub fn npm_token_create_payload(options: &NpmTokenCreateOptions, password: &str) -> (v: JsonValue)
    ensures
        v@ == token_payload(*options, password@),
{
    let mut es: Vec<(String, JsonValue)> = Vec::new();
    assert(crate::json::entries_view(es@) =~= Seq::<(Seq<char>, JsonView)>::empty());
    set_member(&mut es, fixed("password"), text_value(password));
    let name = match &options.name {
        Some(n) => JsonValue::Text(n.clone()),
        None => JsonValue::Null,
    };
    set_member(&mut es, fixed("name"), name);
    if let Some(description) = &options.description {
        set_member(&mut es, fixed("description"), JsonValue::Text(description.clone()));
    }
    if options.packages.len() > 0 {
        set_member(&mut es, fixed("packages"), texts_value(&options.packages));
    }
    if options.packages_all {
        set_member(&mut es, fixed("packages_all"), JsonValue::Bool(true));
    }
    if options.scopes.len() > 0 {
        set_member(&mut es, fixed("scopes"), texts_value(&options.scopes));
    }
    if options.orgs.len() > 0 {
        set_member(&mut es, fixed("orgs"), texts_value(&options.orgs));
    }
    let permission = match &options.packages_and_scopes_permission {
        Some(p) => Some(p.clone()),
        None => if options.read_only {
            Some(fixed("read-only"))
        } else {
            None
        },
    };
    if let Some(p) = permission {
        set_member(&mut es, fixed("packages_and_scopes_permission"), JsonValue::Text(p));
    }
    if let Some(p) = &options.orgs_permission {
        set_member(&mut es, fixed("orgs_permission"), JsonValue::Text(p.clone()));
    }
    if let Some(e) = options.expires {
        set_member(&mut es, fixed("expires"), JsonValue::Unsigned(e));
    }
    if options.cidr.len() > 0 {
        set_member(&mut es, fixed("cidr_whitelist"), texts_value(&options.cidr));
    }
    if options.bypass_2fa {
        set_member(&mut es, fixed("bypass_2fa"), JsonValue::Bool(true));
    }
    proof {
        crate::json::lemma_view_object(&es);
    }
    JsonValue::Object(es)
}

/// The password of a token request: the one given when it is not blank,
/// else the environment's `npm_config_password` (or, when that is not set,
/// `NPM_CONFIG_PASSWORD`) when it is not blank; trimmed.
pub open spec fn token_password(
    explicit: Option<Seq<char>>,
    env_lower: Option<Seq<char>>,
    env_upper: Option<Seq<char>>,
) -> Option<Seq<char>> {
    if explicit is Some && trim(explicit->0).len() > 0 {
        Some(trim(explicit->0))
    } else {
        let from_env = if env_lower is Some {
            env_lower
        } else {
            env_upper
        };
        if from_env is Some && trim(from_env->0).len() > 0 {
            Some(trim(from_env->0))
        } else {
            None
        }
    }
}

/// The text of an optional string.
pub open spec fn opt_chars(o: Option<&str>) -> Option<Seq<char>> {
    match o {
        Some(s) => Some(s@),
        None => None,
    }
}

fn nonblank_trimmed(o: Option<&str>) -> (r: Option<String>)
    ensures
        match r {
            Some(t) => o is Some && trim(o->0@).len() > 0 && t@ == trim(o->0@),
            None => o is None || trim(o->0@).len() == 0,
        },
{
    match o {
        Some(s) => {
            let c = chars_of(s);
            let t = trim_chars(c.as_slice());
            if t.len() > 0 {
                Some(string_from_chars(t.as_slice()))
            } else {
                None
            }
        },
        None => None,
    }
}

/// The password of a token request, from the option or the environment's
/// values.
pub fn npm_token_create_password(
    explicit: Option<&str>,
    env_lower: Option<&str>,
    env_upper: Option<&str>,
) -> (r: Result<String, OmcRegistryError>)
    ensures
        match token_password(opt_chars(explicit), opt_chars(env_lower), opt_chars(env_upper)) {
            Some(p) => r matches Ok(x) && x@ == p,
            None => r matches Err(OmcRegistryError::UnsupportedSpec(m)) && m@
                == "npm token create needs a password; pass --password or set NPM_CONFIG_PASSWORD"@,
        },
{
    if let Some(p) = nonblank_trimmed(explicit) {
        return Ok(p);
    }
    let from_env = if env_lower.is_some() {
        env_lower
    } else {
        env_upper
    };
    match nonblank_trimmed(from_env) {
        Some(p) => Ok(p),
        None => Err(
            OmcRegistryError::UnsupportedSpec(
                fixed("npm token create needs a password; pass --password or set NPM_CONFIG_PASSWORD"),
            ),
        ),
    }
}

/// The trimmed token of a revocation and the URL that revokes it; refused
/// for a blank token.
pub open spec fn revoke_target(registry: Seq<char>, token: Seq<char>) -> Result<
    (Seq<char>, Seq<char>),
    Seq<char>,
> {
    let t = trim(token);
    if t.len() == 0 {
        Err("npm token revoke needs a token or token id"@)
    } else {
        Ok((t, registry + "-/npm/v1/tokens/token/"@ + url_encoded(t)))
    }
}

/// The token to revoke, trimmed, and the URL under the registry (which
/// ends with `/`) that revokes it.
pub fn npm_token_revoke_target(registry: &str, token: &str) -> (r: Result<
    (String, String),
    OmcRegistryError,
>)
    ensures
        match revoke_target(registry@, token@) {
            Ok((t, url)) => r matches Ok((x, y)) && x@ == t && y@ == url,
            Err(m) => r matches Err(OmcRegistryError::UnsupportedSpec(x)) && x@ == m,
        },
{
    let c = chars_of(token);
    let t = trim_chars(c.as_slice());
    if t.len() == 0 {
        return Err(OmcRegistryError::UnsupportedSpec(fixed("npm token revoke needs a token or token id")));
    }
    let token = string_from_chars(t.as_slice());
    let encoded = url_encode(token.as_str());
    let rc = chars_of(registry);
    let ec = chars_of(encoded.as_str());
    let head = message("", rc.as_slice(), "-/npm/v1/tokens/token/");
    let hc = chars_of(head.as_str());
    let url = concat_chars(hc.as_slice(), ec.as_slice());
    proof {
        reveal_strlit("");
        assert(url@ =~= registry@ + "-/npm/v1/tokens/token/"@ + url_encoded(t@));
    }
    Ok((token, string_from_chars(url.as_slice())))
}

} // verus!
