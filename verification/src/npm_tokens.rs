//! Access tokens of an npm account: what the registry answers to a token
//! listing and to a token request.
use vstd::prelude::*;
use crate::error::OmcRegistryError;
use crate::json::{field, json_copy, json_get, lemma_view_not_object, lemma_view_object, JsonValue, JsonView, items_view};
use crate::npm_arguments::fixed;
use crate::npm_config::{ensure_trailing_slash, with_trailing_slash};
use crate::npm_requests::{object_text_members, text_members};
use crate::set_map::PinMap;
use crate::text::{chars_of, string_from_chars};

verus! {

/// An access token as the registry describes it.
#[derive(Clone, Debug, PartialEq)]
pub struct NpmAccessToken {
    pub key: Option<String>,
    pub id: Option<String>,
    pub name: Option<String>,
    pub description: Option<String>,
    pub token: Option<String>,
    pub readonly: Option<bool>,
    pub cidr: Vec<String>,
    pub created: Option<String>,
    pub updated: Option<String>,
    pub accessed: Option<String>,
    pub expiry: Option<String>,
    pub bypass_2fa: Option<bool>,
}

/// The tokens of an account, with the registry's whole answer.
#[derive(Debug)]
pub struct NpmTokenListResult {
    pub registry: String,
    pub tokens: Vec<NpmAccessToken>,
    pub total: Option<u64>,
    pub urls: PinMap,
    pub response: JsonValue,
}

/// The token entries of a listing: its `objects` array, if it has one.
pub open spec fn token_objects(response: JsonView) -> Option<Seq<JsonView>> {
    match field(response, "objects"@) {
        Some(JsonView::Array(items)) => Some(items),
        _ => None,
    }
}

/// The token entries of a listing, each to be read as an `NpmAccessToken`;
/// refused when the answer has no `objects` array.
pub fn npm_token_list_objects(response: &JsonValue) -> (r: Result<Vec<JsonValue>, OmcRegistryError>)
    ensures
        match token_objects(response@) {
            Some(items) => r matches Ok(v) && items_view(v@) == items,
            None => r matches Err(OmcRegistryError::UnsupportedSpec(m))
                && m@ == "npm token list response did not include objects"@,
        },
{
    match json_get(response, "objects") {
        Some(found) => {
            proof {
                lemma_view_not_object(found);
            }
            if let JsonValue::Array(_) = found {
                let copy = json_copy(found);
                match copy {
                    JsonValue::Array(items) => Ok(items),
                    _ => {
                        proof {
                            lemma_view_not_object(&copy);
                        }
                        Err(OmcRegistryError::UnsupportedSpec(fixed("npm token list response did not include objects")))
                    },
                }
            } else {
                Err(OmcRegistryError::UnsupportedSpec(fixed("npm token list response did not include objects")))
            }
        },
        None => Err(OmcRegistryError::UnsupportedSpec(fixed("npm token list response did not include objects"))),
    }
}

/// `value.as_u64()`: a whole number from zero up.
pub open spec fn count_of(v: JsonView) -> Option<u64> {
    match v {
        JsonView::Unsigned(n) => Some(n),
        _ => None,
    }
}

/// The `total` of a listing, where it is a count.
pub open spec fn listed_total(response: JsonView) -> Option<u64> {
    match field(response, "total"@) {
        Some(v) => count_of(v),
        None => None,
    }
}

/// The `urls` of a listing whose values are texts; none unless `urls` is
/// an object.
pub open spec fn listed_urls(response: JsonView) -> Map<Seq<char>, Seq<char>> {
    match field(response, "urls"@) {
        Some(JsonView::Object(es)) => text_members(es),
        _ => Map::empty(),
    }
}

/// The `total` of a listing.
fn listing_total(response: &JsonValue) -> (r: Option<u64>)
    ensures
        r == listed_total(response@),
{
    match json_get(response, "total") {
        Some(JsonValue::Unsigned(n)) => Some(*n),
        _ => None,
    }
}

/// The text `urls` of a listing.
fn listing_urls(response: &JsonValue) -> (r: PinMap)
    ensures
        r.wf(),
        r.view() == listed_urls(response@),
{
    match json_get(response, "urls") {
        Some(JsonValue::Object(es)) => {
            proof {
                lemma_view_object(es);
            }
            object_text_members(es)
        },
        Some(other) => {
            proof {
                lemma_view_not_object(other);
            }
            PinMap::new()
        },
        None => PinMap::new(),
    }
}

/// The result of a token listing at `registry`: the registry with a
/// trailing `/`, the tokens read from the listing's entries, in order, its
/// `total` where that is a count, its text `urls`, and the answer itself.
pub fn npm_token_list_result(
    registry: &str,
    tokens: Vec<NpmAccessToken>,
    response: JsonValue,
) -> (r: NpmTokenListResult)
    ensures
        r.registry@ == with_trailing_slash(registry@),
        r.tokens@ == tokens@,
        r.total == listed_total(response@),
        r.urls.wf(),
        r.urls.view() == listed_urls(response@),
        r.response@ == response@,
{
    let rc = chars_of(registry);
    let reg = ensure_trailing_slash(rc.as_slice());
    let total = listing_total(&response);
    let urls = listing_urls(&response);
    NpmTokenListResult {
        registry: string_from_chars(reg.as_slice()),
        tokens,
        total,
        urls,
        response,
    }
}

/// What a token request's answer describes the new token by: its `token`
/// member where that is an object, else the whole answer.
pub open spec fn created_token_source(response: JsonView) -> JsonView {
    match field(response, "token"@) {
        Some(JsonView::Object(es)) => JsonView::Object(es),
        _ => response,
    }
}

/// The part of a token request's answer to read as the new
/// `NpmAccessToken`.
pub fn npm_token_create_source(response: &JsonValue) -> (r: JsonValue)
    ensures
        r@ == created_token_source(response@),
{
    match json_get(response, "token") {
        Some(found) => {
            proof {
                lemma_view_not_object(found);
            }
            if let JsonValue::Object(_) = found {
                json_copy(found)
            } else {
                json_copy(response)
            }
        },
        None => json_copy(response),
    }
}

} // verus!
