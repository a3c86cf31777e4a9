//! `.npmrc` parsing and registry resolution.
//!
//! A configuration is read from up to three `.npmrc` texts (global, user,
//! project, in that order), then from the `npm_config_registry` environment
//! variable, then from an explicit override.  The environment is given as a
//! list of `(name, value)` pairs.
use vstd::prelude::*;
use crate::error::OmcRegistryError;
use crate::requirements::{lines, lookup, lookup_var, text_lines, vars_view};
use crate::set_map::PinMap;
use crate::npm_github::{parse_url, parsed_url};
use crate::text::{
    chars_of, concat_chars, ends_with, ends_with_chars, eq_chars, find_char, find_chars,
    first_occurrence, index_of, is_whitespace, is_ws, seqs_of, slice_of, starts_with,
    starts_with_chars, string_from_chars, suffix_from, trim, trim_chars, trim_end_char,
    trim_end_matches_char, trim_end_pattern, trim_end_pattern_chars, trim_start,
    trim_start_char, trim_start_chars, trim_start_matches_char, trim_start_pattern,
    trim_start_pattern_chars,
};

verus! {

// ---------------------------------------------------------------------------
// Model
// ---------------------------------------------------------------------------

/// The registry used when no configuration names one.
pub open spec fn default_registry() -> Seq<char> {
    "https://registry.npmjs.org/"@
}

/// `value` with a `/` at its end.
pub open spec fn with_trailing_slash(value: Seq<char>) -> Seq<char> {
    if value.len() > 0 && value.last() == '/' {
        value
    } else {
        value.push('/')
    }
}

/// A registry URL as configured: trimmed, with a trailing `/`; `None` when
/// nothing is left after trimming.
pub open spec fn registry_value(value: Seq<char>) -> Option<Seq<char>> {
    let t = trim(value);
    if t.len() == 0 {
        None
    } else {
        Some(with_trailing_slash(t))
    }
}

/// A `#` or `;` at `i` that follows whitespace starts a comment.
pub open spec fn npmrc_comment_at(line: Seq<char>, i: int) -> bool {
    0 < i < line.len() && (line[i] == '#' || line[i] == ';') && is_ws(line[i - 1])
}

/// The first comment start at or after `k`.
pub open spec fn npmrc_comment_from(line: Seq<char>, k: nat) -> Option<int>
    decreases line.len() - k,
{
    if k >= line.len() {
        None
    } else if npmrc_comment_at(line, k as int) {
        Some(k as int)
    } else {
        npmrc_comment_from(line, k + 1)
    }
}

/// A line without its comment: empty when the line, past its leading
/// whitespace, starts with `#` or `;`; else cut at the first comment start.
pub open spec fn without_npmrc_comment(line: Seq<char>) -> Seq<char> {
    let t = trim_start(line);
    if t.len() > 0 && (t[0] == '#' || t[0] == ';') {
        Seq::empty()
    } else {
        match npmrc_comment_from(line, 0) {
            Some(i) => line.take(i),
            None => line,
        }
    }
}

/// `${NAME}` references replaced by the variables' values; `None` when a
/// reference is unterminated or names an unset variable.
pub open spec fn expand_npmrc_text(rest: Seq<char>, vars: Seq<(Seq<char>, Seq<char>)>) -> Option<
    Seq<char>,
>
    decreases rest.len(),
{
    match first_occurrence(rest, "${"@) {
        None => Some(rest),
        Some(start) => {
            let after = rest.skip(start + 2);
            match index_of(after, '}') {
                None => None,
                Some(end) => match lookup(vars, after.take(end)) {
                    None => None,
                    Some(v) => if 0 <= start && start + 2 <= rest.len() && 0 <= end < after.len() {
                        match expand_npmrc_text(after.skip(end + 1), vars) {
                            None => None,
                            Some(tail) => Some(rest.take(start) + v + tail),
                        }
                    } else {
                        None
                    },
                },
            }
        },
    }
}

/// A configured value: trimmed, surrounding `"` removed, then expanded.
pub open spec fn npmrc_value(value: Seq<char>, vars: Seq<(Seq<char>, Seq<char>)>) -> Option<
    Seq<char>,
> {
    expand_npmrc_text(trim_end_char(trim_start_char(trim(value), '"'), '"'), vars)
}

/// A configuration: the default registry, the registries of scopes, and the
/// auth tokens as `(scope, token)` in the order read.
pub struct NpmConfigModel {
    pub registry: Seq<char>,
    pub scoped: Map<Seq<char>, Seq<char>>,
    pub tokens: Seq<(Seq<char>, Seq<char>)>,
}

/// The scope of an auth-token key `//host/path:_authToken`.
pub open spec fn token_scope(key: Seq<char>) -> Seq<char> {
    trim_start_char(trim_end_pattern(trim_start_pattern(key, "//"@), ":_authToken"@), '/')
}

/// What one `key = value` entry does to a configuration.
pub open spec fn npmrc_entry(c: NpmConfigModel, key: Seq<char>, value: Seq<char>) -> NpmConfigModel {
    if key == "registry"@ {
        match registry_value(value) {
            Some(r) => NpmConfigModel { registry: r, ..c },
            None => c,
        }
    } else if key.len() > 0 && key[0] == '@' && ends_with(key, ":registry"@) {
        match registry_value(value) {
            Some(r) => NpmConfigModel {
                scoped: c.scoped.insert(trim_end_pattern(key, ":registry"@), r),
                ..c
            },
            None => c,
        }
    } else if starts_with(key, "//"@) && ends_with(key, ":_authToken"@) {
        let scope = token_scope(key);
        if scope.len() > 0 && value.len() > 0 {
            NpmConfigModel { tokens: c.tokens.push((with_trailing_slash(scope), value)), ..c }
        } else {
            c
        }
    } else {
        c
    }
}

/// What one `.npmrc` line does to a configuration.
pub open spec fn npmrc_step(
    c: NpmConfigModel,
    raw: Seq<char>,
    vars: Seq<(Seq<char>, Seq<char>)>,
) -> NpmConfigModel {
    let line = trim(without_npmrc_comment(raw));
    if line.len() == 0 {
        c
    } else {
        match index_of(line, '=') {
            None => c,
            Some(i) => match npmrc_value(trim(line.skip(i + 1)), vars) {
                None => c,
                Some(value) => npmrc_entry(c, trim(line.take(i)), value),
            },
        }
    }
}

/// The lines applied in order.
pub open spec fn npmrc_lines(
    c: NpmConfigModel,
    ls: Seq<Seq<char>>,
    vars: Seq<(Seq<char>, Seq<char>)>,
) -> NpmConfigModel
    decreases ls.len(),
{
    if ls.len() == 0 {
        c
    } else {
        npmrc_step(npmrc_lines(c, ls.drop_last(), vars), ls.last(), vars)
    }
}

/// A whole `.npmrc` text applied to a configuration.
pub open spec fn npmrc_content(
    c: NpmConfigModel,
    content: Seq<char>,
    vars: Seq<(Seq<char>, Seq<char>)>,
) -> NpmConfigModel {
    npmrc_lines(c, lines(content), vars)
}

/// The registry of a package: that of its scope (the text before its first
/// `/`) when the scope has one, else the default registry.
pub open spec fn registry_of(c: NpmConfigModel, package: Seq<char>) -> Seq<char> {
    match index_of(package, '/') {
        None => c.registry,
        Some(i) => if c.scoped.contains_key(package.take(i)) {
            c.scoped[package.take(i)]
        } else {
            c.registry
        },
    }
}

// ---------------------------------------------------------------------------
// Types
// ---------------------------------------------------------------------------

/// An auth token for the registry URLs that start with `scope`.
pub struct NpmAuthToken {
    pub scope: String,
    pub token: String,
}

/// A resolved npm configuration.
pub struct NpmConfig {
    pub registry: String,
    pub scoped_registries: PinMap,
    pub auth_tokens: Vec<NpmAuthToken>,
}

/// What a caller sees of a resolved configuration.
pub struct NpmConfigSnapshot {
    pub registry: String,
    pub scoped_registries: PinMap,
}

/// The texts of the `.npmrc` files that exist: global, user and project.
pub struct NpmConfigSources {
    pub global: Option<String>,
    pub user: Option<String>,
    pub project: Option<String>,
}

pub open spec fn tokens_view(tokens: Seq<NpmAuthToken>) -> Seq<(Seq<char>, Seq<char>)> {
    Seq::new(tokens.len(), |i: int| (tokens[i].scope@, tokens[i].token@))
}

impl NpmConfig {
    pub open spec fn wf(&self) -> bool {
        self.scoped_registries.wf()
    }

    pub open spec fn model(&self) -> NpmConfigModel {
        NpmConfigModel {
            registry: self.registry@,
            scoped: self.scoped_registries.view(),
            tokens: tokens_view(self.auth_tokens@),
        }
    }

    /// The configuration with nothing read yet.
    pub fn new() -> (c: NpmConfig)
        ensures
            c.wf(),
            c.model() == (NpmConfigModel {
                registry: default_registry(),
                scoped: Map::empty(),
                tokens: Seq::empty(),
            }),
    {
        let registry = chars_of("https://registry.npmjs.org/");
        let c = NpmConfig {
            registry: string_from_chars(registry.as_slice()),
            scoped_registries: PinMap::new(),
            auth_tokens: Vec::new(),
        };
        assert(tokens_view(c.auth_tokens@) =~= Seq::empty());
        c
    }

    /// The registry of `package`: its scope's registry when configured, else
    /// the default one.
    pub fn registry_for(&self, package: &str) -> (r: String)
        requires
            self.wf(),
        ensures
            r@ == registry_of(self.model(), package@),
    {
        let p = chars_of(package);
        match find_char(p.as_slice(), '/') {
            None => self.registry.clone(),
            Some(i) => {
                let scope = slice_of(p.as_slice(), 0, i);
                assert(scope@ == package@.take(i as int));
                match self.scoped_registries.get(scope.as_slice()) {
                    Some(r) => string_from_chars(r.as_slice()),
                    None => self.registry.clone(),
                }
            },
        }
    }
}

// ---------------------------------------------------------------------------
// Lines and values
// ---------------------------------------------------------------------------

/// `value` with a trailing `/` added when it has none.
pub fn ensure_trailing_slash(value: &[char]) -> (out: Vec<char>)
    ensures
        out@ == with_trailing_slash(value@),
{
    let mut out = slice_of(value, 0, value.len());
    assert(out@ =~= value@);
    if out.len() == 0 || out[out.len() - 1] != '/' {
        out.push('/');
    }
    out
}

/// A registry URL as configured, or `None` when `value` is blank.
pub fn normalize_npm_registry(value: &[char]) -> (r: Option<Vec<char>>)
    ensures
        r matches Some(v) ==> registry_value(value@) == Some(v@),
        r is None ==> registry_value(value@) is None,
{
    let t = trim_chars(value);
    if t.len() == 0 {
        None
    } else {
        Some(ensure_trailing_slash(t.as_slice()))
    }
}

/// A line without its `#` / `;` comment.
pub fn strip_npmrc_comment(line: &[char]) -> (out: Vec<char>)
    ensures
        out@ == without_npmrc_comment(line@),
{
    let t = trim_start_chars(line);
    if t.len() > 0 && (t[0] == '#' || t[0] == ';') {
        return Vec::new();
    }
    let mut i: usize = 0;
    while i < line.len()
        invariant
            i <= line@.len(),
            npmrc_comment_from(line@, 0) == npmrc_comment_from(line@, i as nat),
            !(trim_start(line@).len() > 0 && (trim_start(line@)[0] == '#' || trim_start(line@)[0]
                == ';')),
        decreases line.len() - i,
    {
        if i > 0 && (line[i] == '#' || line[i] == ';') && is_whitespace(line[i - 1]) {
            assert(npmrc_comment_at(line@, i as int));
            assert(npmrc_comment_from(line@, i as nat) == Some(i as int));
            let out = slice_of(line, 0, i);
            assert(out@ =~= line@.take(i as int));
            return out;
        }
        assert(!npmrc_comment_at(line@, i as int));
        i = i + 1;
    }
    assert(npmrc_comment_from(line@, i as nat) is None);
    let out = slice_of(line, 0, line.len());
    assert(out@ =~= line@);
    out
}

/// `${NAME}` references of `value` replaced by the variables' values; `None`
/// when a reference is unterminated or names an unset variable.
pub fn expand_npmrc_value(value: &[char], vars: &Vec<(String, String)>) -> (r: Option<Vec<char>>)
    ensures
        r matches Some(v) ==> npmrc_value(value@, vars_view(vars@)) == Some(v@),
        r is None ==> npmrc_value(value@, vars_view(vars@)) is None,
{
    let t = trim_chars(value);
    let q = trim_start_matches_char(t.as_slice(), '"');
    let mut rest = trim_end_matches_char(q.as_slice(), '"');
    let ghost vv = vars_view(vars@);
    let ghost whole = rest@;
    let open = chars_of("${");
    proof {
        reveal_strlit("${");
    }
    let mut expanded: Vec<char> = Vec::new();
    proof {
        match expand_npmrc_text(rest@, vv) {
            None => {},
            Some(tail) => {
                assert(expanded@ + tail =~= tail);
            },
        }
    }
    loop
        invariant
            vv == vars_view(vars@),
            open@ == "${"@,
            open@.len() == 2,
            npmrc_value(value@, vv) == expand_npmrc_text(whole, vv),
            expand_npmrc_text(whole, vv) == (match expand_npmrc_text(rest@, vv) {
                None => None::<Seq<char>>,
                Some(tail) => Some(expanded@ + tail),
            }),
        ensures
            expand_npmrc_text(whole, vv) == Some(expanded@ + rest@),
        decreases rest@.len(),
    {
        match find_chars(rest.as_slice(), open.as_slice()) {
            None => {
                assert(expand_npmrc_text(rest@, vv) == Some(rest@));
                break;
            },
            Some(start) => {
                let after = suffix_from(rest.as_slice(), start + 2);
                match find_char(after.as_slice(), '}') {
                    None => {
                        assert(expand_npmrc_text(rest@, vv) is None);
                        return None;
                    },
                    Some(end) => {
                        let key = slice_of(after.as_slice(), 0, end);
                        assert(key@ == after@.take(end as int));
                        match lookup_var(vars, key.as_slice()) {
                            None => {
                                assert(expand_npmrc_text(rest@, vv) is None);
                                return None;
                            },
                            Some(v) => {
                                let head = slice_of(rest.as_slice(), 0, start);
                                let next = suffix_from(after.as_slice(), end + 1);
                                proof {
                                    assert(head@ == rest@.take(start as int));
                                    assert(next@ == rest@.skip(start + 2).skip(end + 1));
                                }
                                let ghost prev = expanded@;
                                let with_head = concat_chars(expanded.as_slice(), head.as_slice());
                                expanded = concat_chars(with_head.as_slice(), v.as_slice());
                                proof {
                                    match expand_npmrc_text(next@, vv) {
                                        None => {},
                                        Some(tail) => {
                                            assert(prev + (rest@.take(start as int) + v@ + tail)
                                                =~= expanded@ + tail);
                                        },
                                    }
                                }
                                rest = next;
                            },
                        }
                    },
                }
            },
        }
    }
    let out = concat_chars(expanded.as_slice(), rest.as_slice());
    Some(out)
}

// ---------------------------------------------------------------------------
// Reading
// ---------------------------------------------------------------------------

/// Applies one `.npmrc` line to `config`.
pub fn apply_npmrc_line(config: &mut NpmConfig, raw: &[char], vars: &Vec<(String, String)>)
    requires
        old(config).wf(),
    ensures
        final(config).wf(),
        final(config).model() == npmrc_step(old(config).model(), raw@, vars_view(vars@)),
{
    let stripped = strip_npmrc_comment(raw);
    let line = trim_chars(stripped.as_slice());
    if line.len() == 0 {
        return;
    }
    let eq = match find_char(line.as_slice(), '=') {
        None => {
            return;
        },
        Some(i) => i,
    };
    let key_raw = slice_of(line.as_slice(), 0, eq);
    let key = trim_chars(key_raw.as_slice());
    let value_raw = suffix_from(line.as_slice(), eq + 1);
    let value_trimmed = trim_chars(value_raw.as_slice());
    assert(key_raw@ == line@.take(eq as int));
    let value = match expand_npmrc_value(value_trimmed.as_slice(), vars) {
        None => {
            return;
        },
        Some(v) => v,
    };
    apply_npmrc_entry(config, key.as_slice(), value.as_slice());
}

/// Applies one `key = value` entry to `config`.
pub fn apply_npmrc_entry(config: &mut NpmConfig, key: &[char], value: &[char])
    requires
        old(config).wf(),
    ensures
        final(config).wf(),
        final(config).model() == npmrc_entry(old(config).model(), key@, value@),
{
    let registry_key = chars_of("registry");
    let registry_suffix = chars_of(":registry");
    let slashes = chars_of("//");
    let token_suffix = chars_of(":_authToken");
    if eq_chars(key, registry_key.as_slice()) {
        if let Some(r) = normalize_npm_registry(value) {
            config.registry = string_from_chars(r.as_slice());
        }
    } else if key.len() > 0 && key[0] == '@' && ends_with_chars(key, registry_suffix.as_slice()) {
        if let Some(r) = normalize_npm_registry(value) {
            let scope = trim_end_pattern_chars(key, registry_suffix.as_slice());
            config.scoped_registries.set(scope.as_slice(), r.as_slice());
        }
    } else if starts_with_chars(key, slashes.as_slice()) && ends_with_chars(
        key,
        token_suffix.as_slice(),
    ) {
        let a = trim_start_pattern_chars(key, slashes.as_slice());
        let b = trim_end_pattern_chars(a.as_slice(), token_suffix.as_slice());
        let scope = trim_start_matches_char(b.as_slice(), '/');
        if scope.len() > 0 && value.len() > 0 {
            let scope_slash = ensure_trailing_slash(scope.as_slice());
            let ghost before = config.auth_tokens@;
            config.auth_tokens.push(
                NpmAuthToken {
                    scope: string_from_chars(scope_slash.as_slice()),
                    token: string_from_chars(value),
                },
            );
            assert(tokens_view(config.auth_tokens@) =~= tokens_view(before).push(
                (scope_slash@, value@),
            ));
        }
    }
}

/// Applies a whole `.npmrc` text to `config`, line by line.
pub fn parse_npmrc_content(content: &str, config: &mut NpmConfig, vars: &Vec<(String, String)>)
    requires
        old(config).wf(),
    ensures
        final(config).wf(),
        final(config).model() == npmrc_content(old(config).model(), content@, vars_view(vars@)),
{
    let text = chars_of(content);
    let ls = text_lines(text.as_slice());
    let ghost start = config.model();
    let ghost all = seqs_of(ls@);
    let mut i: usize = 0;
    while i < ls.len()
        invariant
            config.wf(),
            all == seqs_of(ls@),
            all == lines(content@),
            i <= ls@.len(),
            config.model() == npmrc_lines(start, all.take(i as int), vars_view(vars@)),
        decreases ls.len() - i,
    {
        apply_npmrc_line(config, ls[i].as_slice(), vars);
        proof {
            assert(all.take(i + 1).drop_last() =~= all.take(i as int));
            assert(all.take(i + 1).last() == ls@[i as int]@);
        }
        i = i + 1;
    }
    assert(all.take(ls@.len() as int) =~= all);
}

/// The registry named by the environment: `npm_config_registry` when set,
/// else `NPM_CONFIG_REGISTRY`.
pub open spec fn env_registry(vars: Seq<(Seq<char>, Seq<char>)>) -> Option<Seq<char>> {
    match lookup(vars, "npm_config_registry"@) {
        Some(v) => Some(v),
        None => lookup(vars, "NPM_CONFIG_REGISTRY"@),
    }
}

/// Sets the default registry from `registry` when it is given and not blank.
pub fn apply_npm_environment_values(config: &mut NpmConfig, registry: Option<&[char]>)
    requires
        old(config).wf(),
    ensures
        final(config).wf(),
        final(config).model() == (match registry {
            Some(r) => match registry_value(r@) {
                Some(v) => NpmConfigModel { registry: v, ..old(config).model() },
                None => old(config).model(),
            },
            None => old(config).model(),
        }),
{
    if let Some(r) = registry {
        if let Some(v) = normalize_npm_registry(r) {
            config.registry = string_from_chars(v.as_slice());
        }
    }
}

/// The configuration read from the given texts, the environment and an
/// optional registry override, before the override is checked.
pub open spec fn config_from_texts(
    sources: (Option<Seq<char>>, Option<Seq<char>>, Option<Seq<char>>),
    vars: Seq<(Seq<char>, Seq<char>)>,
) -> NpmConfigModel {
    let c0 = NpmConfigModel { registry: default_registry(), scoped: Map::empty(), tokens: Seq::empty() };
    let c1 = match sources.0 {
        Some(t) => npmrc_content(c0, t, vars),
        None => c0,
    };
    let c2 = match sources.1 {
        Some(t) => npmrc_content(c1, t, vars),
        None => c1,
    };
    let c3 = match sources.2 {
        Some(t) => npmrc_content(c2, t, vars),
        None => c2,
    };
    match env_registry(vars) {
        Some(r) => match registry_value(r) {
            Some(v) => NpmConfigModel { registry: v, ..c3 },
            None => c3,
        },
        None => c3,
    }
}

impl NpmConfigSources {
    pub open spec fn texts(&self) -> (Option<Seq<char>>, Option<Seq<char>>, Option<Seq<char>>) {
        (
            match self.global {
                Some(t) => Some(t@),
                None => None,
            },
            match self.user {
                Some(t) => Some(t@),
                None => None,
            },
            match self.project {
                Some(t) => Some(t@),
                None => None,
            },
        )
    }
}

/// The message of a refused registry override.
pub open spec fn invalid_registry_message(registry: Seq<char>) -> Seq<char> {
    "invalid npm registry `"@ + registry + "`"@
}

fn read_optional_npmrc(text: &Option<String>, config: &mut NpmConfig, vars: &Vec<(String, String)>)
    requires
        old(config).wf(),
    ensures
        final(config).wf(),
        final(config).model() == (match *text {
            Some(t) => npmrc_content(old(config).model(), t@, vars_view(vars@)),
            None => old(config).model(),
        }),
{
    match text {
        Some(t) => parse_npmrc_content(t.as_str(), config, vars),
        None => {},
    }
}

/// The configuration read from the `.npmrc` texts in order, the environment,
/// and the registry override.  The override must not be blank.
pub fn read_npm_config(
    sources: &NpmConfigSources,
    vars: &Vec<(String, String)>,
    registry_override: Option<&str>,
) -> (r: Result<NpmConfig, OmcRegistryError>)
    ensures
        r matches Ok(c) ==> c.wf() && c.model() == (match registry_override {
            Some(o) => NpmConfigModel {
                registry: registry_value(o@)->0,
                ..config_from_texts(sources.texts(), vars_view(vars@))
            },
            None => config_from_texts(sources.texts(), vars_view(vars@)),
        }),
        r is Err <==> (registry_override matches Some(o) && registry_value(o@) is None),
        r matches Err(e) ==> (e matches OmcRegistryError::UnsupportedSpec(m) && registry_override matches Some(
            o,
        ) && m@ == invalid_registry_message(o@)),
{
    let mut config = NpmConfig::new();
    read_optional_npmrc(&sources.global, &mut config, vars);
    read_optional_npmrc(&sources.user, &mut config, vars);
    read_optional_npmrc(&sources.project, &mut config, vars);
    let lower = chars_of("npm_config_registry");
    let upper = chars_of("NPM_CONFIG_REGISTRY");
    let env = match lookup_var(vars, lower.as_slice()) {
        Some(v) => Some(v),
        None => lookup_var(vars, upper.as_slice()),
    };
    match env {
        Some(v) => apply_npm_environment_values(&mut config, Some(v.as_slice())),
        None => apply_npm_environment_values(&mut config, None),
    }
    if let Some(o) = registry_override {
        let oc = chars_of(o);
        match normalize_npm_registry(oc.as_slice()) {
            Some(v) => {
                config.registry = string_from_chars(v.as_slice());
            },
            None => {
                let head = chars_of("invalid npm registry `");
                let tail = chars_of("`");
                let a = concat_chars(head.as_slice(), oc.as_slice());
                let msg = concat_chars(a.as_slice(), tail.as_slice());
                return Err(OmcRegistryError::UnsupportedSpec(string_from_chars(msg.as_slice())));
            },
        }
    }
    Ok(config)
}

impl NpmConfigSnapshot {
    pub open spec fn wf(&self) -> bool {
        self.scoped_registries.wf()
    }
}

/// The resolved registry and scope registries: the `.npmrc` texts (global,
/// user, project) in order, then the environment's registry, then
/// `registry_override`, which must not be blank.
pub fn read_npm_config_snapshot_with_globalconfig(
    sources: &NpmConfigSources,
    vars: &Vec<(String, String)>,
    registry_override: Option<&str>,
) -> (r: Result<NpmConfigSnapshot, OmcRegistryError>)
    ensures
        r matches Ok(snap) ==> snap.wf() && snap.registry@ == (match registry_override {
            Some(o) => registry_value(o@)->0,
            None => config_from_texts(sources.texts(), vars_view(vars@)).registry,
        }) && snap.scoped_registries.view() == config_from_texts(
            sources.texts(),
            vars_view(vars@),
        ).scoped,
        r is Err <==> (registry_override matches Some(o) && registry_value(o@) is None),
        r matches Err(e) ==> (e matches OmcRegistryError::UnsupportedSpec(m) && registry_override matches Some(
            o,
        ) && m@ == invalid_registry_message(o@)),
{
    match read_npm_config(sources, vars, registry_override) {
        Ok(config) => Ok(
            NpmConfigSnapshot {
                registry: config.registry,
                scoped_registries: config.scoped_registries,
            },
        ),
        Err(e) => Err(e),
    }
}

/// `read_npm_config_snapshot_with_globalconfig` where the global text is
/// that of the default global configuration file.
pub fn read_npm_config_snapshot(
    sources: &NpmConfigSources,
    vars: &Vec<(String, String)>,
    registry_override: Option<&str>,
) -> (r: Result<NpmConfigSnapshot, OmcRegistryError>)
    ensures
        r matches Ok(snap) ==> snap.wf() && snap.registry@ == (match registry_override {
            Some(o) => registry_value(o@)->0,
            None => config_from_texts(sources.texts(), vars_view(vars@)).registry,
        }) && snap.scoped_registries.view() == config_from_texts(
            sources.texts(),
            vars_view(vars@),
        ).scoped,
        r is Err <==> (registry_override matches Some(o) && registry_value(o@) is None),
        r matches Err(e) ==> (e matches OmcRegistryError::UnsupportedSpec(m) && registry_override matches Some(
            o,
        ) && m@ == invalid_registry_message(o@)),
{
    read_npm_config_snapshot_with_globalconfig(sources, vars, registry_override)
}

// ---------------------------------------------------------------------------
// Laws
// ---------------------------------------------------------------------------

/// A configured registry URL always ends with `/`, and adding the slash
/// again changes nothing.
pub proof fn registry_values_end_with_slash(value: Seq<char>)
    ensures
        registry_value(value) matches Some(r) ==> r.len() > 0 && r.last() == '/'
            && with_trailing_slash(r) == r,
{
}

/// A comment line, or a line without `=`, leaves the configuration as it is.
pub proof fn comment_and_bare_lines_change_nothing(
    c: NpmConfigModel,
    raw: Seq<char>,
    vars: Seq<(Seq<char>, Seq<char>)>,
)
    requires
        (trim_start(raw).len() > 0 && (trim_start(raw)[0] == '#' || trim_start(raw)[0] == ';'))
            || index_of(trim(without_npmrc_comment(raw)), '=') is None,
    ensures
        npmrc_step(c, raw, vars) == c,
{
    if trim_start(raw).len() > 0 && (trim_start(raw)[0] == '#' || trim_start(raw)[0] == ';') {
        assert(without_npmrc_comment(raw) =~= Seq::<char>::empty());
        assert(trim(Seq::<char>::empty()).len() == 0) by {
            crate::text::lemma_span_bound(Seq::<char>::empty(), crate::text::ws_pred());
        }
    }
}

/// An unscoped package is fetched from the default registry.
pub proof fn unscoped_packages_use_the_default_registry(c: NpmConfigModel, package: Seq<char>)
    requires
        !package.contains('/'),
    ensures
        registry_of(c, package) == c.registry,
{
    reveal(index_of);
}

/// Of two `registry` entries, the later one decides the default registry.
pub proof fn later_registry_lines_override_earlier(
    c: NpmConfigModel,
    first: Seq<char>,
    second: Seq<char>,
    vars: Seq<(Seq<char>, Seq<char>)>,
)
    requires
        registry_value(first) is Some,
        registry_value(second) is Some,
    ensures
        npmrc_entry(npmrc_entry(c, "registry"@, first), "registry"@, second).registry
            == registry_value(second)->0,
{
}

// ---------------------------------------------------------------------------
// Auth tokens
// ---------------------------------------------------------------------------

/// The decimal digit `d` (below ten).
pub open spec fn digit_char(d: nat) -> char {
    if d == 0 { '0' } else if d == 1 { '1' } else if d == 2 { '2' } else if d == 3 { '3' }
    else if d == 4 { '4' } else if d == 5 { '5' } else if d == 6 { '6' } else if d == 7 { '7' }
    else if d == 8 { '8' } else { '9' }
}

/// The decimal text of `n`.
pub open spec fn decimal(n: nat) -> Seq<char>
    decreases n,
{
    if n < 10 {
        seq![digit_char(n)]
    } else {
        decimal(n / 10).push(digit_char(n % 10))
    }
}

fn digit_text(d: u16) -> (c: char)
    requires
        d < 10,
    ensures
        c == digit_char(d as nat),
{
    if d == 0 { '0' } else if d == 1 { '1' } else if d == 2 { '2' } else if d == 3 { '3' }
    else if d == 4 { '4' } else if d == 5 { '5' } else if d == 6 { '6' } else if d == 7 { '7' }
    else if d == 8 { '8' } else { '9' }
}

/// The decimal text of a port number.
pub fn decimal_text(n: u16) -> (out: Vec<char>)
    ensures
        out@ == decimal(n as nat),
    decreases n,
{
    if n < 10 {
        let mut out: Vec<char> = Vec::new();
        out.push(digit_text(n));
        assert(out@ =~= seq![digit_char(n as nat)]);
        out
    } else {
        let mut out = decimal_text(n / 10);
        out.push(digit_text(n % 10));
        out
    }
}

/// The text an auth-token scope is matched against: `host[:port]path`.
pub open spec fn url_target(
    u: (Seq<char>, Option<Seq<char>>, Option<u16>, Seq<char>, Option<Seq<Seq<char>>>),
) -> Option<Seq<char>> {
    match u.1 {
        None => None,
        Some(host) => Some(
            match u.2 {
                Some(p) => host + ":"@ + decimal(p as nat),
                None => host,
            } + u.3,
        ),
    }
}

/// Of the tokens whose scope starts `target`, one with the longest scope,
/// the last such in the order read.
pub open spec fn best_token(tokens: Seq<(Seq<char>, Seq<char>)>, target: Seq<char>) -> Option<
    (Seq<char>, Seq<char>),
>
    decreases tokens.len(),
{
    if tokens.len() == 0 {
        None
    } else {
        let prev = best_token(tokens.drop_last(), target);
        let t = tokens.last();
        if starts_with(target, t.0) {
            match prev {
                Some(p) => if t.0.len() >= p.0.len() {
                    Some(t)
                } else {
                    prev
                },
                None => Some(t),
            }
        } else {
            prev
        }
    }
}

/// The auth token for a URL: that of the longest scope that starts the
/// URL's `host[:port]path`.
pub open spec fn auth_token_of(c: NpmConfigModel, url: Seq<char>) -> Option<Seq<char>> {
    match parsed_url(url) {
        None => None,
        Some(u) => match url_target(u) {
            None => None,
            Some(target) => match best_token(c.tokens, target) {
                Some(t) => Some(t.1),
                None => None,
            },
        },
    }
}

impl NpmConfig {
    /// The auth token for `url`, if a configured scope covers it.
    pub fn auth_token_for_url(&self, url: &str) -> (r: Option<String>)
        ensures
            opt_string(r) == auth_token_of(self.model(), url@),
    {
        let u = match parse_url(url) {
            None => {
                return None;
            },
            Some(u) => u,
        };
        let ghost parts = u.parts();
        let host = match &u.host {
            None => {
                return None;
            },
            Some(h) => chars_of(h.as_str()),
        };
        let authority = match u.port {
            Some(p) => {
                let colon = chars_of(":");
                let a = concat_chars(host.as_slice(), colon.as_slice());
                let digits = decimal_text(p);
                concat_chars(a.as_slice(), digits.as_slice())
            },
            None => host,
        };
        let path = chars_of(u.path.as_str());
        let target = concat_chars(authority.as_slice(), path.as_slice());
        assert(url_target(parts) == Some(target@));
        let ghost toks = tokens_view(self.auth_tokens@);
        let mut best: Option<usize> = None;
        let mut best_len: usize = 0;
        let mut i: usize = 0;
        while i < self.auth_tokens.len()
            invariant
                toks == tokens_view(self.auth_tokens@),
                i <= self.auth_tokens@.len(),
                match best_token(toks.take(i as int), target@) {
                    None => best is None,
                    Some(t) => best matches Some(k) && k < i && toks[k as int] == t && best_len
                        == t.0.len(),
                },
            decreases self.auth_tokens.len() - i,
        {
            let scope = chars_of(self.auth_tokens[i].scope.as_str());
            proof {
                assert(toks.take(i + 1).drop_last() =~= toks.take(i as int));
                assert(toks.take(i + 1).last() == toks[i as int]);
            }
            if starts_with_chars(target.as_slice(), scope.as_slice()) {
                match best {
                    Some(_) => {
                        if scope.len() >= best_len {
                            best = Some(i);
                            best_len = scope.len();
                        }
                    },
                    None => {
                        best = Some(i);
                        best_len = scope.len();
                    },
                }
            }
            i = i + 1;
        }
        assert(toks.take(self.auth_tokens@.len() as int) =~= toks);
        match best {
            Some(k) => Some(self.auth_tokens[k].token.clone()),
            None => None,
        }
    }
}

pub open spec fn opt_string(o: Option<String>) -> Option<Seq<char>> {
    match o {
        Some(s) => Some(s@),
        None => None,
    }
}

} // verus!
