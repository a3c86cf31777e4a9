//! Explaining a blocked package: each verifier finding is read as the exact,
//! minimal grant that would allow it, described in plain words, and
//! rendered as guidance text.  The text only advises; it grants nothing.
use vstd::prelude::*;
use crate::entry_source::{ecosystem_name, Ecosystem};
use crate::text::{
    chars_of, concat_chars, eq_chars, find_char, find_chars, first_occurrence, index_of, slice_of,
    starts_with, starts_with_chars, string_from_chars, suffix_from, ends_with, ends_with_chars,
    trim, trim_chars,
};

verus! {

// ---------------------------------------------------------------------------
// Quoting
// ---------------------------------------------------------------------------

/// What `{:?}` prints for a text: the text quoted and escaped.
pub uninterp spec fn debug_text(s: Seq<char>) -> Seq<char>;

/// A character that `{:?}` prints as it is: printable ASCII other than `"`
/// and `\`.
pub open spec fn debug_plain(c: char) -> bool {
    ' ' <= c && c <= '~' && c != '"' && c != '\\'
}

/// Formats a text with `format!("{s:?}")`, std's `Debug` for `str`.  The
/// contract names the result, and states what std documents of it for a
/// text of plain printable ASCII: the text between double quotes.
#[verifier::external_body]
fn debug_quoted(s: &str) -> (r: String)
    ensures
        r@ == debug_text(s@),
        (forall|i: int| 0 <= i < s@.len() ==> debug_plain(#[trigger] s@[i])) ==> r@ == "\""@ + s@
            + "\""@,
{
    format!("{s:?}")
}

// ---------------------------------------------------------------------------
// Splitting
// ---------------------------------------------------------------------------

/// `split_once(c)`.
pub open spec fn split_at_char(s: Seq<char>, c: char) -> Option<(Seq<char>, Seq<char>)> {
    match index_of(s, c) {
        None => None,
        Some(i) => Some((s.take(i), s.skip(i + 1))),
    }
}

/// `split_once(p)` for a pattern.
pub open spec fn split_at_pattern(s: Seq<char>, p: Seq<char>) -> Option<(Seq<char>, Seq<char>)> {
    match first_occurrence(s, p) {
        None => None,
        Some(i) => Some((s.take(i), s.skip(i + p.len()))),
    }
}

fn split_once_char(s: &[char], c: char) -> (r: Option<(Vec<char>, Vec<char>)>)
    ensures
        match r {
            None => split_at_char(s@, c) is None,
            Some((a, b)) => split_at_char(s@, c) == Some((a@, b@)),
        },
{
    match find_char(s, c) {
        None => None,
        Some(i) => {
            let a = slice_of(s, 0, i);
            let b = suffix_from(s, i + 1);
            assert(a@ =~= s@.take(i as int));
            Some((a, b))
        },
    }
}

fn split_once_pattern(s: &[char], p: &str) -> (r: Option<(Vec<char>, Vec<char>)>)
    ensures
        match r {
            None => split_at_pattern(s@, p@) is None,
            Some((a, b)) => split_at_pattern(s@, p@) == Some((a@, b@)),
        },
{
    let pc = chars_of(p);
    match find_chars(s, pc.as_slice()) {
        None => None,
        Some(i) => {
            let a = slice_of(s, 0, i);
            let b = suffix_from(s, i + pc.len());
            assert(a@ =~= s@.take(i as int));
            Some((a, b))
        },
    }
}

fn is(s: &[char], word: &str) -> (r: bool)
    ensures
        r == (s@ == word@),
{
    let w = chars_of(word);
    eq_chars(s, w.as_slice())
}

fn text_of(parts: &[&[char]]) -> (out: Vec<char>)
    ensures
        out@ == parts_text(parts@),
{
    let mut out: Vec<char> = Vec::new();
    let mut i: usize = 0;
    while i < parts.len()
        invariant
            i <= parts@.len(),
            out@ == parts_text(parts@.take(i as int)),
        decreases parts.len() - i,
    {
        proof {
            assert(parts@.take(i + 1).drop_last() =~= parts@.take(i as int));
        }
        out = concat_chars(out.as_slice(), parts[i]);
        i = i + 1;
    }
    assert(parts@.take(parts@.len() as int) =~= parts@);
    out
}

/// The pieces concatenated.
pub open spec fn parts_text(parts: Seq<&[char]>) -> Seq<char>
    decreases parts.len(),
{
    if parts.len() == 0 {
        Seq::empty()
    } else {
        parts_text(parts.drop_last()) + parts.last()@
    }
}

// ---------------------------------------------------------------------------
// Token kinds
// ---------------------------------------------------------------------------

pub open spec fn env_kind(k: Seq<char>) -> bool {
    k == "env"@ || k == "env.read"@ || k == "env-read"@
}

pub open spec fn fs_read_kind(k: Seq<char>) -> bool {
    k == "fs.read"@ || k == "fs-read"@
}

pub open spec fn fs_write_kind(k: Seq<char>) -> bool {
    k == "fs.write"@ || k == "fs-write"@
}

pub open spec fn net_kind(k: Seq<char>) -> bool {
    k == "http"@ || k == "network"@
}

pub open spec fn proc_kind(k: Seq<char>) -> bool {
    k == "proc"@ || k == "proc.spawn"@ || k == "proc-spawn"@
}

pub open spec fn eval_token(t: Seq<char>) -> bool {
    t == "dynamic.eval"@ || t == "dynamic-eval"@ || t == "eval"@
}

pub open spec fn eval_sink(t: Seq<char>) -> bool {
    t == "eval"@ || t == "dynamic_eval"@ || t == "dynamic.eval"@
}

pub open spec fn time_token(t: Seq<char>) -> bool {
    t == "time.now"@ || t == "time"@
}

pub open spec fn random_token(t: Seq<char>) -> bool {
    t == "random.bytes"@ || t == "random"@
}

fn is_env_kind(k: &[char]) -> (b: bool)
    ensures
        b == env_kind(k@),
{
    is(k, "env") || is(k, "env.read") || is(k, "env-read")
}

fn is_fs_read_kind(k: &[char]) -> (b: bool)
    ensures
        b == fs_read_kind(k@),
{
    is(k, "fs.read") || is(k, "fs-read")
}

fn is_fs_write_kind(k: &[char]) -> (b: bool)
    ensures
        b == fs_write_kind(k@),
{
    is(k, "fs.write") || is(k, "fs-write")
}

fn is_net_kind(k: &[char]) -> (b: bool)
    ensures
        b == net_kind(k@),
{
    is(k, "http") || is(k, "network")
}

fn is_proc_kind(k: &[char]) -> (b: bool)
    ensures
        b == proc_kind(k@),
{
    is(k, "proc") || is(k, "proc.spawn") || is(k, "proc-spawn")
}

// ---------------------------------------------------------------------------
// Policy statements
// ---------------------------------------------------------------------------

/// The text of a finding after its `<function>[<instruction>]: ` prefix.
pub open spec fn finding_text(finding: Seq<char>) -> Seq<char> {
    match split_at_pattern(finding, "]: "@) {
        Some((_, m)) => m,
        None => finding,
    }
}

/// The `omc.policy` `allow` clause of a capability token.
pub open spec fn allow_clause(token: Seq<char>) -> Option<Seq<char>> {
    if eval_token(token) {
        Some("allow eval"@)
    } else if time_token(token) {
        Some("allow time"@)
    } else if random_token(token) {
        Some("allow random"@)
    } else {
        match split_at_char(token, ':') {
            None => None,
            Some((kind, target)) => {
                let keyword = if env_kind(kind) {
                    Some("env"@)
                } else if fs_read_kind(kind) {
                    Some("read"@)
                } else if fs_write_kind(kind) {
                    Some("write"@)
                } else if net_kind(kind) {
                    Some("net"@)
                } else if kind == "dns"@ {
                    Some("dns"@)
                } else if proc_kind(kind) {
                    Some("spawn"@)
                } else {
                    None
                };
                match keyword {
                    Some(k) => Some("allow "@ + k + " "@ + debug_text(target)),
                    None => None,
                }
            },
        }
    }
}

/// The policy form of a flow source token.
pub open spec fn flow_source(token: Seq<char>) -> Option<Seq<char>> {
    if token == "*"@ || token == "any"@ {
        Some("any"@)
    } else {
        match split_at_char(token, ':') {
            None => None,
            Some((kind, target)) => {
                let keyword = if env_kind(kind) {
                    Some("env"@)
                } else if kind == "file"@ || fs_read_kind(kind) {
                    Some("file"@)
                } else if kind == "secret"@ {
                    Some("secret"@)
                } else {
                    None
                };
                match keyword {
                    Some(k) => Some(k + " "@ + debug_text(target)),
                    None => None,
                }
            },
        }
    }
}

/// The policy form of a flow sink token.
pub open spec fn flow_sink(token: Seq<char>) -> Option<Seq<char>> {
    if eval_sink(token) {
        Some("eval"@)
    } else {
        match split_at_char(token, ':') {
            None => None,
            Some((kind, target)) => {
                let keyword = if net_kind(kind) {
                    Some("net"@)
                } else if kind == "process"@ || proc_kind(kind) {
                    Some("spawn"@)
                } else if kind == "file"@ || fs_write_kind(kind) {
                    Some("write"@)
                } else {
                    None
                };
                match keyword {
                    Some(k) => Some(k + " "@ + debug_text(target)),
                    None => None,
                }
            },
        }
    }
}

fn keyword_then_quoted(keyword: &str, target: &[char]) -> (out: Vec<char>)
    ensures
        out@ == keyword@ + " "@ + debug_text(target@),
{
    let k = chars_of(keyword);
    let sp = chars_of(" ");
    let t = string_from_chars(target);
    let q = chars_of(debug_quoted(t.as_str()).as_str());
    proof {
        reveal_with_fuel(parts_text, 4);
    }
    text_of(&[k.as_slice(), sp.as_slice(), q.as_slice()])
}

/// The `allow` clause of a capability token, if it has one.
pub fn dsl_allow_clause(token: &[char]) -> (r: Option<Vec<char>>)
    ensures
        match r {
            None => allow_clause(token@) is None,
            Some(v) => allow_clause(token@) == Some(v@),
        },
{
    if is(token, "dynamic.eval") || is(token, "dynamic-eval") || is(token, "eval") {
        return Some(chars_of("allow eval"));
    }
    if is(token, "time.now") || is(token, "time") {
        return Some(chars_of("allow time"));
    }
    if is(token, "random.bytes") || is(token, "random") {
        return Some(chars_of("allow random"));
    }
    let (kind, target) = match split_once_char(token, ':') {
        None => {
            return None;
        },
        Some(p) => p,
    };
    let keyword = if is_env_kind(kind.as_slice()) {
        "allow env"
    } else if is_fs_read_kind(kind.as_slice()) {
        "allow read"
    } else if is_fs_write_kind(kind.as_slice()) {
        "allow write"
    } else if is_net_kind(kind.as_slice()) {
        "allow net"
    } else if is(kind.as_slice(), "dns") {
        "allow dns"
    } else if is_proc_kind(kind.as_slice()) {
        "allow spawn"
    } else {
        return None;
    };
    proof {
        reveal_strlit("allow env");
        reveal_strlit("allow read");
        reveal_strlit("allow write");
        reveal_strlit("allow net");
        reveal_strlit("allow dns");
        reveal_strlit("allow spawn");
        reveal_strlit("allow ");
        reveal_strlit("env");
        reveal_strlit("read");
        reveal_strlit("write");
        reveal_strlit("net");
        reveal_strlit("dns");
        reveal_strlit("spawn");
    }
    Some(keyword_then_quoted(keyword, target.as_slice()))
}

/// The policy form of a flow source token.
pub fn dsl_flow_src(token: &[char]) -> (r: Option<Vec<char>>)
    ensures
        match r {
            None => flow_source(token@) is None,
            Some(v) => flow_source(token@) == Some(v@),
        },
{
    if is(token, "*") || is(token, "any") {
        return Some(chars_of("any"));
    }
    let (kind, target) = match split_once_char(token, ':') {
        None => {
            return None;
        },
        Some(p) => p,
    };
    let keyword = if is_env_kind(kind.as_slice()) {
        "env"
    } else if is(kind.as_slice(), "file") || is_fs_read_kind(kind.as_slice()) {
        "file"
    } else if is(kind.as_slice(), "secret") {
        "secret"
    } else {
        return None;
    };
    Some(keyword_then_quoted(keyword, target.as_slice()))
}

/// The policy form of a flow sink token.
pub fn dsl_flow_sink(token: &[char]) -> (r: Option<Vec<char>>)
    ensures
        match r {
            None => flow_sink(token@) is None,
            Some(v) => flow_sink(token@) == Some(v@),
        },
{
    if is(token, "eval") || is(token, "dynamic_eval") || is(token, "dynamic.eval") {
        return Some(chars_of("eval"));
    }
    let (kind, target) = match split_once_char(token, ':') {
        None => {
            return None;
        },
        Some(p) => p,
    };
    let keyword = if is_net_kind(kind.as_slice()) {
        "net"
    } else if is(kind.as_slice(), "process") || is_proc_kind(kind.as_slice()) {
        "spawn"
    } else if is(kind.as_slice(), "file") || is_fs_write_kind(kind.as_slice()) {
        "write"
    } else {
        return None;
    };
    Some(keyword_then_quoted(keyword, target.as_slice()))
}

// ---------------------------------------------------------------------------
// Plain words
// ---------------------------------------------------------------------------

/// Plain words for a flow source token.
pub open spec fn source_words(token: Seq<char>) -> Seq<char> {
    match split_at_char(token, ':') {
        Some((kind, t)) => if env_kind(kind) {
            if t == "*"@ {
                "your environment variables"@
            } else {
                "the value of environment variable "@ + t
            }
        } else if kind == "file"@ || fs_read_kind(kind) {
            if t == "*"@ {
                "files it reads"@
            } else {
                "the contents of file "@ + t
            }
        } else if kind == "secret"@ {
            "the secret "@ + t
        } else {
            "a secret it read"@
        },
        None => "a secret it read"@,
    }
}

/// Plain words for a flow sink token.
pub open spec fn sink_words(token: Seq<char>) -> Seq<char> {
    if eval_sink(token) {
        "dynamically evaluated code"@
    } else {
        match split_at_char(token, ':') {
            Some((kind, t)) => if net_kind(kind) {
                if t == "*"@ {
                    "the network (any host)"@
                } else {
                    "the network host "@ + t
                }
            } else if kind == "process"@ || proc_kind(kind) {
                "a spawned process"@
            } else if kind == "file"@ || fs_write_kind(kind) {
                "a file it writes"@
            } else {
                "an external sink"@
            },
            None => "an external sink"@,
        }
    }
}

fn words(parts: &[&str]) -> (out: Vec<char>)
    ensures
        out@ == words_text(parts@),
{
    let mut out: Vec<char> = Vec::new();
    let mut i: usize = 0;
    while i < parts.len()
        invariant
            i <= parts@.len(),
            out@ == words_text(parts@.take(i as int)),
        decreases parts.len() - i,
    {
        proof {
            assert(parts@.take(i + 1).drop_last() =~= parts@.take(i as int));
        }
        let c = chars_of(parts[i]);
        out = concat_chars(out.as_slice(), c.as_slice());
        i = i + 1;
    }
    assert(parts@.take(parts@.len() as int) =~= parts@);
    out
}

/// The texts concatenated.
pub open spec fn words_text(parts: Seq<&str>) -> Seq<char>
    decreases parts.len(),
{
    if parts.len() == 0 {
        Seq::empty()
    } else {
        words_text(parts.drop_last()) + parts.last()@
    }
}

fn literal_then(head: &str, tail: &[char]) -> (out: Vec<char>)
    ensures
        out@ == head@ + tail@,
{
    let h = chars_of(head);
    concat_chars(h.as_slice(), tail)
}

/// Plain words for a flow source token.
pub fn describe_flow_src(token: &[char]) -> (out: Vec<char>)
    ensures
        out@ == source_words(token@),
{
    match split_once_char(token, ':') {
        Some((kind, t)) => {
            if is_env_kind(kind.as_slice()) {
                if is(t.as_slice(), "*") {
                    chars_of("your environment variables")
                } else {
                    literal_then("the value of environment variable ", t.as_slice())
                }
            } else if is(kind.as_slice(), "file") || is_fs_read_kind(kind.as_slice()) {
                if is(t.as_slice(), "*") {
                    chars_of("files it reads")
                } else {
                    literal_then("the contents of file ", t.as_slice())
                }
            } else if is(kind.as_slice(), "secret") {
                literal_then("the secret ", t.as_slice())
            } else {
                chars_of("a secret it read")
            }
        },
        None => chars_of("a secret it read"),
    }
}

/// Plain words for a flow sink token.
pub fn describe_flow_sink(token: &[char]) -> (out: Vec<char>)
    ensures
        out@ == sink_words(token@),
{
    if is(token, "eval") || is(token, "dynamic_eval") || is(token, "dynamic.eval") {
        return chars_of("dynamically evaluated code");
    }
    match split_once_char(token, ':') {
        Some((kind, t)) => {
            if is_net_kind(kind.as_slice()) {
                if is(t.as_slice(), "*") {
                    chars_of("the network (any host)")
                } else {
                    literal_then("the network host ", t.as_slice())
                }
            } else if is(kind.as_slice(), "process") || is_proc_kind(kind.as_slice()) {
                chars_of("a spawned process")
            } else if is(kind.as_slice(), "file") || is_fs_write_kind(kind.as_slice()) {
                chars_of("a file it writes")
            } else {
                chars_of("an external sink")
            }
        },
        None => chars_of("an external sink"),
    }
}

/// Plain words, risk line and danger of a capability token.
pub open spec fn capability_words(token: Seq<char>) -> (Seq<char>, Option<Seq<char>>, bool) {
    if eval_token(token) {
        (
            "run dynamically generated or loaded code (eval / exec / dynamic import)"@,
            Some("can hide arbitrary behavior from static analysis"@),
            true,
        )
    } else if time_token(token) {
        ("read the current time"@, None, false)
    } else if random_token(token) {
        ("read secure random bytes"@, None, false)
    } else {
        match split_at_char(token, ':') {
            None => (token, None, true),
            Some((kind, target)) => if proc_kind(kind) {
                (
                    if starts_with(target, "npm-script:"@) {
                        "run the npm lifecycle script `"@ + target.skip("npm-script:"@.len() as int)
                            + "` during install"@
                    } else if target == "*"@ {
                        "spawn arbitrary processes"@
                    } else {
                        "spawn the process `"@ + target + "`"@
                    },
                    Some("install-time / arbitrary code execution"@),
                    true,
                )
            } else if fs_write_kind(kind) {
                (
                    if target == "*"@ {
                        "write arbitrary files"@
                    } else {
                        "write the file "@ + target
                    },
                    Some("could install a persistent backdoor"@),
                    true,
                )
            } else if env_kind(kind) {
                ("read environment variable "@ + target, None, false)
            } else if fs_read_kind(kind) {
                (
                    "read the file "@ + target,
                    Some("reading a sensitive file (keys/credentials) stays blocked even here"@),
                    true,
                )
            } else if net_kind(kind) {
                (
                    if target == "*"@ {
                        "make network requests to any host"@
                    } else {
                        "make network requests to "@ + target
                    },
                    None,
                    false,
                )
            } else if kind == "dns"@ {
                ("resolve DNS for "@ + target, None, false)
            } else {
                (token, None, true)
            },
        }
    }
}

pub open spec fn opt_chars_view(o: Option<Vec<char>>) -> Option<Seq<char>> {
    match o {
        Some(v) => Some(v@),
        None => None,
    }
}

/// Plain words, risk line and danger of a capability token.
pub fn describe_capability_token(token: &[char]) -> (r: (Vec<char>, Option<Vec<char>>, bool))
    ensures
        (r.0@, opt_chars_view(r.1), r.2) == capability_words(token@),
{
    if is(token, "dynamic.eval") || is(token, "dynamic-eval") || is(token, "eval") {
        return (
            chars_of("run dynamically generated or loaded code (eval / exec / dynamic import)"),
            Some(chars_of("can hide arbitrary behavior from static analysis")),
            true,
        );
    }
    if is(token, "time.now") || is(token, "time") {
        return (chars_of("read the current time"), None, false);
    }
    if is(token, "random.bytes") || is(token, "random") {
        return (chars_of("read secure random bytes"), None, false);
    }
    let (kind, target) = match split_once_char(token, ':') {
        None => {
            return (slice_of(token, 0, token.len()), None, true);
        },
        Some(p) => p,
    };
    proof {
        assert(token@.subrange(0, token@.len() as int) =~= token@);
    }
    if is_proc_kind(kind.as_slice()) {
        let script = chars_of("npm-script:");
        let human = if starts_with_chars(target.as_slice(), script.as_slice()) {
            let name = suffix_from(target.as_slice(), script.len());
            let a = literal_then("run the npm lifecycle script `", name.as_slice());
            let tail = chars_of("` during install");
            concat_chars(a.as_slice(), tail.as_slice())
        } else if is(target.as_slice(), "*") {
            chars_of("spawn arbitrary processes")
        } else {
            let a = literal_then("spawn the process `", target.as_slice());
            let tail = chars_of("`");
            concat_chars(a.as_slice(), tail.as_slice())
        };
        return (human, Some(chars_of("install-time / arbitrary code execution")), true);
    }
    if is_fs_write_kind(kind.as_slice()) {
        let human = if is(target.as_slice(), "*") {
            chars_of("write arbitrary files")
        } else {
            literal_then("write the file ", target.as_slice())
        };
        return (human, Some(chars_of("could install a persistent backdoor")), true);
    }
    if is_env_kind(kind.as_slice()) {
        return (literal_then("read environment variable ", target.as_slice()), None, false);
    }
    if is_fs_read_kind(kind.as_slice()) {
        return (
            literal_then("read the file ", target.as_slice()),
            Some(chars_of("reading a sensitive file (keys/credentials) stays blocked even here")),
            true,
        );
    }
    if is_net_kind(kind.as_slice()) {
        let human = if is(target.as_slice(), "*") {
            chars_of("make network requests to any host")
        } else {
            literal_then("make network requests to ", target.as_slice())
        };
        return (human, None, false);
    }
    if is(kind.as_slice(), "dns") {
        return (literal_then("resolve DNS for ", target.as_slice()), None, false);
    }
    (slice_of(token, 0, token.len()), None, true)
}

// ---------------------------------------------------------------------------
// Findings
// ---------------------------------------------------------------------------

/// A grant that a blocked finding needs.
pub struct GrantNeed {
    /// The finding's text, kept as it is.
    pub raw: String,
    /// What granting it permits, in plain words.
    pub human: String,
    /// A warning for dangerous shapes.
    pub risk: Option<String>,
    /// The one-run command-line flag.
    pub cli_flag: String,
    /// The equivalent `omc.policy` statement.
    pub policy_stmt: String,
    /// Whether the grant is of a deny-by-default class.
    pub dangerous: bool,
}

/// A grant need as plain values: raw, human, risk, flag, statement, danger.
pub struct NeedView {
    pub raw: Seq<char>,
    pub human: Seq<char>,
    pub risk: Option<Seq<char>>,
    pub cli_flag: Seq<char>,
    pub policy_stmt: Seq<char>,
    pub dangerous: bool,
}

impl GrantNeed {
    pub open spec fn view(&self) -> NeedView {
        NeedView {
            raw: self.raw@,
            human: self.human@,
            risk: match self.risk {
                Some(r) => Some(r@),
                None => None,
            },
            cli_flag: self.cli_flag@,
            policy_stmt: self.policy_stmt@,
            dangerous: self.dangerous,
        }
    }
}

/// The warning attached to every flow.
pub open spec fn flow_risk() -> Seq<char> {
    "this is the shape used to exfiltrate credentials/data \u{2014} only allow it if you trust this package"@
}

/// The grant a finding needs, if its shape is known: a flow
/// `<source> may not flow to <sink>`, or `capability <token> not granted`.
pub open spec fn block_finding(finding: Seq<char>) -> Option<NeedView> {
    let message = finding_text(finding);
    match split_at_pattern(message, " may not flow to "@) {
        Some((src0, sink0)) => {
            let src = trim(src0);
            let sink = trim(sink0);
            match (flow_source(src), flow_sink(sink)) {
                (Some(s), Some(d)) => Some(
                    NeedView {
                        raw: message,
                        human: "send "@ + source_words(src) + " to "@ + sink_words(sink),
                        risk: Some(flow_risk()),
                        cli_flag: "--allow-flow "@ + src + "->"@ + sink,
                        policy_stmt: "flow "@ + s + " -> "@ + d,
                        dangerous: true,
                    },
                ),
                _ => None,
            }
        },
        None => if starts_with(message, "capability "@) && ends_with(
            message.skip("capability "@.len() as int),
            " not granted"@,
        ) {
            let inner = message.skip("capability "@.len() as int);
            let token = trim(inner.take(inner.len() - " not granted"@.len()));
            match allow_clause(token) {
                None => None,
                Some(stmt) => {
                    let (human, risk, dangerous) = capability_words(token);
                    Some(
                        NeedView {
                            raw: message,
                            human,
                            risk,
                            cli_flag: "--allow "@ + token,
                            policy_stmt: stmt,
                            dangerous,
                        },
                    )
                },
            }
        } else {
            None
        },
    }
}

/// The text of a finding after its `<function>[<instruction>]: ` prefix.
pub fn finding_message(finding: &[char]) -> (out: Vec<char>)
    ensures
        out@ == finding_text(finding@),
{
    match split_once_pattern(finding, "]: ") {
        Some((_, m)) => m,
        None => slice_of(finding, 0, finding.len()),
    }
}

/// The grant a verifier finding needs, if its shape is known.
pub fn parse_block_finding(finding: &[char]) -> (r: Option<GrantNeed>)
    ensures
        match r {
            None => block_finding(finding@) is None,
            Some(n) => block_finding(finding@) == Some(n.view()),
        },
{
    let message = finding_message(finding);
    match split_once_pattern(message.as_slice(), " may not flow to ") {
        Some((src0, sink0)) => {
            let src = trim_chars(src0.as_slice());
            let sink = trim_chars(sink0.as_slice());
            let s = match dsl_flow_src(src.as_slice()) {
                None => {
                    return None;
                },
                Some(s) => s,
            };
            let d = match dsl_flow_sink(sink.as_slice()) {
                None => {
                    return None;
                },
                Some(d) => d,
            };
            let sw = describe_flow_src(src.as_slice());
            let dw = describe_flow_sink(sink.as_slice());
            let send = chars_of("send ");
            let to = chars_of(" to ");
            let human = text_of(&[send.as_slice(), sw.as_slice(), to.as_slice(), dw.as_slice()]);
            let flag_head = chars_of("--allow-flow ");
            let arrow = chars_of("->");
            let cli_flag = text_of(&[flag_head.as_slice(), src.as_slice(), arrow.as_slice(), sink.as_slice()]);
            let flow = chars_of("flow ");
            let spaced_arrow = chars_of(" -> ");
            let stmt = text_of(&[flow.as_slice(), s.as_slice(), spaced_arrow.as_slice(), d.as_slice()]);
            let risk = chars_of(
                "this is the shape used to exfiltrate credentials/data \u{2014} only allow it if you trust this package",
            );
            let need = GrantNeed {
                raw: string_from_chars(message.as_slice()),
                human: string_from_chars(human.as_slice()),
                risk: Some(string_from_chars(risk.as_slice())),
                cli_flag: string_from_chars(cli_flag.as_slice()),
                policy_stmt: string_from_chars(stmt.as_slice()),
                dangerous: true,
            };
            proof {
                reveal_with_fuel(parts_text, 5);
            }
            Some(need)
        },
        None => {
            let head = chars_of("capability ");
            let tail = chars_of(" not granted");
            if !starts_with_chars(message.as_slice(), head.as_slice()) {
                return None;
            }
            let inner = suffix_from(message.as_slice(), head.len());
            if !ends_with_chars(inner.as_slice(), tail.as_slice()) {
                return None;
            }
            let raw_token = slice_of(inner.as_slice(), 0, inner.len() - tail.len());
            assert(raw_token@ =~= inner@.take(inner@.len() - tail@.len()));
            let token = trim_chars(raw_token.as_slice());
            let stmt = match dsl_allow_clause(token.as_slice()) {
                None => {
                    return None;
                },
                Some(s) => s,
            };
            let (human, risk, dangerous) = describe_capability_token(token.as_slice());
            let flag = literal_then("--allow ", token.as_slice());
            Some(
                GrantNeed {
                    raw: string_from_chars(message.as_slice()),
                    human: string_from_chars(human.as_slice()),
                    risk: match risk {
                        Some(r) => Some(string_from_chars(r.as_slice())),
                        None => None,
                    },
                    cli_flag: string_from_chars(flag.as_slice()),
                    policy_stmt: string_from_chars(stmt.as_slice()),
                    dangerous,
                },
            )
        },
    }
}

// ---------------------------------------------------------------------------
// Guidance text
// ---------------------------------------------------------------------------

/// Some need has this flag.
pub open spec fn has_flag(needs: Seq<NeedView>, flag: Seq<char>) -> bool {
    exists|j: int| 0 <= j < needs.len() && #[trigger] needs[j].cli_flag == flag
}

/// The needs of the findings, one per flag in the order first seen, and
/// the texts of the findings of unknown shape, each once.
pub open spec fn gathered(findings: Seq<Seq<char>>) -> (Seq<NeedView>, Seq<Seq<char>>)
    decreases findings.len(),
{
    if findings.len() == 0 {
        (Seq::empty(), Seq::empty())
    } else {
        let prev = gathered(findings.drop_last());
        let f = findings.last();
        match block_finding(f) {
            Some(n) => if has_flag(prev.0, n.cli_flag) {
                prev
            } else {
                (prev.0.push(n), prev.1)
            },
            None => {
                let raw = finding_text(f);
                if prev.1.contains(raw) {
                    prev
                } else {
                    (prev.0, prev.1.push(raw))
                }
            },
        }
    }
}

/// The line of one need, with its risk line.
pub open spec fn need_line(n: NeedView) -> Seq<char> {
    "    "@ + (if n.dangerous {
        "!"@
    } else {
        " "@
    }) + " "@ + n.human + "   ("@ + n.raw + ")\n"@ + match n.risk {
        Some(r) => "      \u{2514} "@ + r + "\n"@,
        None => Seq::empty(),
    }
}

pub open spec fn need_lines(needs: Seq<NeedView>) -> Seq<char>
    decreases needs.len(),
{
    if needs.len() == 0 {
        Seq::empty()
    } else {
        need_lines(needs.drop_last()) + need_line(needs.last())
    }
}

pub open spec fn unknown_lines(raws: Seq<Seq<char>>) -> Seq<char>
    decreases raws.len(),
{
    if raws.len() == 0 {
        Seq::empty()
    } else {
        unknown_lines(raws.drop_last()) + "    ! "@ + raws.last() + "\n"@
    }
}

pub open spec fn stmt_lines(needs: Seq<NeedView>) -> Seq<char>
    decreases needs.len(),
{
    if needs.len() == 0 {
        Seq::empty()
    } else {
        stmt_lines(needs.drop_last()) + "        "@ + needs.last().policy_stmt + "\n"@
    }
}

/// The flags joined with `sep`.
pub open spec fn joined_flags(needs: Seq<NeedView>, sep: Seq<char>) -> Seq<char>
    decreases needs.len(),
{
    if needs.len() == 0 {
        Seq::empty()
    } else if needs.len() == 1 {
        needs[0].cli_flag
    } else {
        joined_flags(needs.drop_last(), sep) + sep + needs.last().cli_flag
    }
}

/// The guidance shown when a package is blocked.
pub open spec fn guidance(
    ecosystem: Ecosystem,
    name: Seq<char>,
    version: Seq<char>,
    findings: Seq<Seq<char>>,
) -> Seq<char> {
    let (needs, unknown) = gathered(findings);
    let head = guidance_head(name, needs, unknown);
    if needs.len() == 0 {
        head
    } else {
        head + guidance_tail(ecosystem, name, version, needs)
    }
}

/// The opening of the guidance: the package's name, then a line for each
/// known grant and each unrecognized finding.
pub open spec fn guidance_head(name: Seq<char>, needs: Seq<NeedView>, unknown: Seq<Seq<char>>) -> Seq<
    char,
> {
    "  "@ + name + " was blocked. It wants to:\n"@ + need_lines(needs) + unknown_lines(unknown)
}

/// A package as the commands name it: ecosystem, name and version.
pub open spec fn package_id(ecosystem: Ecosystem, name: Seq<char>, version: Seq<char>) -> Seq<char> {
    ecosystem_name(ecosystem) + ":"@ + name + "@"@ + version
}

/// The command that allows the grants for one run.
pub open spec fn run_lines(id: Seq<char>, needs: Seq<NeedView>) -> Seq<char> {
    "\n  To allow it for THIS run only:\n"@ + "      omc add "@ + id + " \\\n        "@
        + joined_flags(needs, " \\\n        "@) + "\n"@
}

/// The command that trusts the version everywhere.
pub open spec fn trust_lines(id: Seq<char>, name: Seq<char>, version: Seq<char>, needs: Seq<NeedView>) -> Seq<
    char,
> {
    "\n  To trust "@ + name + " "@ + version + " everywhere (writes ~/.omc/policy.d/):\n"@
        + "      omc trust "@ + id + " "@ + joined_flags(needs, " "@) + "\n"@
}

/// The version-pinned policy block.
pub open spec fn block_lines(
    ecosystem: Ecosystem,
    name: Seq<char>,
    version: Seq<char>,
    needs: Seq<NeedView>,
) -> Seq<char> {
    "\n  ...or add this version-pinned block to ./omc.policy (project) or\n  ~/.omc/policy.d/"@
        + name + ".omc.policy (personal, applies everywhere):\n"@ + "      "@ + ecosystem_name(ecosystem)
        + " package "@ + debug_text(name) + " =="@ + version + " {\n"@ + stmt_lines(needs)
        + "      }\n"@
}

/// The rest of the guidance where some grant is known: the one-run flags,
/// the trust command and a version-pinned policy block.
pub open spec fn guidance_tail(
    ecosystem: Ecosystem,
    name: Seq<char>,
    version: Seq<char>,
    needs: Seq<NeedView>,
) -> Seq<char> {
    let id = package_id(ecosystem, name, version);
    run_lines(id, needs) + trust_lines(id, name, version, needs) + block_lines(
        ecosystem,
        name,
        version,
        needs,
    )
}

pub open spec fn needs_view(needs: Seq<GrantNeed>) -> Seq<NeedView> {
    Seq::new(needs.len(), |i: int| needs[i].view())
}

pub open spec fn seqs_view(v: Seq<Vec<char>>) -> Seq<Seq<char>> {
    Seq::new(v.len(), |i: int| v[i]@)
}

fn flag_seen(needs: &Vec<GrantNeed>, flag: &str) -> (b: bool)
    ensures
        b == has_flag(needs_view(needs@), flag@),
{
    let mut i: usize = 0;
    while i < needs.len()
        invariant
            i <= needs@.len(),
            forall|j: int| 0 <= j < i ==> needs@[j].cli_flag@ != flag@,
        decreases needs.len() - i,
    {
        let a = chars_of(needs[i].cli_flag.as_str());
        let b = chars_of(flag);
        if eq_chars(a.as_slice(), b.as_slice()) {
            assert(needs_view(needs@)[i as int].cli_flag == flag@);
            return true;
        }
        i = i + 1;
    }
    proof {
        if has_flag(needs_view(needs@), flag@) {
            let j = choose|j: int| 0 <= j < needs_view(needs@).len() && #[trigger] needs_view(
                needs@,
            )[j].cli_flag == flag@;
            assert(needs@[j].cli_flag@ == flag@);
        }
    }
    false
}

fn raw_seen(raws: &Vec<Vec<char>>, raw: &[char]) -> (b: bool)
    ensures
        b == seqs_view(raws@).contains(raw@),
{
    let mut i: usize = 0;
    while i < raws.len()
        invariant
            i <= raws@.len(),
            forall|j: int| 0 <= j < i ==> raws@[j]@ != raw@,
        decreases raws.len() - i,
    {
        if eq_chars(raws[i].as_slice(), raw) {
            assert(seqs_view(raws@)[i as int] == raw@);
            return true;
        }
        i = i + 1;
    }
    proof {
        if seqs_view(raws@).contains(raw@) {
            let j = choose|j: int| 0 <= j < seqs_view(raws@).len() && seqs_view(raws@)[j] == raw@;
            assert(raws@[j]@ == raw@);
        }
    }
    false
}

fn push_text(out: &mut Vec<char>, s: &[char])
    ensures
        final(out)@ == old(out)@ + s@,
{
    let joined = concat_chars(out.as_slice(), s);
    *out = joined;
}

fn push_str(out: &mut Vec<char>, s: &str)
    ensures
        final(out)@ == old(out)@ + s@,
{
    let c = chars_of(s);
    push_text(out, c.as_slice());
}

/// What the findings want: the known grants (each flag once) and the
/// messages of the findings that name none (each once), in order.
fn gather_findings(findings: &Vec<String>) -> (r: (Vec<GrantNeed>, Vec<Vec<char>>))
    ensures
        gathered(seqs_of_strings(findings@)) == (needs_view(r.0@), seqs_view(r.1@)),
{
    let ghost fs = seqs_of_strings(findings@);
    let mut needs: Vec<GrantNeed> = Vec::new();
    let mut unknown: Vec<Vec<char>> = Vec::new();
    let mut i: usize = 0;
    while i < findings.len()
        invariant
            fs == seqs_of_strings(findings@),
            i <= findings@.len(),
            gathered(fs.take(i as int)) == (needs_view(needs@), seqs_view(unknown@)),
        decreases findings.len() - i,
    {
        proof {
            assert(fs.take(i + 1).drop_last() =~= fs.take(i as int));
            assert(fs.take(i + 1).last() == findings@[i as int]@);
        }
        let f = chars_of(findings[i].as_str());
        match parse_block_finding(f.as_slice()) {
            Some(need) => {
                if !flag_seen(&needs, need.cli_flag.as_str()) {
                    let ghost before = needs_view(needs@);
                    needs.push(need);
                    assert(needs_view(needs@) =~= before.push(needs@[needs@.len() - 1].view()));
                }
            },
            None => {
                let raw = finding_message(f.as_slice());
                if !raw_seen(&unknown, raw.as_slice()) {
                    let ghost before = seqs_view(unknown@);
                    unknown.push(raw);
                    assert(seqs_view(unknown@) =~= before.push(unknown@[unknown@.len() - 1]@));
                }
            },
        }
        i = i + 1;
    }
    assert(fs.take(findings@.len() as int) =~= fs);
    (needs, unknown)
}

/// The opening of the guidance.
fn guidance_head_chars(name: &str, needs: &Vec<GrantNeed>, unknown: &Vec<Vec<char>>) -> (out: Vec<
    char,
>)
    ensures
        out@ == guidance_head(name@, needs_view(needs@), seqs_view(unknown@)),
{
    let ghost nv = needs_view(needs@);
    let nm = chars_of(name);
    let mut out: Vec<char> = Vec::new();
    push_str(&mut out, "  ");
    push_text(&mut out, nm.as_slice());
    push_str(&mut out, " was blocked. It wants to:\n");
    let mut k: usize = 0;
    let ghost start = out@;
    assert(nv.take(0) =~= Seq::<NeedView>::empty());
    assert(start + need_lines(nv.take(0)) =~= start);
    while k < needs.len()
        invariant
            nv == needs_view(needs@),
            k <= needs@.len(),
            out@ == start + need_lines(nv.take(k as int)),
        decreases needs.len() - k,
    {
        proof {
            assert(nv.take(k + 1).drop_last() =~= nv.take(k as int));
            assert(nv.take(k + 1).last() == needs@[k as int].view());
        }
        let n = &needs[k];
        let ghost before = out@;
        push_str(&mut out, "    ");
        if n.dangerous {
            push_str(&mut out, "!");
        } else {
            push_str(&mut out, " ");
        }
        push_str(&mut out, " ");
        push_str(&mut out, n.human.as_str());
        push_str(&mut out, "   (");
        push_str(&mut out, n.raw.as_str());
        push_str(&mut out, ")\n");
        match &n.risk {
            Some(r) => {
                push_str(&mut out, "      \u{2514} ");
                push_str(&mut out, r.as_str());
                push_str(&mut out, "\n");
            },
            None => {},
        }
        proof {
            assert(out@ =~= before + need_line(needs@[k as int].view()));
        }
        k = k + 1;
    }
    assert(nv.take(needs@.len() as int) =~= nv);
    let ghost uv = seqs_view(unknown@);
    let ghost start2 = out@;
    let mut u: usize = 0;
    assert(start2 + unknown_lines(uv.take(0)) =~= start2);
    while u < unknown.len()
        invariant
            uv == seqs_view(unknown@),
            u <= unknown@.len(),
            out@ == start2 + unknown_lines(uv.take(u as int)),
        decreases unknown.len() - u,
    {
        proof {
            assert(uv.take(u + 1).drop_last() =~= uv.take(u as int));
            assert(uv.take(u + 1).last() == unknown@[u as int]@);
        }
        let ghost before = out@;
        push_str(&mut out, "    ! ");
        push_text(&mut out, unknown[u].as_slice());
        push_str(&mut out, "\n");
        assert(out@ =~= before + ("    ! "@ + unknown@[u as int]@ + "\n"@));
        u = u + 1;
    }
    assert(uv.take(unknown@.len() as int) =~= uv);
    assert(out@ =~= "  "@ + name@ + " was blocked. It wants to:\n"@ + need_lines(nv) + unknown_lines(uv));
    out
}

fn package_id_chars(ecosystem: Ecosystem, name: &str, version: &str) -> (out: Vec<char>)
    ensures
        out@ == package_id(ecosystem, name@, version@),
{
    let mut out: Vec<char> = Vec::new();
    push_str(&mut out, ecosystem.as_str());
    push_str(&mut out, ":");
    push_str(&mut out, name);
    push_str(&mut out, "@");
    push_str(&mut out, version);
    assert(out@ =~= package_id(ecosystem, name@, version@));
    out
}

#[verifier::spinoff_prover]
fn run_lines_chars(id: &Vec<char>, needs: &Vec<GrantNeed>) -> (out: Vec<char>)
    ensures
        out@ == run_lines(id@, needs_view(needs@)),
{
    let flags_break = join_flags(needs, " \\\n        ");
    let mut out: Vec<char> = Vec::new();
    push_str(&mut out, "\n  To allow it for THIS run only:\n");
    push_str(&mut out, "      omc add ");
    push_text(&mut out, id.as_slice());
    push_str(&mut out, " \\\n        ");
    push_text(&mut out, flags_break.as_slice());
    push_str(&mut out, "\n");
    assert(out@ =~= run_lines(id@, needs_view(needs@)));
    out
}

#[verifier::spinoff_prover]
fn trust_lines_chars(id: &Vec<char>, name: &str, version: &str, needs: &Vec<GrantNeed>) -> (out: Vec<
    char,
>)
    ensures
        out@ == trust_lines(id@, name@, version@, needs_view(needs@)),
{
    let flags_space = join_flags(needs, " ");
    let mut out: Vec<char> = Vec::new();
    push_str(&mut out, "\n  To trust ");
    push_str(&mut out, name);
    push_str(&mut out, " ");
    push_str(&mut out, version);
    push_str(&mut out, " everywhere (writes ~/.omc/policy.d/):\n");
    push_str(&mut out, "      omc trust ");
    push_text(&mut out, id.as_slice());
    push_str(&mut out, " ");
    push_text(&mut out, flags_space.as_slice());
    push_str(&mut out, "\n");
    assert(out@ =~= trust_lines(id@, name@, version@, needs_view(needs@)));
    out
}

#[verifier::spinoff_prover]
fn block_lines_chars(ecosystem: Ecosystem, name: &str, version: &str, needs: &Vec<GrantNeed>) -> (out: Vec<
    char,
>)
    ensures
        out@ == block_lines(ecosystem, name@, version@, needs_view(needs@)),
{
    let ghost nv = needs_view(needs@);
    let mut out: Vec<char> = Vec::new();
    push_str(
        &mut out,
        "\n  ...or add this version-pinned block to ./omc.policy (project) or\n  ~/.omc/policy.d/",
    );
    push_str(&mut out, name);
    push_str(&mut out, ".omc.policy (personal, applies everywhere):\n");
    push_str(&mut out, "      ");
    push_str(&mut out, ecosystem.as_str());
    push_str(&mut out, " package ");
    let quoted = chars_of(debug_quoted(name).as_str());
    push_text(&mut out, quoted.as_slice());
    push_str(&mut out, " ==");
    push_str(&mut out, version);
    push_str(&mut out, " {\n");
    let ghost start3 = out@;
    let mut m: usize = 0;
    assert(start3 + stmt_lines(nv.take(0)) =~= start3);
    while m < needs.len()
        invariant
            nv == needs_view(needs@),
            m <= needs@.len(),
            out@ == start3 + stmt_lines(nv.take(m as int)),
        decreases needs.len() - m,
    {
        proof {
            assert(nv.take(m + 1).drop_last() =~= nv.take(m as int));
            assert(nv.take(m + 1).last() == needs@[m as int].view());
        }
        let ghost before = out@;
        push_str(&mut out, "        ");
        push_str(&mut out, needs[m].policy_stmt.as_str());
        push_str(&mut out, "\n");
        assert(out@ =~= before + ("        "@ + needs@[m as int].policy_stmt@ + "\n"@));
        m = m + 1;
    }
    assert(nv.take(needs@.len() as int) =~= nv);
    push_str(&mut out, "      }\n");
    assert(out@ =~= block_lines(ecosystem, name@, version@, nv));
    out
}

/// The rest of the guidance where some grant is known.
fn guidance_tail_chars(
    ecosystem: Ecosystem,
    name: &str,
    version: &str,
    needs: &Vec<GrantNeed>,
) -> (out: Vec<char>)
    ensures
        out@ == guidance_tail(ecosystem, name@, version@, needs_view(needs@)),
{
    let id = package_id_chars(ecosystem, name, version);
    let a = run_lines_chars(&id, needs);
    let b = trust_lines_chars(&id, name, version, needs);
    let c = block_lines_chars(ecosystem, name, version, needs);
    let ab = concat_chars(a.as_slice(), b.as_slice());
    concat_chars(ab.as_slice(), c.as_slice())
}

/// Guidance for a blocked package: what each finding wants (plain words,
/// the finding itself, the risk), then, when any finding has a known grant,
/// the one-run flags, the trust command and a version-pinned policy block.
pub fn render_block_guidance(
    ecosystem: Ecosystem,
    name: &str,
    version: &str,
    findings: &Vec<String>,
) -> (out: String)
    ensures
        out@ == guidance(ecosystem, name@, version@, seqs_of_strings(findings@)),
{
    let (needs, unknown) = gather_findings(findings);
    let head = guidance_head_chars(name, &needs, &unknown);
    if needs.len() == 0 {
        return string_from_chars(head.as_slice());
    }
    let tail = guidance_tail_chars(ecosystem, name, version, &needs);
    let all = concat_chars(head.as_slice(), tail.as_slice());
    string_from_chars(all.as_slice())
}

/// The views of some strings.
pub open spec fn seqs_of_strings(v: Seq<String>) -> Seq<Seq<char>> {
    Seq::new(v.len(), |i: int| v[i]@)
}

fn join_flags(needs: &Vec<GrantNeed>, sep: &str) -> (out: Vec<char>)
    ensures
        out@ == joined_flags(needs_view(needs@), sep@),
{
    let ghost nv = needs_view(needs@);
    let mut out: Vec<char> = Vec::new();
    let mut i: usize = 0;
    while i < needs.len()
        invariant
            nv == needs_view(needs@),
            i <= needs@.len(),
            out@ == joined_flags(nv.take(i as int), sep@),
        decreases needs.len() - i,
    {
        proof {
            assert(nv.take(i + 1).drop_last() =~= nv.take(i as int));
            assert(nv.take(i + 1).last() == needs@[i as int].view());
        }
        if i > 0 {
            push_str(&mut out, sep);
        }
        push_str(&mut out, needs[i].cli_flag.as_str());
        proof {
            if i == 0 {
                assert(nv.take(1)[0] == needs@[0].view());
                assert(out@ =~= needs@[0].cli_flag@);
            }
        }
        i = i + 1;
    }
    assert(nv.take(needs@.len() as int) =~= nv);
    out
}

} // verus!
