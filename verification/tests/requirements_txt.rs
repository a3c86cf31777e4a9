use omc_registry::requirements::{
    expand_requirement_env_variables, first_pip_option_start, normalize_sha256_hash,
    parse_requirement_line, requirement_logical_lines, shell_like_tokens, strip_requirement_comment,
};

fn chars(s: &str) -> Vec<char> {
    s.chars().collect()
}

fn text(v: &[char]) -> String {
    v.iter().collect()
}

fn vars(pairs: &[(&str, &str)]) -> Vec<(String, String)> {
    pairs
        .iter()
        .map(|(k, v)| (k.to_string(), v.to_string()))
        .collect()
}

const HASH: &str = "sha256:ABCDEF0123456789abcdef0123456789ABCDEF0123456789abcdef0123456789";
const HASH_LOWER: &str = "abcdef0123456789abcdef0123456789abcdef0123456789abcdef0123456789";

#[test]
fn logical_lines_join_continuations_and_drop_comments() {
    let content = "# header\nrequests>=2 \\\n  --hash=sha256:aa # trailing\n\nflask\n";
    let lines: Vec<String> = requirement_logical_lines(content, &Vec::new())
        .iter()
        .map(|l| text(l))
        .collect();
    assert_eq!(
        lines,
        vec!["requests>=2 --hash=sha256:aa".to_string(), "flask".to_string()]
    );
}

#[test]
fn environment_references_expand_when_set() {
    let env = vars(&[("INDEX", "https://pypi.example"), ("EMPTY", "")]);
    assert_eq!(
        text(&expand_requirement_env_variables(&chars("-i ${INDEX}/simple ${EMPTY} ${lower} ${UNSET} ${OPEN"), &env)),
        "-i https://pypi.example/simple ${EMPTY} ${lower} ${UNSET} ${OPEN"
    );
}

#[test]
fn comments_need_whitespace_before_the_hash() {
    assert_eq!(text(&strip_requirement_comment(&chars("pkg # note"))), "pkg ");
    assert_eq!(text(&strip_requirement_comment(&chars("pkg#egg"))), "pkg#egg");
    assert_eq!(text(&strip_requirement_comment(&chars("  # all"))), "");
    assert_eq!(text(&strip_requirement_comment(&chars("pkg \"# quoted\""))), "pkg \"# quoted\"");
}

#[test]
fn options_start_at_a_dash_after_whitespace() {
    assert_eq!(first_pip_option_start(&chars("pkg --hash=x")), Some(3));
    assert_eq!(first_pip_option_start(&chars("pkg-name>=1")), None);
    assert_eq!(first_pip_option_start(&chars("pkg \"--not\"")), None);
}

#[test]
fn shell_tokens_respect_quotes() {
    let tokens: Vec<String> = shell_like_tokens(&chars("--hash 'a b' \"c'd\"  e"))
        .iter()
        .map(|t| text(t))
        .collect();
    assert_eq!(tokens, vec!["--hash".to_string(), "a b".to_string(), "c'd".to_string(), "e".to_string()]);
}

#[test]
fn sha256_hashes_are_lowercased_and_checked() {
    assert_eq!(normalize_sha256_hash(&chars(HASH)).map(|h| text(&h)), Some(HASH_LOWER.to_string()));
    assert_eq!(normalize_sha256_hash(&chars("sha256:abc")), None);
    assert_eq!(normalize_sha256_hash(&chars("md5:abc")), None);
}

#[test]
fn requirement_lines_split_requirement_and_hashes() {
    let line = format!("requests==2.31.0 --hash={HASH} --hash {HASH} --hash=sha256:bad");
    let parsed = parse_requirement_line(&chars(&line));
    assert_eq!(parsed.requirement, "requests==2.31.0");
    assert_eq!(parsed.hashes, vec![HASH_LOWER.to_string()]);

    let parsed = parse_requirement_line(&chars("  flask  "));
    assert_eq!(parsed.requirement, "flask");
    assert!(parsed.hashes.is_empty());
}
