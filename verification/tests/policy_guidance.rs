use omc_registry::entry_source::Ecosystem;
use omc_registry::policy_guidance::{
    dsl_allow_clause, dsl_flow_sink, dsl_flow_src, finding_message, parse_block_finding,
    render_block_guidance,
};

fn chars(s: &str) -> Vec<char> {
    s.chars().collect()
}

fn text(v: &[char]) -> String {
    v.iter().collect()
}

#[test]
fn finding_prefixes_are_dropped() {
    assert_eq!(text(&finding_message(&chars("main[12]: capability eval not granted"))), "capability eval not granted");
    assert_eq!(text(&finding_message(&chars("no prefix"))), "no prefix");
}

#[test]
fn policy_clauses_quote_their_targets() {
    assert_eq!(dsl_allow_clause(&chars("env:HOME")).map(|v| text(&v)), Some("allow env \"HOME\"".to_string()));
    assert_eq!(dsl_allow_clause(&chars("fs-read:/etc/hosts")).map(|v| text(&v)), Some("allow read \"/etc/hosts\"".to_string()));
    assert_eq!(dsl_allow_clause(&chars("time.now")).map(|v| text(&v)), Some("allow time".to_string()));
    assert_eq!(dsl_allow_clause(&chars("weird:x")), None);
    assert_eq!(dsl_allow_clause(&chars("nocolon")), None);
    assert_eq!(dsl_flow_src(&chars("*")).map(|v| text(&v)), Some("any".to_string()));
    assert_eq!(dsl_flow_src(&chars("secret:KEY")).map(|v| text(&v)), Some("secret \"KEY\"".to_string()));
    assert_eq!(dsl_flow_sink(&chars("proc:sh")).map(|v| text(&v)), Some("spawn \"sh\"".to_string()));
    assert_eq!(dsl_flow_sink(&chars("dynamic_eval")).map(|v| text(&v)), Some("eval".to_string()));
    assert_eq!(dsl_flow_sink(&chars("env:X")), None);
}

#[test]
fn flows_become_flow_grants() {
    let need = parse_block_finding(&chars("check[3]: env:NPM_TOKEN may not flow to network:evil.com")).unwrap();
    assert_eq!(need.raw, "env:NPM_TOKEN may not flow to network:evil.com");
    assert_eq!(need.human, "send the value of environment variable NPM_TOKEN to the network host evil.com");
    assert_eq!(
        need.risk,
        Some("this is the shape used to exfiltrate credentials/data \u{2014} only allow it if you trust this package".to_string())
    );
    assert_eq!(need.cli_flag, "--allow-flow env:NPM_TOKEN->network:evil.com");
    assert_eq!(need.policy_stmt, "flow env \"NPM_TOKEN\" -> net \"evil.com\"");
    assert!(need.dangerous);
}

#[test]
fn capabilities_become_allow_grants() {
    let need = parse_block_finding(&chars("capability proc:npm-script:postinstall not granted")).unwrap();
    assert_eq!(need.human, "run the npm lifecycle script `postinstall` during install");
    assert_eq!(need.risk, Some("install-time / arbitrary code execution".to_string()));
    assert_eq!(need.cli_flag, "--allow proc:npm-script:postinstall");
    assert_eq!(need.policy_stmt, "allow spawn \"npm-script:postinstall\"");
    assert!(need.dangerous);

    let need = parse_block_finding(&chars("capability http:registry.npmjs.org not granted")).unwrap();
    assert_eq!(need.human, "make network requests to registry.npmjs.org");
    assert_eq!(need.risk, None);
    assert!(!need.dangerous);

    let need = parse_block_finding(&chars("capability eval not granted")).unwrap();
    assert_eq!(need.policy_stmt, "allow eval");
    assert!(need.dangerous);
}

#[test]
fn unknown_findings_have_no_grant() {
    assert!(parse_block_finding(&chars("capability weird:x not granted")).is_none());
    assert!(parse_block_finding(&chars("something else")).is_none());
    assert!(parse_block_finding(&chars("env:X may not flow to nowhere")).is_none());
}

#[test]
fn guidance_lists_needs_once_and_offers_grants() {
    let findings = vec![
        "f[1]: capability http:example.com not granted".to_string(),
        "f[2]: capability http:example.com not granted".to_string(),
        "f[3]: odd finding".to_string(),
        "f[4]: odd finding".to_string(),
    ];
    let expected = "  left-pad was blocked. It wants to:\n\
\u{20}     make network requests to example.com   (capability http:example.com not granted)\n\
\u{20}   ! odd finding\n\
\n\
\u{20} To allow it for THIS run only:\n\
\u{20}     omc add npm:left-pad@1.3.0 \\\n\
\u{20}       --allow http:example.com\n\
\n\
\u{20} To trust left-pad 1.3.0 everywhere (writes ~/.omc/policy.d/):\n\
\u{20}     omc trust npm:left-pad@1.3.0 --allow http:example.com\n\
\n\
\u{20} ...or add this version-pinned block to ./omc.policy (project) or\n\
\u{20} ~/.omc/policy.d/left-pad.omc.policy (personal, applies everywhere):\n\
\u{20}     npm package \"left-pad\" ==1.3.0 {\n\
\u{20}       allow net \"example.com\"\n\
\u{20}     }\n";
    assert_eq!(render_block_guidance(Ecosystem::Npm, "left-pad", "1.3.0", &findings), expected);
}

#[test]
fn guidance_without_known_grants_only_lists_findings() {
    let findings = vec!["odd".to_string()];
    assert_eq!(
        render_block_guidance(Ecosystem::Pypi, "x", "1.0", &findings),
        "  x was blocked. It wants to:\n    ! odd\n"
    );
}
