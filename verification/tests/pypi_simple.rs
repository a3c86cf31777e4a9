use omc_registry::pypi_simple::{
    html_attr, html_unescape, simple_index_anchors, simple_index_sha256_fragment,
    SimpleIndexAnchor,
};

const HEX: &str = "ABCDEF0123456789abcdef0123456789ABCDEF0123456789abcdef0123456789";

#[test]
fn attributes_are_read_quoted_or_bare() {
    let tag = r#"<a href="/x/y.whl#sha256=AB" data-requires-python="&gt;=3.8">"#;
    assert_eq!(html_attr(tag, "href").as_deref(), Some("/x/y.whl#sha256=AB"));
    assert_eq!(html_attr(tag, "data-requires-python").as_deref(), Some("&gt;=3.8"));
    assert_eq!(html_attr("<a HREF=foo.tgz >", "href").as_deref(), Some("foo.tgz"));
    assert_eq!(html_attr("<a href='x'>", "href").as_deref(), Some("x"));
    assert_eq!(html_attr("<a href=>", "href").as_deref(), Some(""));
    assert_eq!(html_attr(r#"<a href="open>"#, "href"), None);
    assert_eq!(html_attr("<a>", "href"), None);
}

#[test]
fn entities_are_replaced_in_turn() {
    assert_eq!(html_unescape("&lt;3.0,&gt;=2 &quot;q&quot; &#39;s&#39;"), "<3.0,>=2 \"q\" 's'");
    assert_eq!(html_unescape("a &amp;lt; b"), "a < b");
}

#[test]
fn fragments_name_sha256_hashes() {
    let lower = HEX.to_ascii_lowercase();
    assert_eq!(
        simple_index_sha256_fragment(&format!("sha256={HEX}")).as_deref(),
        Some(lower.as_str())
    );
    assert_eq!(
        simple_index_sha256_fragment(&format!("md5=abc&SHA256={HEX}")).as_deref(),
        Some(lower.as_str())
    );
    assert_eq!(simple_index_sha256_fragment("sha256=zz"), None);
    assert_eq!(simple_index_sha256_fragment(""), None);
}

#[test]
fn anchors_with_targets_are_listed_in_order() {
    let page = r#"<html><A HREF="pkg-1.0.tar.gz#sha256=AB" data-requires-python="&gt;=3.8">pkg</a>
<a name=x>no target</a>
<a href='pkg-2.0-py3-none-any.whl' data-upload-time="2024-01-01T00:00:00Z">pkg</a></html>"#;
    let anchors = simple_index_anchors(page);
    assert_eq!(
        anchors,
        vec![
            SimpleIndexAnchor {
                href: "pkg-1.0.tar.gz#sha256=AB".to_string(),
                requires_python: Some(">=3.8".to_string()),
                upload_time: None,
            },
            SimpleIndexAnchor {
                href: "pkg-2.0-py3-none-any.whl".to_string(),
                requires_python: None,
                upload_time: Some("2024-01-01T00:00:00Z".to_string()),
            },
        ]
    );
    assert!(simple_index_anchors("<a href=x").is_empty());
    assert!(simple_index_anchors("no links here").is_empty());
}
