use logseq_preprocessor::frontmatter;
use logseq_preprocessor::page::{parse_page, parse_properties, props_get};

#[test]
fn test_parse_simple_property() {
    let content = "title:: My Page\n- Content here";
    let (props, remaining) = parse_properties(content);
    assert_eq!(props_get(&props, "title"), Some("My Page".to_string()));
    assert!(remaining.contains("Content here"));
}

#[test]
fn test_parse_multiple_properties() {
    let content = "title:: Test\ntags:: foo, bar\nicon:: 🔵\n\n- Content";
    let (props, _) = parse_properties(content);
    assert_eq!(props_get(&props, "title"), Some("Test".to_string()));
    assert_eq!(props_get(&props, "tags"), Some("foo, bar".to_string()));
    assert_eq!(props_get(&props, "icon"), Some("🔵".to_string()));
}

#[test]
fn test_parse_property_with_list_marker() {
    let content = "- title:: My Page\n- Content";
    let (props, _) = parse_properties(content);
    assert_eq!(props_get(&props, "title"), Some("My Page".to_string()));
}

#[test]
fn test_frontmatter_with_icon() {
    let mut props: Vec<(String, String)> = Vec::new();
    props.push(("icon".to_string(), "🔵".to_string()));
    props.push(("title".to_string(), "Test Page".to_string()));

    let fm = frontmatter::generate("test", &props, None);
    assert!(fm.contains("title: \"🔵 Test Page\""));
    assert!(fm.contains("icon: \"🔵\""));
}

#[test]
fn test_frontmatter_with_tags() {
    let mut props: Vec<(String, String)> = Vec::new();
    props.push(("tags".to_string(), "foo, bar, baz".to_string()));

    let fm = frontmatter::generate("test", &props, None);
    assert!(fm.contains("tags:"));
    assert!(fm.contains("  - foo"));
    assert!(fm.contains("  - bar"));
    assert!(fm.contains("  - baz"));
}

#[test]
fn test_frontmatter_with_dates() {
    let props: Vec<(String, String)> = Vec::new();
    let fm = frontmatter::generate("test", &props, Some(("2025-01-01", "2024-01-01")));
    assert!(fm.contains("modified: 2025-01-01"));
    assert!(fm.contains("created: 2024-01-01"));
}

#[test]
fn test_frontmatter_escapes_quotes() {
    let mut props: Vec<(String, String)> = Vec::new();
    props.push(("title".to_string(), "Test \"quoted\" page".to_string()));

    let fm = frontmatter::generate("test", &props, None);
    assert!(fm.contains("Test \\\"quoted\\\" page"));
}

#[test]
fn test_frontmatter_with_aliases() {
    let mut props: Vec<(String, String)> = Vec::new();
    props.push(("alias".to_string(), "cv, [[about, us]]".to_string()));

    let fm = frontmatter::generate("test", &props, None);
    assert!(fm.contains("aliases:"), "got: {}", fm);
    assert!(fm.contains("  - cv"), "got: {}", fm);
    assert!(
        fm.contains("  - about, us"),
        "A comma inside a bracket link must not split the alias, got: {}",
        fm
    );
}

#[test]
fn test_frontmatter_title_from_filename() {
    let props: Vec<(String, String)> = Vec::new();
    let fm = frontmatter::generate("my_page", &props, None);
    assert!(
        fm.contains("title: \"my page\""),
        "Underscores in the filename become spaces in the title, got: {}",
        fm
    );
}

#[test]
fn test_parse_page_namespace() {
    let page = parse_page("garden___roses", "body text", None, None);
    assert_eq!(page.name, "garden/roses");
    assert_eq!(page.namespace, Some("garden".to_string()));
    assert_eq!(page.name_lower, "garden/roses");
}

#[test]
fn test_parse_page_tags_and_aliases() {
    let content = "tags:: [[Rust]], Proofs\nalias:: rs, verified\n- body with #extra tag";
    let page = parse_page("sample", content, None, None);
    assert_eq!(page.tags, vec!["rust".to_string(), "proofs".to_string(), "extra".to_string()]);
    assert_eq!(page.aliases, vec!["rs".to_string(), "verified".to_string()]);
}

#[test]
fn test_parse_properties_block_ends_at_body() {
    let content = "a:: 1\n\nb:: 2\nplain line\nc:: 3";
    let (props, remaining) = parse_properties(content);
    assert_eq!(props_get(&props, "a"), Some("1".to_string()));
    assert_eq!(props_get(&props, "b"), Some("2".to_string()));
    assert_eq!(props_get(&props, "c"), None, "Properties after the body must not be collected");
    assert!(remaining.contains("plain line"));
}

#[test]
fn test_parse_properties_duplicate_key_last_wins() {
    let content = "title:: First\ntitle:: Second\n- body";
    let (props, _) = parse_properties(content);
    assert_eq!(props_get(&props, "title"), Some("Second".to_string()));
}
