use logseq_preprocessor::config::{Config, Stats};
use logseq_preprocessor::frontmatter::generate;
use logseq_preprocessor::favorites::{
    build_site_config, capitalize_first, extract_favorites, get_default_home, get_page_icon,
    get_site_title, slugify,
};
use logseq_preprocessor::journals::{
    create_journal_index_content, journal_frontmatter, parse_journal_date,
};
use logseq_preprocessor::links::find_best_page_match;
use logseq_preprocessor::page::{extract_wikilinks, parse_page, prefix_name, Page};

fn create_page_with_aliases(name: &str, aliases: Vec<&str>) -> Page {
    Page {
        name: name.to_string(),
        name_lower: name.to_lowercase(),
        tags: vec![],
        properties: Vec::new(),
        content: String::new(),
        aliases: aliases.into_iter().map(|s| s.to_string()).collect(),
        namespace: None,
        modified: None,
        created: None,
    }
}

#[test]
fn test_extract_favorites_list() {
    let content = "{:favorites [\"test-page\" \"cv.land\"]}";
    let favs = extract_favorites(content);
    assert_eq!(favs, vec!["test-page".to_string(), "cv.land".to_string()]);
}

#[test]
fn test_extract_favorites_absent() {
    let favs = extract_favorites("{:meta/version 1}");
    assert!(favs.is_empty());
}

#[test]
fn test_slugify_spaces_and_dots() {
    assert_eq!(slugify("github projects"), "github-projects");
    assert_eq!(slugify("cv.land"), "cv.land");
    assert_eq!(slugify("A/B Test!"), "a-b-test");
}

#[test]
fn test_get_default_home_from_content() {
    let content = "\n{:meta/version 1\n :default-home {:page \"cyberia\"}}\n";
    assert_eq!(get_default_home(content), Some("cyberia".to_string()));
}

#[test]
fn test_get_default_home_skips_comment_lines() {
    let content = "\n{:meta/version 1\n ;; :default-home {:page \"commented\"}\n :default-home {:page \"actual\"}}\n";
    assert_eq!(
        get_default_home(content),
        Some("actual".to_string()),
        "Should skip commented lines"
    );
}

#[test]
fn test_get_site_title_falls_back_to_home() {
    let content = "\n{:default-home {:page \"my site\"}}\n";
    assert_eq!(get_site_title(content), Some("my site".to_string()));
}

#[test]
fn test_get_site_title_prefers_meta_title() {
    let content = ":meta/title \"Field Notes\"\n:default-home {:page \"start\"}\n";
    assert_eq!(get_site_title(content), Some("Field Notes".to_string()));
}

#[test]
fn test_build_site_config_capitalizes() {
    let content = "{:default-home {:page \"cyberia\"}}";
    let cfg = build_site_config(content);
    assert_eq!(cfg.page_title, "Cyberia");
    assert_eq!(cfg.home_page, "cyberia");
}

#[test]
fn test_build_site_config_fallbacks() {
    let cfg = build_site_config("{}");
    assert_eq!(cfg.home_page, "index");
    assert_eq!(cfg.page_title, "Index");
}

#[test]
fn test_capitalize_first_letter() {
    assert_eq!(capitalize_first("cyberia"), "Cyberia");
    assert_eq!(capitalize_first(""), "");
}

#[test]
fn test_get_page_icon_property() {
    let content = "- icon:: 🔵\n- body";
    assert_eq!(get_page_icon(content), Some("🔵".to_string()));
}

#[test]
fn test_get_page_icon_field() {
    let content = "---\ntitle: Test\nicon: \"🔵\"\n---\nContent";
    assert_eq!(get_page_icon(content), Some("🔵".to_string()));
}

#[test]
fn test_parse_journal_date_underscores() {
    let parsed = parse_journal_date("2024_08_16");
    assert_eq!(
        parsed,
        Some(("2024-08-16".to_string(), "August 16, 2024".to_string()))
    );
}

#[test]
fn test_parse_journal_date_dashes() {
    let parsed = parse_journal_date("2025-01-05");
    assert_eq!(
        parsed,
        Some(("2025-01-05".to_string(), "January 5, 2025".to_string()))
    );
}

#[test]
fn test_parse_journal_date_rejects_bad_month() {
    assert_eq!(parse_journal_date("2024_13_01"), None);
    assert_eq!(parse_journal_date("notadate10"), None);
}

#[test]
fn test_journal_frontmatter_fields() {
    let mut props: Vec<(String, String)> = Vec::new();
    props.push(("tags".to_string(), "[[daily]], log".to_string()));
    let fm = journal_frontmatter("January 15, 2025", "2025-01-15", &props);
    assert!(fm.contains("title: \"January 15, 2025\""), "got: {}", fm);
    assert!(fm.contains("date: 2025-01-15"), "got: {}", fm);
    assert!(fm.contains("  - daily"), "got: {}", fm);
    assert!(fm.contains("  - log"), "got: {}", fm);
}

#[test]
fn test_journal_index_embeds_and_sorts_descending() {
    let entries = vec![
        ("2025-01-01".to_string(), "January 1, 2025".to_string()),
        ("2025-01-15".to_string(), "January 15, 2025".to_string()),
        ("2025-01-31".to_string(), "January 31, 2025".to_string()),
    ];
    let index_content = create_journal_index_content(&entries);
    assert!(
        index_content.contains("![[journals/2025-01-15]]"),
        "Index should embed journal content, got: {}",
        index_content
    );
    assert!(
        index_content.contains("## [[journals/2025-01-15"),
        "Index should have heading link, got: {}",
        index_content
    );
    let pos_31 = index_content.find("2025-01-31").unwrap();
    let pos_15 = index_content.find("2025-01-15").unwrap();
    let pos_01 = index_content.find("2025-01-01").unwrap();
    assert!(pos_31 < pos_15, "Latest date should come first");
    assert!(pos_15 < pos_01, "Dates should be in descending order");
}

#[test]
fn test_resolver_returns_own_name_unchanged() {
    let index = vec![
        create_page_with_aliases("Cyber Valley", vec!["CV"]),
        create_page_with_aliases("cv", vec![]),
    ];
    assert_eq!(find_best_page_match("Cyber Valley", &index), "Cyber Valley");
    assert_eq!(find_best_page_match("cv", &index), "cv");
}

#[test]
fn test_resolver_unmatched_link_unchanged() {
    let index = vec![create_page_with_aliases("anything", vec![])];
    assert_eq!(find_best_page_match("no such page", &index), "no such page");
}

#[test]
fn test_extract_wikilinks_dedup_lowercase() {
    let content = "see [[Alpha]] and [[alpha]] and [[Beta|shown]] but not [[https://x]] or [[#anchor]]";
    let links = extract_wikilinks(content);
    assert_eq!(links, vec!["alpha".to_string(), "beta".to_string()]);
}

#[test]
fn test_prefix_name_keeps_fields() {
    let page = parse_page("2025-01-15", "- a note", None, None);
    let renamed = prefix_name(page, "journals/");
    assert_eq!(renamed.name, "journals/2025-01-15");
    assert_eq!(renamed.name_lower, "journals/2025-01-15");
    assert_eq!(renamed.content, "- a note");
}

#[test]
fn test_config_defaults() {
    let c = Config::default();
    assert_eq!(c.input_dir, ".");
    assert_eq!(c.output_dir, "quartz-content");
    assert!(!c.include_private);
    assert!(c.create_stubs);
    assert!(!c.verbose);
    assert_eq!(c.home_override, None);

    let s = Stats::default();
    assert_eq!(s.pages_published, 0);
    assert_eq!(s.stubs_created, 0);
}

#[test]
fn test_frontmatter_generate_end_to_end() {
    let mut props: Vec<(String, String)> = Vec::new();
    props.push(("title".to_string(), "Home".to_string()));
    props.push(("description".to_string(), "the start".to_string()));
    let fm = generate("home", &props, Some(("2025-01-01", "2024-06-01")));
    assert!(fm.starts_with("---\n"), "got: {}", fm);
    assert!(fm.ends_with("---\n"), "got: {}", fm);
    assert!(fm.contains("description: \"the start\""), "got: {}", fm);
}
