use logseq_preprocessor::content::transform;
use logseq_preprocessor::page::Page;

fn empty_index() -> Vec<Page> {
    Vec::new()
}

fn create_page(name: &str) -> Page {
    create_page_with_aliases(name, vec![])
}

fn create_page_with_aliases(name: &str, aliases: Vec<&str>) -> Page {
    Page {
        name: name.to_string(),
        name_lower: name.to_lowercase(),
        tags: vec![],
        properties: Vec::new(),
        content: String::new(),
        aliases: aliases.into_iter().map(|s| s.to_string()).collect(),
        namespace: None,
        modified: None,
        created: None,
    }
}

#[test]
fn test_wikilink_preserved() {
    let input = "Check out [[devops]] for more info.";
    let result = transform(input, &empty_index());
    assert!(
        result.contains("[[devops]]"),
        "Wikilinks should be preserved (pages are at content root), got: {}",
        result
    );
}

#[test]
fn test_wikilink_namespace_preserved() {
    let input = "See [[terrabyte/garden]] for details.";
    let result = transform(input, &empty_index());
    assert!(
        result.contains("[[terrabyte/garden]]"),
        "Namespace pages should be preserved, got: {}",
        result
    );
}

#[test]
fn test_wikilink_strips_pages_prefix() {
    let input = "See [[pages/cyber]] for details.";
    let result = transform(input, &empty_index());
    assert!(
        result.contains("[[cyber]]"),
        "Should strip pages/ prefix (pages are at content root), got: {}",
        result
    );
}

#[test]
fn test_wikilink_preserves_journals_prefix() {
    let input = "See [[journals/2025-01-01]] for details.";
    let result = transform(input, &empty_index());
    assert!(
        result.contains("[[journals/2025-01-01]]"),
        "Should preserve journals/ prefix, got: {}",
        result
    );
}

#[test]
fn test_wikilink_with_alias() {
    let input = "Check [[devops|DevOps Guide]] here.";
    let result = transform(input, &empty_index());
    assert!(
        result.contains("[[devops|DevOps Guide]]"),
        "Should preserve alias, got: {}",
        result
    );
}

#[test]
fn test_embed_converted() {
    let input = "{{embed [[intro]]}}";
    let result = transform(input, &empty_index());
    assert!(
        result.contains("![[intro]]"),
        "Embed should convert to ![[]] syntax, got: {}",
        result
    );
}

#[test]
fn test_http_links_unchanged() {
    let input = "Visit [[https://example.com]] for info.";
    let result = transform(input, &empty_index());
    assert!(
        result.contains("[[https://example.com]]"),
        "HTTP links should be unchanged, got: {}",
        result
    );
}

#[test]
fn test_anchor_links_unchanged() {
    let input = "See [[#section]] below.";
    let result = transform(input, &empty_index());
    assert!(
        result.contains("[[#section]]"),
        "Anchor links should be unchanged, got: {}",
        result
    );
}

#[test]
fn test_task_markers_converted() {
    let input = "- TODO Buy groceries\n- DONE Clean room";
    let result = transform(input, &empty_index());
    assert!(result.contains("- [ ] Buy groceries"), "TODO should convert to [ ]");
    assert!(result.contains("- [x] Clean room"), "DONE should convert to [x]");
}

#[test]
fn test_dollar_tokens_escaped() {
    let input = "Token price: $ETH is rising.";
    let result = transform(input, &empty_index());
    assert!(
        result.contains("\\$ETH"),
        "Dollar tokens should be escaped, got: {}",
        result
    );
}

#[test]
fn test_cloze_converted_to_highlight() {
    let input = "The answer is {{cloze 42}}.";
    let result = transform(input, &empty_index());
    assert!(
        result.contains("==42=="),
        "Cloze should convert to highlight, got: {}",
        result
    );
}

#[test]
fn test_block_reference_converted() {
    let input = "See ((a1b2c3d4-e5f6-7890-abcd-ef1234567890)).";
    let result = transform(input, &empty_index());
    assert!(
        result.contains("[→ block](#^a1b2c3d4-e5f6-7890-abcd-ef1234567890)"),
        "Block ref should convert, got: {}",
        result
    );
}

#[test]
fn test_hiccup_converts_to_html() {
    let input = r#"- [:div [:h2 "brain state 📊"][:ul [:li "pages: 1,299"][:li "words: 33,951"]][:h3 "Text"][:ul [:li "Blocks: 4,809"]]]"#;
    let result = transform(input, &empty_index());
    assert!(
        result.contains("<h2>brain state 📊</h2>"),
        "Should convert h2 to HTML, got: {}",
        result
    );
    assert!(
        result.contains("<h3>Text</h3>"),
        "Should convert h3 to HTML, got: {}",
        result
    );
    assert!(
        result.contains("<li>pages: 1,299</li>"),
        "Should convert list items to HTML, got: {}",
        result
    );
}

#[test]
fn test_hiccup_simple_list() {
    let input = "[:ul [:li \"item 1\"][:li \"item 2\"]]";
    let result = transform(input, &empty_index());
    assert!(
        result.contains("<li>item 1</li>"),
        "Should convert list to HTML, got: {}",
        result
    );
    assert!(
        result.contains("<li>item 2</li>"),
        "Should convert list to HTML, got: {}",
        result
    );
}

#[test]
fn test_table_with_malformed_separator_fewer_columns() {
    let input = "- | Col1 | Col2 | Col3 | Col4 | Col5 |\n  | ---- | ---- |\n  | val1 | val2 | val3 | val4 | val5 |";
    let result = transform(input, &empty_index());
    assert!(
        result.contains("|---|---|---|---|---|"),
        "Should generate correct 5-column separator, got: {}",
        result
    );
    assert!(
        !result.contains("| ---- | ---- |"),
        "Should remove malformed 2-column separator, got: {}",
        result
    );
}

#[test]
fn test_table_with_correct_separator_unchanged() {
    let input = "- | Col1 | Col2 | Col3 |\n  |------|------|------|\n  | val1 | val2 | val3 |";
    let result = transform(input, &empty_index());
    assert!(
        result.contains("|------|------|------|"),
        "Should preserve correct separator, got: {}",
        result
    );
}

#[test]
fn test_table_9_columns_with_3_column_separator() {
    let input = "- | Aspect | No | Parameters | Col4 | Col5 | Col6 | Col7 | Col8 | Col9 |\n  | ---- | ---- | ---- |\n  | Heavy Metals | 1 | Lead (Pb) | 29.318 | 29.328 | 29.032 | 28.365 | 31.165 | 30.454 |";
    let result = transform(input, &empty_index());
    assert!(
        result.contains("|---|---|---|---|---|---|---|---|---|"),
        "Should generate correct 9-column separator, got: {}",
        result
    );
    assert!(
        result.contains("| Heavy Metals | 1 | Lead (Pb) |"),
        "Should preserve data rows, got: {}",
        result
    );
}

#[test]
fn test_pdf_image_syntax_converted_to_iframe() {
    let input = "- ![document.pdf](../assets/document.pdf)";
    let result = transform(input, &empty_index());
    assert!(
        result.contains(r#"<iframe src="../assets/document.pdf" width="100%" height="600px"#),
        "PDF image syntax should convert to iframe, got: {}",
        result
    );
    assert!(
        !result.contains("![document.pdf]"),
        "Should not contain original image syntax, got: {}",
        result
    );
}

#[test]
fn test_pdf_image_syntax_with_empty_alt() {
    let input = "- ![](../assets/report.pdf)";
    let result = transform(input, &empty_index());
    assert!(
        result.contains(r#"<iframe src="../assets/report.pdf" width="100%" height="600px"#),
        "PDF with empty alt should convert to iframe, got: {}",
        result
    );
}

#[test]
fn test_pdf_logseq_syntax_still_works() {
    let input = "- {{pdf ../assets/document.pdf}}";
    let result = transform(input, &empty_index());
    assert!(
        result.contains(r#"<iframe src="../assets/document.pdf" width="100%" height="600px"#),
        "{{pdf}} syntax should convert to iframe, got: {}",
        result
    );
}

#[test]
fn test_regular_image_not_converted_to_iframe() {
    let input = "- ![photo.png](../assets/photo.png)";
    let result = transform(input, &empty_index());
    assert!(
        result.contains("![photo.png](../assets/photo.png)"),
        "Regular images should remain unchanged, got: {}",
        result
    );
    assert!(
        !result.contains("<iframe"),
        "Regular images should not become iframes, got: {}",
        result
    );
}

#[test]
fn test_wikilink_prefix_match_visit_us_to_visit() {
    let page_index = vec![create_page("visit"), create_page("other page")];
    let input = "- Check out [[visit us]] for info";
    let result = transform(input, &page_index);
    assert!(
        result.contains("[[visit|visit us]]"),
        "Should rewrite [[visit us]] to [[visit|visit us]], got: {}",
        result
    );
}

#[test]
fn test_wikilink_exact_match_not_rewritten() {
    let page_index = vec![create_page("visit"), create_page("visit us")];
    let input = "- Check out [[visit us]] for info";
    let result = transform(input, &page_index);
    assert!(
        result.contains("[[visit us]]"),
        "Exact match should not be rewritten, got: {}",
        result
    );
    assert!(
        !result.contains("[[visit|visit us]]"),
        "Should not add alias for exact match, got: {}",
        result
    );
}

#[test]
fn test_wikilink_prefix_match_preserves_existing_alias() {
    let page_index = vec![create_page("visit")];
    let input = "- Check out [[visit us|come see us]] for info";
    let result = transform(input, &page_index);
    assert!(
        result.contains("[[visit|come see us]]"),
        "Should preserve existing alias when rewriting link, got: {}",
        result
    );
}

#[test]
fn test_wikilink_prefix_match_longest_wins() {
    let page_index = vec![
        create_page("cyber"),
        create_page("cyber valley"),
        create_page("other"),
    ];
    let input = "- Visit [[cyber valley estate]] today";
    let result = transform(input, &page_index);
    assert!(
        result.contains("[[cyber valley|cyber valley estate]]"),
        "Should match longest prefix 'cyber valley', got: {}",
        result
    );
}

#[test]
fn test_wikilink_no_match_unchanged() {
    let page_index = vec![create_page("other"), create_page("something")];
    let input = "- Check out [[completely different]] for info";
    let result = transform(input, &page_index);
    assert!(
        result.contains("[[completely different]]"),
        "Non-matching link should remain unchanged, got: {}",
        result
    );
}

#[test]
fn test_wikilink_prefix_match_case_insensitive() {
    let page_index = vec![create_page("Visit")];
    let input = "- Check out [[visit us]] for info";
    let result = transform(input, &page_index);
    assert!(
        result.contains("[[Visit|visit us]]"),
        "Prefix matching should be case-insensitive, got: {}",
        result
    );
}

#[test]
fn test_markdown_link_with_wikilink_url() {
    let input = "- Check out [our tasks]([[Tasks]]) for examples";
    let result = transform(input, &empty_index());
    assert!(
        result.contains("[our tasks](Tasks)"),
        "Markdown link with wikilink URL should be converted, got: {}",
        result
    );
    assert!(
        !result.contains("[[Tasks]]"),
        "Should not contain wikilink syntax in URL, got: {}",
        result
    );
}

#[test]
fn test_alias_exact_match() {
    let page_index = vec![
        create_page_with_aliases("cyber valley/districts", vec!["cv/districts"]),
        create_page("other page"),
    ];
    let input = "- Discover [[cv/districts]] here";
    let result = transform(input, &page_index);
    assert!(
        result.contains("[[cyber valley/districts|cv/districts]]"),
        "Should resolve alias to page name, got: {}",
        result
    );
}

#[test]
fn test_alias_simple_match() {
    let page_index = vec![
        create_page_with_aliases("cyber valley", vec!["cv", "about"]),
        create_page("other"),
    ];
    let input = "- Visit [[cv]] today";
    let result = transform(input, &page_index);
    assert!(
        result.contains("[[cyber valley|cv]]"),
        "Should resolve alias 'cv' to 'cyber valley', got: {}",
        result
    );
}

#[test]
fn test_namespace_alias_expansion() {
    let page_index = vec![
        create_page_with_aliases("cyber valley", vec!["cv"]),
        create_page("cyber valley/districts"),
    ];
    let input = "- Discover [[cv/districts]] here";
    let result = transform(input, &page_index);
    assert!(
        result.contains("[[cyber valley/districts|cv/districts]]"),
        "Should expand namespace alias, got: {}",
        result
    );
}

#[test]
fn test_alias_does_not_override_exact_page() {
    let page_index = vec![
        create_page("cv"),
        create_page_with_aliases("cyber valley", vec!["cv"]),
    ];
    let input = "- Visit [[cv]] today";
    let result = transform(input, &page_index);
    assert!(
        result.contains("[[cv]]"),
        "Exact page match should take priority over alias, got: {}",
        result
    );
    assert!(
        !result.contains("[[cyber valley|cv]]"),
        "Should not rewrite when exact page exists, got: {}",
        result
    );
}

#[test]
fn test_multiple_aliases() {
    let page_index = vec![create_page_with_aliases("visit", vec!["residency", "come visit"])];

    let input1 = "- Check [[residency]] options";
    let result1 = transform(input1, &page_index);
    assert!(
        result1.contains("[[visit|residency]]"),
        "Should resolve first alias, got: {}",
        result1
    );

    let input2 = "- Please [[come visit]] us";
    let result2 = transform(input2, &page_index);
    assert!(
        result2.contains("[[visit|come visit]]"),
        "Should resolve second alias, got: {}",
        result2
    );
}

#[test]
fn test_alias_case_insensitive() {
    let page_index = vec![create_page_with_aliases("Cyber Valley", vec!["CV"])];
    let input = "- Visit [[cv]] today";
    let result = transform(input, &page_index);
    assert!(
        result.contains("[[Cyber Valley|cv]]"),
        "Alias matching should be case-insensitive, got: {}",
        result
    );
}

#[test]
fn test_dollar_currency_escaped() {
    let input = "- The price is $100 USD";
    let result = transform(input, &empty_index());
    assert!(
        result.contains("\\$100"),
        "Currency $100 should be escaped, got: {}",
        result
    );
}

#[test]
fn test_dollar_currency_with_comma_escaped() {
    let input = "- Budget: $50,000";
    let result = transform(input, &empty_index());
    assert!(
        result.contains("\\$50,000"),
        "Currency $50,000 should be escaped, got: {}",
        result
    );
}

#[test]
fn test_dollar_currency_with_decimal_escaped() {
    let input = "- Price: $19.99";
    let result = transform(input, &empty_index());
    assert!(
        result.contains("\\$19.99"),
        "Currency $19.99 should be escaped, got: {}",
        result
    );
}

#[test]
fn test_dollar_currency_with_suffix_escaped() {
    let input = "- Cost: $10k to $7M";
    let result = transform(input, &empty_index());
    assert!(
        result.contains("\\$10k") && result.contains("\\$7M"),
        "Currency with suffix should be escaped, got: {}",
        result
    );
}

#[test]
fn test_math_mode_not_escaped() {
    let input = "- Inline math: $x^2 + y^2 = z^2$";
    let result = transform(input, &empty_index());
    assert!(
        result.contains("$x^2"),
        "Math mode should be preserved, got: {}",
        result
    );
}

#[test]
fn test_wikilink_dollar_not_escaped() {
    let input = "- [[$BOOT]] is the token and [[$V]] is will";
    let result = transform(input, &empty_index());
    assert!(
        result.contains("[[$BOOT]]") && result.contains("[[$V]]"),
        "Dollar signs in wikilinks should NOT be escaped, got: {}",
        result
    );
}

#[test]
fn test_dollar_token_outside_wikilink_escaped() {
    let input = "- Use $BOOT for staking, see [[$BOOT]] for details";
    let result = transform(input, &empty_index());
    assert!(
        result.contains("\\$BOOT for staking") && result.contains("[[$BOOT]]"),
        "Dollar in text escaped, in wikilink not, got: {}",
        result
    );
}

#[test]
fn test_embed_wikilink_dollar_not_escaped() {
    let input = "- ![[Finalization of $BOOT distribution]]";
    let result = transform(input, &empty_index());
    assert!(
        result.contains("$BOOT"),
        "Dollar signs in embed wikilinks should NOT be escaped, got: {}",
        result
    );
}

#[test]
fn test_priority_markers_converted() {
    let input = "- TODO [#A] urgent work\n- TODO [#B] soon\n- TODO [#C] later";
    let result = transform(input, &empty_index());
    assert!(result.contains("🔴"), "Priority A should become a red circle, got: {}", result);
    assert!(result.contains("🟡"), "Priority B should become a yellow circle, got: {}", result);
    assert!(result.contains("🟢"), "Priority C should become a green circle, got: {}", result);
}

#[test]
fn test_scheduled_and_deadline_converted() {
    let input = "- TODO pay rent\n  SCHEDULED: <2025-02-01 Sat>\n  DEADLINE: <2025-02-03 Mon>";
    let result = transform(input, &empty_index());
    assert!(
        result.contains("📅 Scheduled: 2025-02-01 Sat"),
        "Scheduled stamp should become prose, got: {}",
        result
    );
    assert!(
        result.contains("⏰ Deadline: 2025-02-03 Mon"),
        "Deadline stamp should become prose, got: {}",
        result
    );
}

#[test]
fn test_system_properties_removed() {
    let input = "- collapsed:: true\n- real content";
    let result = transform(input, &empty_index());
    assert!(
        !result.contains("collapsed"),
        "Bookkeeping properties should be removed, got: {}",
        result
    );
    assert!(result.contains("real content"));
}

#[test]
fn test_logbook_lines_removed() {
    let input = "- worked\n  :LOGBOOK:\n  CLOCK: [2024-01-01 Mon 10:00]\n  :END:\n- next";
    let result = transform(input, &empty_index());
    assert!(!result.contains(":LOGBOOK:"), "Log fences should be removed, got: {}", result);
    assert!(!result.contains("CLOCK:"), "Clock entries should be removed, got: {}", result);
    assert!(!result.contains(":END:"), "Log fences should be removed, got: {}", result);
}

#[test]
fn test_user_properties_become_bullets() {
    let input = "- page-type:: guide";
    let result = transform(input, &empty_index());
    assert!(
        result.contains("- **Page Type:** guide"),
        "A property line should become a bold-titled bullet, got: {}",
        result
    );
}

#[test]
fn test_user_property_conversion_idempotent() {
    let input = "- **Page Type:** guide\nplain prose";
    let result = transform(input, &empty_index());
    assert_eq!(
        result, input,
        "Converted text with no remaining property lines should pass through unchanged"
    );
}

#[test]
fn test_renderer_directive_inert() {
    let input = "- {{renderer :wordcount}}";
    let result = transform(input, &empty_index());
    assert!(
        result.contains("`[renderer]`"),
        "Renderer directives should become an inert code span, got: {}",
        result
    );
}

#[test]
fn test_block_embed_placeholder() {
    let input = "{{embed ((a1b2c3d4-e5f6-7890-abcd-ef1234567890))}}";
    let result = transform(input, &empty_index());
    assert!(
        result.contains("*Block embed - view in Logseq*"),
        "Block embeds should become placeholder prose, got: {}",
        result
    );
}

#[test]
fn test_image_size_annotation_removed() {
    let input = "- ![photo.png](../assets/photo.png){:height 200, :width 300}";
    let result = transform(input, &empty_index());
    assert!(
        !result.contains(":height"),
        "Image size annotations should be stripped, got: {}",
        result
    );
}

#[test]
fn test_empty_bullets_removed() {
    let input = "- one\n- \n- two";
    let result = transform(input, &empty_index());
    assert!(result.contains("- one"));
    assert!(result.contains("- two"));
    assert!(
        !result.contains("- \n"),
        "Empty bullet lines should be blanked, got: {}",
        result
    );
}

#[test]
fn test_youtube_embed_converted() {
    let input = "{{youtube https://example.com/v/abc}}";
    let result = transform(input, &empty_index());
    assert!(
        result.contains("![https://example.com/v/abc](https://example.com/v/abc)"),
        "Media embeds should become image-link syntax, got: {}",
        result
    );
}

#[test]
fn test_end_to_end_examples() {
    let index = empty_index();
    let tasks = transform("- TODO Buy milk", &index);
    assert!(tasks.contains("- [ ] Buy milk"), "got: {}", tasks);

    let cloze = transform("{{cloze 42}}", &index);
    assert!(cloze.contains("==42=="), "got: {}", cloze);

    let blockref = transform("((a1b2c3d4-e5f6-7890-abcd-ef1234567890))", &index);
    assert!(
        blockref.contains("[→ block](#^a1b2c3d4-e5f6-7890-abcd-ef1234567890)"),
        "got: {}",
        blockref
    );
}
