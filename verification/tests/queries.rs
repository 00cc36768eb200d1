use logseq_preprocessor::page::Page;
use logseq_preprocessor::content::process_queries_with_options;
use logseq_preprocessor::query::{
    execute, get_all_tags, parse_query_options, parse_query_parts, results_to_markdown,
    results_to_markdown_with_options, QueryOptions,
};

fn create_test_page(name: &str, tags: Vec<&str>) -> Page {
    Page {
        name: name.to_string(),
        name_lower: name.to_lowercase(),
        content: String::new(),
        properties: Vec::new(),
        tags: tags.into_iter().map(|s| s.to_string()).collect(),
        aliases: vec![],
        namespace: None,
        modified: None,
        created: None,
    }
}

fn page_with_content(name: &str, content: &str) -> Page {
    let mut p = create_test_page(name, vec![]);
    p.content = content.to_string();
    p
}

#[test]
fn test_query_page_tags() {
    let pages = vec![
        create_test_page("page1", vec!["rust", "programming"]),
        create_test_page("page2", vec!["rust"]),
        create_test_page("page3", vec!["python"]),
    ];

    let results = execute("{{query (page-tags [[rust]])}}", &pages);
    assert_eq!(results.len(), 2);
}

#[test]
fn test_query_page_tags_strips_pages_prefix() {
    let pages = vec![create_test_page("page1", vec!["rust"])];

    let results = execute("{{query (page-tags [[pages/rust]])}}", &pages);
    assert_eq!(results.len(), 1, "Should strip pages/ prefix from query");
}

#[test]
fn test_query_and() {
    let pages = vec![
        create_test_page("page1", vec!["rust", "programming"]),
        create_test_page("page2", vec!["rust"]),
    ];

    let results = execute(
        "{{query (and (page-tags [[rust]]) (page-tags [[programming]]))}}",
        &pages,
    );
    assert_eq!(results.len(), 1);
    assert_eq!(pages[results[0]].name, "page1");
}

#[test]
fn test_query_results_default_table() {
    let pages = vec![create_test_page("my-page", vec!["test"])];

    let results = execute("{{query (page-tags [[test]])}}", &pages);
    let markdown =
        results_to_markdown_with_options(&pages, &results, "test query", &QueryOptions::default());

    assert!(
        markdown.contains("| Page |"),
        "Default should be table view, got: {}",
        markdown
    );
    assert!(
        markdown.contains("[[my-page]]"),
        "Table should contain page link, got: {}",
        markdown
    );
}

#[test]
fn test_query_results_explicit_list() {
    let pages = vec![create_test_page("my-page", vec!["test"])];

    let results = execute("{{query (page-tags [[test]])}}", &pages);
    let opts = QueryOptions { table: Some(false), ..Default::default() };
    let markdown = results_to_markdown_with_options(&pages, &results, "test query", &opts);

    assert!(
        markdown.contains("- [[my-page|my-page]]"),
        "Should render as list when table=false, got: {}",
        markdown
    );
}

#[test]
fn test_query_nested_and() {
    let pages = vec![
        create_test_page("page1", vec!["genus", "research"]),
        create_test_page("page2", vec!["genus", "class", "research"]),
        create_test_page("page3", vec!["genus"]),
        create_test_page("page4", vec!["genus", "research", "other"]),
    ];

    let results = execute(
        "{{query (and (page-tags [[genus]]) (not (page-tags [[class]])) (and (page-tags [[research]])))}}",
        &pages,
    );

    assert_eq!(results.len(), 2, "Should match pages with genus AND research but NOT class");
    let names: Vec<_> = results.iter().map(|k| &pages[*k].name).collect();
    assert!(names.contains(&&"page1".to_string()));
    assert!(names.contains(&&"page4".to_string()));
}

#[test]
fn test_query_multiple_nots() {
    let pages = vec![
        create_test_page("page1", vec!["genus"]),
        create_test_page("page2", vec!["genus", "class"]),
        create_test_page("page3", vec!["genus", "research"]),
        create_test_page("page4", vec!["genus", "prohibited"]),
        create_test_page("page5", vec!["genus", "allowed"]),
        create_test_page("page6", vec!["genus", "class", "research"]),
    ];

    let results = execute(
        "{{query (and (page-tags [[genus]]) (not (page-tags [[class]])) (not (page-tags [[research]])) (not (page-tags [[prohibited]])))}}",
        &pages,
    );

    assert_eq!(results.len(), 2, "Should match pages with genus but NOT class, research, or prohibited");
    let names: Vec<_> = results.iter().map(|k| &pages[*k].name).collect();
    assert!(names.contains(&&"page1".to_string()));
    assert!(names.contains(&&"page5".to_string()));
}

#[test]
fn test_query_complex_nested_or_and() {
    let pages = vec![
        create_test_page("page1", vec!["a", "b"]),
        create_test_page("page2", vec!["c", "d"]),
        create_test_page("page3", vec!["a"]),
        create_test_page("page4", vec!["a", "b", "c", "d"]),
    ];

    let results = execute(
        "{{query (or (and (page-tags [[a]]) (page-tags [[b]])) (and (page-tags [[c]]) (page-tags [[d]])))}}",
        &pages,
    );

    assert_eq!(results.len(), 3, "Should match pages with (a AND b) OR (c AND d)");
    let names: Vec<_> = results.iter().map(|k| &pages[*k].name).collect();
    assert!(names.contains(&&"page1".to_string()));
    assert!(names.contains(&&"page2".to_string()));
    assert!(names.contains(&&"page4".to_string()));
}

#[test]
fn test_query_with_extra_spaces() {
    let pages = vec![
        create_test_page("page1", vec!["genus", "prohibited"]),
        create_test_page("page2", vec!["genus", "class"]),
        create_test_page("page3", vec!["genus"]),
    ];

    let results = execute(
        "{{query (and (page-tags [[genus]]) (not (page-tags [[class]])) (and (page-tags [[prohibited]] )))}}",
        &pages,
    );

    assert_eq!(results.len(), 1, "Should match page with genus+prohibited but not class");
    assert_eq!(pages[results[0]].name, "page1");
}

#[test]
fn test_query_with_various_whitespace() {
    let pages = vec![
        create_test_page("page1", vec!["a", "b"]),
        create_test_page("page2", vec!["a"]),
    ];

    let results = execute("{{query (and   (page-tags [[a]])  (page-tags [[b]]) )}}", &pages);
    assert_eq!(results.len(), 1, "Should handle extra spaces after 'and'");
    assert_eq!(pages[results[0]].name, "page1");

    let results2 = execute("{{query (and (page-tags [[a]]) (not   (page-tags [[b]]) ))}}", &pages);
    assert_eq!(results2.len(), 1, "Should handle extra spaces after 'not'");
    assert_eq!(pages[results2[0]].name, "page2");
}

#[test]
fn test_query_page_name() {
    let pages = vec![
        create_test_page("Alpha", vec![]),
        create_test_page("beta", vec![]),
    ];
    let results = execute("{{query (page [[alpha]])}}", &pages);
    assert_eq!(results.len(), 1);
    assert_eq!(pages[results[0]].name, "Alpha");
}

#[test]
fn test_query_namespace() {
    let mut p1 = create_test_page("garden/roses", vec![]);
    p1.namespace = Some("garden".to_string());
    let p2 = create_test_page("other", vec![]);
    let pages = vec![p1, p2];
    let results = execute("{{query (namespace [[Garden]])}}", &pages);
    assert_eq!(results.len(), 1);
    assert_eq!(pages[results[0]].name, "garden/roses");
}

#[test]
fn test_query_property_value() {
    let mut p1 = create_test_page("one", vec![]);
    p1.properties.push(("status".to_string(), "Active".to_string()));
    let mut p2 = create_test_page("two", vec![]);
    p2.properties.push(("status".to_string(), "done".to_string()));
    let p3 = create_test_page("three", vec![]);
    let pages = vec![p1, p2, p3];

    let results = execute("{{query (property :status \"active\")}}", &pages);
    assert_eq!(results.len(), 1);
    assert_eq!(pages[results[0]].name, "one");

    let any = execute("{{query (property :status)}}", &pages);
    assert_eq!(any.len(), 2, "The bare property test keeps every page with a non-empty value");
}

#[test]
fn test_query_task_states() {
    let pages = vec![
        page_with_content("todo-page", "- TODO write"),
        page_with_content("done-page", "- DONE rest"),
        page_with_content("plain", "- nothing here"),
    ];
    let results = execute("{{query (task TODO DONE)}}", &pages);
    assert_eq!(results.len(), 2);
}

#[test]
fn test_query_priority_marker() {
    let pages = vec![
        page_with_content("hot", "- TODO [#A] now"),
        page_with_content("cold", "- TODO someday"),
    ];
    let results = execute("{{query (priority a)}}", &pages);
    assert_eq!(results.len(), 1);
    assert_eq!(pages[results[0]].name, "hot");
}

#[test]
fn test_query_between_dates() {
    let pages = vec![
        create_test_page("journals/2024-03-10", vec![]),
        create_test_page("journals/2024-06-01", vec![]),
        create_test_page("not-a-date", vec![]),
    ];
    let results = execute("{{query (between [[2024-03-01]] [[2024-03-31]])}}", &pages);
    assert_eq!(results.len(), 1);
    assert_eq!(pages[results[0]].name, "journals/2024-03-10");
}

#[test]
fn test_query_between_bad_date_is_empty() {
    let pages = vec![create_test_page("journals/2024-03-10", vec![])];
    let results = execute("{{query (between [[not-a-date]] [[2024-03-31]])}}", &pages);
    assert_eq!(results.len(), 0, "An unparsable endpoint yields no matches");
}

#[test]
fn test_query_bare_reference() {
    let pages = vec![
        create_test_page("topic", vec![]),
        page_with_content("mentions", "see [[topic]] again"),
        page_with_content("silent", "nothing"),
    ];
    let results = execute("{{query [[topic]]}}", &pages);
    assert_eq!(results.len(), 2);
}

#[test]
fn test_query_text_search() {
    let pages = vec![
        page_with_content("hit", "Deep VALUE inside"),
        page_with_content("miss", "other words"),
    ];
    let results = execute("{{query \"value\"}}", &pages);
    assert_eq!(results.len(), 1);
    assert_eq!(pages[results[0]].name, "hit");
}

#[test]
fn test_query_plain_text_too_short() {
    let pages = vec![page_with_content("hit", "ab appears")];
    let results = execute("{{query ab}}", &pages);
    assert_eq!(results.len(), 0, "A bare term of two characters or fewer finds nothing");
}

#[test]
fn test_query_unrecognized_is_empty() {
    let pages = vec![create_test_page("page1", vec![])];
    let results = execute("{{query (frobnicate [[x]])}}", &pages);
    assert_eq!(results.len(), 0, "An unrecognized expression yields no matches");
}

#[test]
fn test_query_empty_result_callout() {
    let pages: Vec<Page> = Vec::new();
    let results = execute("{{query (page-tags [[none]])}}", &pages);
    let markdown = results_to_markdown(&pages, &results, "my query");
    assert!(
        markdown.contains("> [!info] Query Results"),
        "Empty results render as a callout, got: {}",
        markdown
    );
    assert!(markdown.contains("`my query`"), "The callout quotes the query, got: {}", markdown);
}

#[test]
fn test_query_results_sorted_by_name() {
    let pages = vec![
        create_test_page("zeta", vec!["t"]),
        create_test_page("alpha", vec!["t"]),
    ];
    let results = execute("{{query (page-tags [[t]])}}", &pages);
    let markdown = results_to_markdown(&pages, &results, "q");
    let a = markdown.find("alpha").unwrap();
    let z = markdown.find("zeta").unwrap();
    assert!(a < z, "Default rendering sorts by name ascending, got: {}", markdown);
}

#[test]
fn test_query_sort_by_key_descending() {
    let mut p1 = create_test_page("one", vec!["t"]);
    p1.properties.push(("rank".to_string(), "1".to_string()));
    let mut p2 = create_test_page("two", vec!["t"]);
    p2.properties.push(("rank".to_string(), "2".to_string()));
    let pages = vec![p1, p2];
    let results = execute("{{query (page-tags [[t]])}}", &pages);
    let opts = QueryOptions {
        sort_by: Some("rank".to_string()),
        sort_desc: true,
        table: Some(false),
        ..Default::default()
    };
    let markdown = results_to_markdown_with_options(&pages, &results, "q", &opts);
    let one = markdown.find("[[one|").unwrap();
    let two = markdown.find("[[two|").unwrap();
    assert!(two < one, "Descending sort puts the higher key first, got: {}", markdown);
}

#[test]
fn test_query_explicit_columns() {
    let mut p = create_test_page("one", vec!["t"]);
    p.properties.push(("status".to_string(), "active".to_string()));
    let pages = vec![p];
    let results = execute("{{query (page-tags [[t]])}}", &pages);
    let opts = QueryOptions {
        properties: vec!["page".to_string(), "status".to_string()],
        ..Default::default()
    };
    let markdown = results_to_markdown_with_options(&pages, &results, "q", &opts);
    assert!(markdown.contains("| Page | Status |"), "got: {}", markdown);
    assert!(markdown.contains("| [[one]] | active |"), "got: {}", markdown);
}

#[test]
fn test_table_cell_pipes_escaped() {
    let mut p = create_test_page("one", vec!["t"]);
    p.properties.push(("note".to_string(), "a|b".to_string()));
    let pages = vec![p];
    let results = execute("{{query (page-tags [[t]])}}", &pages);
    let opts = QueryOptions {
        properties: vec!["page".to_string(), "note".to_string()],
        ..Default::default()
    };
    let markdown = results_to_markdown_with_options(&pages, &results, "q", &opts);
    assert!(
        markdown.contains("a&#124;b"),
        "A pipe in a cell value becomes an entity, got: {}",
        markdown
    );
}

#[test]
fn test_parse_query_options_all() {
    let ctx = "query-properties:: [:page, :status]\nquery-sort-by:: :created\nquery-sort-desc:: true\nquery-table:: false\n";
    let opts = parse_query_options(ctx);
    assert_eq!(opts.properties, vec!["page".to_string(), "status".to_string()]);
    assert_eq!(opts.sort_by, Some("created".to_string()));
    assert!(opts.sort_desc);
    assert_eq!(opts.table, Some(false));
}

#[test]
fn test_parse_query_options_defaults() {
    let opts = parse_query_options("no options here");
    assert!(opts.properties.is_empty());
    assert_eq!(opts.sort_by, None);
    assert!(!opts.sort_desc);
    assert_eq!(opts.table, None);
}

#[test]
fn test_parse_query_parts_nested() {
    let parts = parse_query_parts("(and (a) (b)) [[page name]] (c)");
    assert_eq!(
        parts,
        vec!["(and (a) (b))".to_string(), "[[page name]]".to_string(), "(c)".to_string()]
    );
}

#[test]
fn test_get_all_tags_sorted_unique() {
    let pages = vec![
        create_test_page("p1", vec!["zeta", "alpha"]),
        create_test_page("p2", vec!["alpha", "mid"]),
    ];
    let tags = get_all_tags(&pages);
    assert_eq!(tags, vec!["alpha".to_string(), "mid".to_string(), "zeta".to_string()]);
}

#[test]
fn test_query_in_content_uses_options() {
    let pages = vec![create_test_page("my-page", vec!["test"])];
    let input = "query-table:: false\n{{query (page-tags [[test]])}}";
    let result = process_queries_with_options(input, &pages);
    assert!(
        result.contains("- [[my-page|my-page]]"),
        "The option line forces list rendering, got: {}",
        result
    );
}

#[test]
fn test_query_all_page_tags() {
    let pages = vec![
        create_test_page("rust", vec![]),
        create_test_page("tagged", vec!["rust"]),
        create_test_page("plain", vec![]),
    ];
    let results = execute("{{query (all-page-tags)}}", &pages);
    assert_eq!(results.len(), 1);
    assert_eq!(pages[results[0]].name, "rust");
}
