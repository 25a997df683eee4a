use page_indexer::document::{Document, Page};
use page_indexer::response::{extract_json, extract_json_object};
use page_indexer::search::{
    attach_content, rank_results, results_from_raw, strip_page_markers, tree_search_prompt,
    RawSearchResult, Relevance, SearchOptions, SearchResult,
};

fn result(title: &str, relevance: Relevance) -> SearchResult {
    SearchResult {
        title: title.to_string(),
        start_index: 1,
        end_index: 1,
        relevance,
        reason: String::new(),
        content: None,
    }
}

fn levels(rs: &[SearchResult]) -> Vec<(String, Relevance)> {
    rs.iter().map(|r| (r.title.clone(), r.relevance)).collect()
}

#[test]
fn test_relevance_ordering() {
    assert!(Relevance::High.score() > Relevance::Medium.score());
    assert!(Relevance::Medium.score() > Relevance::Low.score());
}

#[test]
fn test_relevance_from_str() {
    assert_eq!(Relevance::from_str("HIGH"), Relevance::High);
    assert_eq!(Relevance::from_str("medium"), Relevance::Medium);
    assert_eq!(Relevance::from_str("Low"), Relevance::Low);
    assert_eq!(Relevance::from_str("unknown"), Relevance::Low);
}

#[test]
fn test_search_options_default() {
    let options = SearchOptions::default();
    assert_eq!(options.top_k, 10);
    assert_eq!(options.min_relevance, Relevance::Low);
    assert!(!options.include_content);
}

#[test]
fn test_extract_json() {
    let response = r#"{"thinking": "...", "relevant_sections": []}"#;
    let extracted = extract_json_object(response);
    assert!(extracted.contains("relevant_sections"));
}

#[test]
fn test_extract_json_plain() {
    let response = r#"[{"title": "Test"}]"#;
    let extracted = extract_json(response);
    assert_eq!(extracted, r#"[{"title": "Test"}]"#);
}

#[test]
fn test_extract_json_markdown() {
    let response = r#"```json
[{"title": "Test"}]
```"#;
    let extracted = extract_json(response);
    assert_eq!(extracted, r#"[{"title": "Test"}]"#);
}

#[test]
fn test_extract_json_with_text() {
    let response = r#"Here's the structure:
[{"title": "Test"}]
That's the result."#;
    let extracted = extract_json(response);
    assert_eq!(extracted, r#"[{"title": "Test"}]"#);
}

#[test]
fn extract_json_other_shapes() {
    assert_eq!(extract_json_object("```\n{\"a\": 1}\n```"), "{\"a\": 1}");
    assert_eq!(extract_json_object("note: {\"a\": [1]} end"), "{\"a\": [1]}");
    assert_eq!(extract_json_object("  no json here  "), "no json here");
    assert_eq!(extract_json_object("[1, 2]"), "[1, 2]");
    assert_eq!(extract_json("x {\"a\": [1]} y"), "[1]");
    assert_eq!(extract_json("```json```"), "json");
}

#[test]
fn relevance_words_are_read_ignoring_case() {
    assert_eq!(Relevance::from_str("HiGh"), Relevance::High);
    assert_eq!(Relevance::from_str("MEDIUM"), Relevance::Medium);
    assert_eq!(Relevance::from_lowercase("high"), Relevance::High);
    assert_eq!(Relevance::from_lowercase("HIGH"), Relevance::Low);
    assert_eq!(Relevance::from_str(" high"), Relevance::Low);
    assert_eq!(Relevance::High.score(), 3);
    assert_eq!(Relevance::Medium.score(), 2);
    assert_eq!(Relevance::Low.score(), 1);
}

#[test]
fn ranking_is_stable_by_relevance() {
    let input = vec![
        result("a", Relevance::Low),
        result("b", Relevance::High),
        result("c", Relevance::Medium),
        result("d", Relevance::High),
    ];
    let ranked = rank_results(input, &SearchOptions::default());
    assert_eq!(
        levels(&ranked),
        vec![
            ("b".to_string(), Relevance::High),
            ("d".to_string(), Relevance::High),
            ("c".to_string(), Relevance::Medium),
            ("a".to_string(), Relevance::Low),
        ]
    );
}

#[test]
fn minimum_relevance_filter_keeps_order() {
    let input = vec![
        result("a", Relevance::High),
        result("b", Relevance::Low),
        result("c", Relevance::Medium),
    ];
    let options = SearchOptions { top_k: 10, min_relevance: Relevance::Medium, include_content: false };
    let ranked = rank_results(input, &options);
    assert_eq!(
        levels(&ranked),
        vec![("a".to_string(), Relevance::High), ("c".to_string(), Relevance::Medium)]
    );
}

#[test]
fn ranking_truncates_to_top_k() {
    let input = vec![
        result("a", Relevance::Low),
        result("b", Relevance::High),
        result("c", Relevance::High),
    ];
    let options = SearchOptions { top_k: 2, min_relevance: Relevance::Low, include_content: false };
    let ranked = rank_results(input, &options);
    assert_eq!(levels(&ranked), vec![("b".to_string(), Relevance::High), ("c".to_string(), Relevance::High)]);
    let only_high = SearchOptions { top_k: 0, min_relevance: Relevance::High, include_content: false };
    assert!(rank_results(vec![result("x", Relevance::High)], &only_high).is_empty());
}

#[test]
fn raw_results_read_relevance_words() {
    let raw = vec![
        RawSearchResult {
            title: "Intro".to_string(),
            start_index: 1,
            end_index: 4,
            relevance: "High".to_string(),
            reason: "mentions it".to_string(),
        },
        RawSearchResult {
            title: "Methods".to_string(),
            start_index: 5,
            end_index: 10,
            relevance: "sort of".to_string(),
            reason: String::new(),
        },
    ];
    let results = results_from_raw(raw);
    assert_eq!(results.len(), 2);
    assert_eq!(results[0].relevance, Relevance::High);
    assert_eq!(results[0].title, "Intro");
    assert_eq!((results[0].start_index, results[0].end_index), (1, 4));
    assert_eq!(results[1].relevance, Relevance::Low);
    assert!(results[1].content.is_none());
}

fn five_pages() -> Document {
    let pages = (1..=5).map(|n| Page::new(n, format!("text of page {}", n))).collect();
    Document::new("five", pages)
}

#[test]
fn content_slicing_takes_only_requested_pages() {
    let doc = five_pages();
    let mut r = result("s", Relevance::High);
    r.start_index = 2;
    r.end_index = 3;
    let out = attach_content(vec![r], &doc);
    let content = out[0].content.clone().unwrap();
    assert_eq!(content, "text of page 2\n\ntext of page 3");
    assert!(!content.contains("physical_index"));
    assert!(!content.contains("page 1") && !content.contains("page 4"));
}

#[test]
fn content_outside_document_is_empty() {
    let doc = five_pages();
    let mut r = result("s", Relevance::Low);
    r.start_index = 8;
    r.end_index = 12;
    let out = attach_content(vec![r], &doc);
    assert_eq!(out[0].content.as_deref(), Some(""));
}

#[test]
fn page_marker_lines_are_removed() {
    assert_eq!(strip_page_markers("<physical_index_1>\r\n a \r\nb\n<physical_index_1>\n\n"), "a \nb");
    assert_eq!(strip_page_markers(""), "");
    assert_eq!(strip_page_markers("x\r"), "x");
    assert_eq!(strip_page_markers("<physical_index_9> trailing"), "");
}

#[test]
fn search_prompt_fills_placeholders() {
    let prompt = tree_search_prompt("{\"name\": \"T\"}", "where?");
    assert!(prompt.contains("{\"name\": \"T\"}"));
    assert!(prompt.contains("where?"));
    assert!(!prompt.contains("{tree_structure}"));
    assert!(!prompt.contains("{query}"));
}
