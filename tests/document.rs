use page_indexer::document::{estimate_tokens, split_pages, Document, Page};

#[test]
fn test_page_creation() {
    let page = Page::new(1, "Hello world, this is a test.".to_string());
    assert_eq!(page.number, 1);
    assert!(!page.content.is_empty());
    assert!(page.token_count > 0);
}

#[test]
fn test_page_with_index_tags() {
    let page = Page::new(5, "Test content".to_string());
    let tagged = page.with_index_tags();
    assert!(tagged.contains("<physical_index_5>"));
    assert!(tagged.contains("Test content"));
}

#[test]
fn test_document_from_text() {
    let doc = Document::from_text("Test Doc", "This is the content.".to_string());
    assert_eq!(doc.name, "Test Doc");
    assert_eq!(doc.page_count(), 1);
    assert!(doc.path.is_none());
}

#[test]
fn test_document_page_access() {
    let doc = Document::from_text("Test", "Content".to_string());

    assert!(doc.get_page(0).is_none());
    assert!(doc.get_page(1).is_some());
    assert!(doc.get_page(2).is_none());
}

#[test]
fn test_estimate_tokens() {
    let text = "one two three four five six seven eight";
    let tokens = estimate_tokens(text);
    assert!(tokens >= 10 && tokens <= 12);
}

#[test]
fn estimate_tokens_exact_values() {
    assert_eq!(estimate_tokens("one two three four five six seven eight"), 10);
    assert_eq!(estimate_tokens(""), 0);
    assert_eq!(estimate_tokens("  a\tb\nc  "), 4);
    assert_eq!(estimate_tokens("word"), 1);
}

fn five_pages() -> Document {
    let pages = (1..=5).map(|n| Page::new(n, format!("text of page {}", n))).collect();
    Document::new("five", pages)
}

#[test]
fn tags_and_ranges() {
    let page = Page::new(5, "Test content".to_string());
    assert_eq!(page.with_index_tags(), "<physical_index_5>\nTest content\n<physical_index_5>\n\n");
    let doc = five_pages();
    let range = doc.content_range(2, 3);
    assert_eq!(
        range,
        "<physical_index_2>\ntext of page 2\n<physical_index_2>\n\n<physical_index_3>\ntext of page 3\n<physical_index_3>\n\n"
    );
    assert_eq!(doc.content_range(7, 9), "");
    assert!(doc.content_with_tags().starts_with("<physical_index_1>\ntext of page 1\n"));
    assert_eq!(doc.raw_content(), "text of page 1\n\ntext of page 2\n\ntext of page 3\n\ntext of page 4\n\ntext of page 5");
    assert_eq!(doc.total_tokens(), 5 * 5);
    assert_eq!(doc.get_page(3).unwrap().content, "text of page 3");
}

#[test]
fn delimited_pages_skip_blank_pieces_and_number_from_one() {
    let pages = split_pages("first\n---\n  \n---\nsecond page", "---");
    assert_eq!(pages.len(), 2);
    assert_eq!(pages[0].number, 1);
    assert_eq!(pages[0].content, "first\n");
    assert_eq!(pages[1].number, 2);
    assert_eq!(pages[1].content, "\nsecond page");
    assert_eq!(pages[1].token_count, 2);
    assert!(split_pages("  \n ", "---").is_empty());
    let chars = split_pages("a b", "");
    assert_eq!(chars.iter().map(|p| p.content.as_str()).collect::<Vec<_>>(), vec!["a", "b"]);
}
