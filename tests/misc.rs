use page_indexer::config::{check_llm_settings, default_max_tokens};
use page_indexer::dataset::{create_sample_dataset, Dataset, DatasetItem};
use page_indexer::error::PageIndexError;
use page_indexer::evaluation::{chunk_text, BenchmarkConfig, ChunkConfig};
use page_indexer::indexer::{index_from_toc, toc_init_prompt, toc_items_from, IndexerOptions};
use page_indexer::builder::{PageRef, RawTocItem};
use page_indexer::document::Document;
use page_indexer::llm::{chat_endpoint, prompt_messages, says_hello, Message, Role};
use page_indexer::persistence::SaveFormat;
use page_indexer::prompts::Prompts;
use page_indexer::text::replace;

#[test]
fn test_benchmark_config_default() {
    let config = BenchmarkConfig::default();
    assert_eq!(config.top_k, 3);
    assert!(config.run_pageindex);
    assert!(config.run_vector);
}

#[test]
fn test_dataset_operations() {
    let mut dataset = Dataset::new("test");
    assert!(dataset.is_empty());

    dataset.add_item(DatasetItem {
        id: "1".to_string(),
        document: "Test doc".to_string(),
        question: "Test question?".to_string(),
        answer: Some("Test answer".to_string()),
        options: None,
        correct_option: None,
        source: "test".to_string(),
    });

    assert_eq!(dataset.len(), 1);
    assert!(!dataset.is_empty());
}

#[test]
fn test_dataset_take() {
    let dataset = create_sample_dataset();
    assert_eq!(dataset.len(), 3);

    let subset = dataset.take(2);
    assert_eq!(subset.len(), 2);
}

#[test]
fn test_sample_dataset() {
    let dataset = create_sample_dataset();
    assert!(!dataset.is_empty());
    assert_eq!(dataset.name, "sample");

    for item in &dataset.items {
        assert!(!item.document.is_empty());
        assert!(!item.question.is_empty());
        assert!(item.answer.is_some());
    }
}

#[test]
fn test_chunk_config_default() {
    let config = ChunkConfig::default();
    assert_eq!(config.chunk_size, 512);
    assert_eq!(config.chunk_overlap, 50);
}

#[test]
fn test_indexer_options_default() {
    let options = IndexerOptions::default();
    assert_eq!(options.max_tokens_per_chunk, 20000);
    assert!(options.verify_indices);
    assert_eq!(options.max_fix_attempts, 3);
}

#[test]
fn test_message_creation() {
    let sys = Message::system("You are helpful.");
    let user = Message::user("Hello!");
    let assistant = Message::assistant("Hi there!");

    assert!(matches!(sys.role, Role::System));
    assert!(matches!(user.role, Role::User));
    assert!(matches!(assistant.role, Role::Assistant));
}

#[test]
fn test_prompts_are_not_empty() {
    assert!(!Prompts::toc_detector().is_empty());
    assert!(!Prompts::toc_transformer().is_empty());
    assert!(!Prompts::generate_toc_init().is_empty());
    assert!(!Prompts::generate_toc_continue().is_empty());
    assert!(!Prompts::check_title_appearance().is_empty());
    assert!(!Prompts::tree_search().is_empty());
    assert!(!Prompts::generate_node_summary().is_empty());
}

#[test]
fn test_format_detection() {
    assert_eq!(SaveFormat::from_path("test.json"), SaveFormat::Json);
    assert_eq!(SaveFormat::from_path("test.bin"), SaveFormat::Bincode);
    assert_eq!(SaveFormat::from_path("test.bincode"), SaveFormat::Bincode);
    assert_eq!(SaveFormat::from_path("test"), SaveFormat::Json);
}

#[test]
fn format_detection_uses_the_file_name() {
    assert_eq!(SaveFormat::from_path("dir.bin/tree"), SaveFormat::Json);
    assert_eq!(SaveFormat::from_path("data/tree.bin"), SaveFormat::Bincode);
    assert_eq!(SaveFormat::from_path(".bin"), SaveFormat::Json);
    assert_eq!(SaveFormat::from_extension(Some("bincode")), SaveFormat::Bincode);
    assert_eq!(SaveFormat::from_extension(Some("BIN")), SaveFormat::Json);
    assert_eq!(SaveFormat::from_extension(None), SaveFormat::Json);
}

#[test]
fn test_endpoint_construction() {
    assert_eq!(chat_endpoint("https://api.example.com/"), "https://api.example.com/v1/chat/completions");
    assert_eq!(chat_endpoint("https://api.example.com"), "https://api.example.com/v1/chat/completions");
}

#[test]
fn test_default_config() {
    assert_eq!(default_max_tokens(), 4096);
}

#[test]
fn test_validate_fails_without_required_fields() {
    assert!(check_llm_settings("", "", "gpt-4").is_err());
}

#[test]
fn settings_errors_name_the_missing_field() {
    assert!(check_llm_settings("https://api.example.com", "test-key", "gpt-4").is_ok());
    match check_llm_settings("https://api.example.com", "", "gpt-4") {
        Err(PageIndexError::Config(m)) => assert!(m.starts_with("LLM API key is required")),
        other => panic!("unexpected {:?}", other),
    }
    match check_llm_settings("https://api.example.com", "k", "") {
        Err(PageIndexError::Config(m)) => assert!(m.starts_with("LLM model is required")),
        other => panic!("unexpected {:?}", other),
    }
}

#[test]
fn connection_reply_check() {
    assert!(says_hello("HELLO there"));
    assert!(says_hello("oh, Hello."));
    assert!(!says_hello("hi"));
    assert!(!says_hello(""));
}

#[test]
fn messages_for_a_prompt() {
    let with_system = prompt_messages(Some("sys"), "ask");
    assert_eq!(with_system.len(), 2);
    assert_eq!(with_system[0].role, Role::System);
    assert_eq!(with_system[1].content, "ask");
    let plain = prompt_messages(None, "ask");
    assert_eq!(plain.len(), 1);
    assert_eq!(plain[0].role, Role::User);
}

#[test]
fn toc_answer_shapes() {
    let one = || vec![RawTocItem { structure: None, title: "T".to_string(), physical_index: None }];
    assert_eq!(toc_items_from(Some(one()), None, "r").unwrap().len(), 1);
    assert_eq!(toc_items_from(None, Some(one()), "r").unwrap()[0].title, "T");
    let long = "x".repeat(300);
    match toc_items_from(None, None, &long) {
        Err(PageIndexError::LlmParse(m)) => {
            assert_eq!(m, format!("Failed to parse TOC response: {}", "x".repeat(200)))
        }
        _ => panic!("expected a parse error"),
    }
}

#[test]
fn error_constructors() {
    match PageIndexError::io("/tmp/x", "denied") {
        PageIndexError::Io { path, message } => {
            assert_eq!(path, "/tmp/x");
            assert_eq!(message, "denied");
        }
        _ => panic!("expected an I/O error"),
    }
    match PageIndexError::unparsable("bad: ", "short") {
        PageIndexError::LlmParse(m) => assert_eq!(m, "bad: short"),
        _ => panic!("expected a parse error"),
    }
}

#[test]
fn index_prompt_and_tree() {
    let prompt = toc_init_prompt("BODY");
    assert!(prompt.starts_with(Prompts::generate_toc_init()));
    assert!(prompt.ends_with("\nGiven text\n:BODY"));
    let doc = Document::from_text("Doc", "one page".to_string());
    let items = vec![RawTocItem {
        structure: Some("1".to_string()),
        title: "All".to_string(),
        physical_index: Some(PageRef::Text("<physical_index_1>".to_string())),
    }];
    let tree = index_from_toc(&doc, &items);
    assert_eq!(tree.name, "Doc");
    assert_eq!(tree.total_pages, 1);
    assert_eq!(tree.nodes.len(), 1);
    assert_eq!((tree.nodes[0].start_index, tree.nodes[0].end_index), (1, 1));
}

#[test]
fn text_replacement() {
    assert_eq!(replace("a{x}b{x}", "{x}", "yy"), "ayybyy");
    assert_eq!(replace("aaa", "aa", "b"), "ba");
    assert_eq!(replace("abc", "z", "q"), "abc");
}

#[test]
fn dataset_take_copies_items() {
    let dataset = create_sample_dataset();
    let subset = dataset.take(5);
    assert_eq!(subset.len(), 3);
    assert_eq!(subset.items[1].id, "sample_2");
    assert_eq!(subset.items[1].answer, dataset.items[1].answer);
    assert_eq!(dataset.take(0).len(), 0);
}

#[test]
fn test_chunk_text() {
    let text = "This is a test. Another sentence here. And one more.";
    let config = ChunkConfig { chunk_size: 20, chunk_overlap: 5 };

    let chunks = chunk_text(text, &config);

    assert!(!chunks.is_empty());
    for chunk in &chunks {
        assert!(!chunk.text.is_empty());
    }
}

#[test]
fn chunk_text_prefers_sentence_ends() {
    let text = "This is a test. Another sentence here. And one more.";
    let config = ChunkConfig { chunk_size: 20, chunk_overlap: 5 };
    let chunks = chunk_text(text, &config);
    assert_eq!(chunks[0].text, "This is a test.");
    assert_eq!((chunks[0].start_pos, chunks[0].end_pos, chunks[0].index), (0, 15, 0));
    assert_eq!(chunks[1].start_pos, 10);
    for (i, c) in chunks.iter().enumerate() {
        assert_eq!(c.index, i);
        assert!(c.start_pos < c.end_pos && c.end_pos <= text.chars().count());
    }
    assert_eq!(chunks.last().unwrap().end_pos, text.chars().count());
    assert!(chunk_text("", &config).is_empty());
    assert!(chunk_text("   ", &config).is_empty());
}
