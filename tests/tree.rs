use page_indexer::builder::{build_tree_from_toc, fix_end_indices, structure_depth_of, PageRef, RawTocItem};
use page_indexer::tree::{DocumentTree, TreeNode};

fn item(code: Option<&str>, title: &str, page: Option<PageRef>) -> RawTocItem {
    RawTocItem {
        structure: code.map(|c| c.to_string()),
        title: title.to_string(),
        physical_index: page,
    }
}

fn same_tree(a: &TreeNode, b: &TreeNode) -> bool {
    a.title == b.title
        && a.structure == b.structure
        && a.start_index == b.start_index
        && a.end_index == b.end_index
        && a.summary == b.summary
        && a.node_id == b.node_id
        && a.nodes.len() == b.nodes.len()
        && a.nodes.iter().zip(b.nodes.iter()).all(|(x, y)| same_tree(x, y))
}

#[test]
fn test_tree_node_creation() {
    let node = TreeNode::new("Chapter 1", 1, 10).with_structure("1");

    assert_eq!(node.title, "Chapter 1");
    assert_eq!(node.start_index, 1);
    assert_eq!(node.end_index, 10);
    assert_eq!(node.structure, Some("1".to_string()));
    assert_eq!(node.page_span(), 10);
}

#[test]
fn test_tree_node_children() {
    let mut parent = TreeNode::new("Chapter 1", 1, 20);
    parent.add_child(TreeNode::new("Section 1.1", 1, 10));
    parent.add_child(TreeNode::new("Section 1.2", 11, 20));

    assert!(parent.has_children());
    assert_eq!(parent.node_count(), 3);
    assert_eq!(parent.leaves().len(), 2);
}

#[test]
fn test_document_tree() {
    let nodes = vec![
        TreeNode::new("Chapter 1", 1, 10),
        TreeNode::new("Chapter 2", 11, 20),
    ];
    let tree = DocumentTree::new("Test Doc", nodes, 20);

    assert_eq!(tree.node_count(), 2);
    assert_eq!(tree.max_depth(), 1);
}

#[test]
fn test_find_by_title() {
    let mut ch1 = TreeNode::new("Chapter 1", 1, 10);
    ch1.add_child(TreeNode::new("Section 1.1", 1, 5));

    let tree = DocumentTree::new("Test", vec![ch1], 10);

    assert!(tree.find_by_title("Chapter 1").is_some());
    assert!(tree.find_by_title("Section 1.1").is_some());
    assert!(tree.find_by_title("Not Found").is_none());
}

#[test]
fn test_raw_toc_item_page_number() {
    let item1 = RawTocItem {
        structure: Some("1".to_string()),
        title: "Test".to_string(),
        physical_index: Some(PageRef::Number(5)),
    };
    assert_eq!(item1.get_page_number(), Some(5));

    let item2 = RawTocItem {
        structure: Some("2".to_string()),
        title: "Test 2".to_string(),
        physical_index: Some(PageRef::Text("<physical_index_10>".to_string())),
    };
    assert_eq!(item2.get_page_number(), Some(10));
}

#[test]
fn find_by_title_ignores_case_and_takes_first_in_preorder() {
    let mut ch1 = TreeNode::new("Intro", 1, 10);
    ch1.add_child(TreeNode::new("Details", 2, 3).with_structure("1.1"));
    let ch2 = TreeNode::new("DETAILS", 11, 12);
    let tree = DocumentTree::new("Doc", vec![ch1, ch2], 12);
    let found = tree.find_by_title("details").unwrap();
    assert_eq!(found.title, "Details");
    assert_eq!(found.start_index, 2);
    assert!(tree.nodes[0].find_by_title("INTRO").is_some());
}

#[test]
fn page_marker_and_number_resolve_to_the_same_page() {
    let a = item(Some("1"), "A", Some(PageRef::Number(7)));
    let b = item(Some("1"), "B", Some(PageRef::Text("<physical_index_7>".to_string())));
    assert_eq!(a.get_page_number(), Some(7));
    assert_eq!(b.get_page_number(), a.get_page_number());
}

#[test]
fn page_ref_text_forms() {
    let page = |t: &str| item(None, "x", Some(PageRef::Text(t.to_string()))).get_page_number();
    assert_eq!(page("12"), Some(12));
    assert_eq!(page("+12"), Some(12));
    assert_eq!(page("<physical_index_<physical_index_3>>"), Some(3));
    assert_eq!(page("page 3"), None);
    assert_eq!(page(""), None);
    assert_eq!(page("-1"), None);
    assert_eq!(page("99999999999999999999999"), None);
    assert_eq!(item(None, "x", None).get_page_number(), None);
}

#[test]
fn builder_scenario_intro_background_methods() {
    let items = vec![
        item(Some("1"), "Intro", Some(PageRef::Number(1))),
        item(Some("1.1"), "Background", Some(PageRef::Number(1))),
        item(Some("2"), "Methods", Some(PageRef::Number(5))),
    ];
    let nodes = build_tree_from_toc(&items, 10);
    assert_eq!(nodes.len(), 2);
    assert_eq!(nodes[0].title, "Intro");
    assert_eq!((nodes[0].start_index, nodes[0].end_index), (1, 4));
    assert_eq!(nodes[0].nodes.len(), 1);
    assert_eq!(nodes[0].nodes[0].title, "Background");
    assert_eq!((nodes[0].nodes[0].start_index, nodes[0].nodes[0].end_index), (1, 4));
    assert_eq!(nodes[1].title, "Methods");
    assert_eq!((nodes[1].start_index, nodes[1].end_index), (5, 10));
    assert!(nodes[1].nodes.is_empty());
}

#[test]
fn builder_empty_list_gives_empty_tree() {
    let nodes = build_tree_from_toc(&Vec::new(), 10);
    assert!(nodes.is_empty());
}

#[test]
fn builder_is_idempotent() {
    let items = vec![
        item(Some("1"), "A", Some(PageRef::Number(1))),
        item(Some("1.1"), "A.1", Some(PageRef::Text("<physical_index_2>".to_string()))),
        item(Some("1.1.1"), "A.1.1", Some(PageRef::Number(3))),
        item(None, "B", Some(PageRef::Number(6))),
        item(Some("2.1"), "B.1", None),
    ];
    let first = build_tree_from_toc(&items, 9);
    let second = build_tree_from_toc(&items, 9);
    assert_eq!(first.len(), second.len());
    for (a, b) in first.iter().zip(second.iter()) {
        assert!(same_tree(a, b));
    }
}

#[test]
fn builder_spans_hold_and_parents_are_widened() {
    let items = vec![
        item(Some("1"), "A", Some(PageRef::Number(3))),
        item(Some("1.1"), "A.1", Some(PageRef::Number(3))),
        item(Some("1.2"), "A.2", Some(PageRef::Number(2))),
        item(Some("2"), "B", Some(PageRef::Number(8))),
    ];
    let nodes = build_tree_from_toc(&items, 7);
    fn check(n: &TreeNode) {
        assert!(n.start_index <= n.end_index);
        for c in &n.nodes {
            assert!(c.end_index <= n.end_index);
            check(c);
        }
    }
    for n in &nodes {
        check(n);
    }
    assert_eq!((nodes[0].nodes[0].start_index, nodes[0].nodes[0].end_index), (3, 3));
    assert_eq!((nodes[0].nodes[1].start_index, nodes[0].nodes[1].end_index), (2, 7));
    assert_eq!(nodes[0].end_index, 7);
    assert_eq!((nodes[1].start_index, nodes[1].end_index), (8, 8));
}

#[test]
fn builder_depth_jump_attaches_to_deepest_available() {
    let items = vec![
        item(Some("1"), "A", Some(PageRef::Number(1))),
        item(Some("1.1.1"), "deep", Some(PageRef::Number(2))),
        item(Some("2.1"), "orphan", Some(PageRef::Number(3))),
    ];
    let nodes = build_tree_from_toc(&items, 5);
    assert_eq!(nodes.len(), 1);
    assert_eq!(nodes[0].nodes.len(), 2);
    assert_eq!(nodes[0].nodes[0].title, "deep");
    assert_eq!(nodes[0].nodes[1].title, "orphan");
    assert_eq!(nodes[0].end_index, 5);
}

#[test]
fn builder_deep_nesting_counts_and_depth() {
    let codes = ["1", "1.1", "1.1.1", "1.1.1.1", "1.1.1.1.1", "1.1.1.1.1.1"];
    let items: Vec<RawTocItem> = codes
        .iter()
        .enumerate()
        .map(|(i, c)| item(Some(c), &format!("level {}", i + 1), Some(PageRef::Number(i + 1))))
        .collect();
    let nodes = build_tree_from_toc(&items, 6);
    let tree = DocumentTree::new("deep", nodes, 6);
    assert_eq!(tree.node_count(), 6);
    assert_eq!(tree.max_depth(), 6);
    assert_eq!(tree.nodes[0].leaves().len(), 1);
    assert_eq!(tree.nodes[0].leaves()[0].title, "level 6");
    assert_eq!(tree.nodes[0].end_index, 6);
}

#[test]
fn structure_depth_counts_numeric_parts() {
    assert_eq!(structure_depth_of("1"), 1);
    assert_eq!(structure_depth_of("2.1.3"), 3);
    assert_eq!(structure_depth_of("1..2"), 2);
    assert_eq!(structure_depth_of("a.1"), 1);
    assert_eq!(structure_depth_of(""), 0);
}

#[test]
fn format_shows_outline() {
    let mut ch1 = TreeNode::new("Intro", 1, 4).with_structure("1");
    ch1.add_child(TreeNode::new("Background", 1, 4).with_structure("1.1"));
    let tree = DocumentTree::new("Doc", vec![ch1, TreeNode::new("Methods", 5, 10)], 10);
    let expected = format!(
        "Document: Doc (10 pages, 3 sections)\n{}\n1 Intro [pages 1-4]\n  1.1 Background [pages 1-4]\nMethods [pages 5-10]\n",
        "\u{2500}".repeat(50)
    );
    assert_eq!(tree.format(), expected);
    assert_eq!(tree.nodes[0].format_tree(1), "  1 Intro [pages 1-4]\n    1.1 Background [pages 1-4]\n");
}

#[test]
fn page_span_and_indices() {
    let n = TreeNode::new("x", 3, 5);
    assert_eq!(n.page_span(), 3);
    assert_eq!(n.all_page_indices(), vec![3, 4, 5]);
    let inverted = TreeNode::new("y", 5, 3);
    assert_eq!(inverted.page_span(), 0);
    assert!(inverted.all_page_indices().is_empty());
}

#[test]
fn fix_end_indices_widens_bottom_up() {
    let mut root = TreeNode::new("r", 1, 1);
    let mut mid = TreeNode::new("m", 1, 2);
    mid.add_child(TreeNode::new("leaf", 2, 9));
    root.add_child(mid);
    fix_end_indices(&mut root);
    assert_eq!(root.nodes[0].end_index, 9);
    assert_eq!(root.end_index, 9);
}
