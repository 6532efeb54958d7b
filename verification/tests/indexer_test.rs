use knowledgebase::indexer::{build_simple_tree_index, split_into_pages};
use knowledgebase::text::truncate;

#[test]
fn test_split_pages_by_formfeed() {
    let text = "Page 1 content\x0CPage 2 content\x0CPage 3 content";
    let pages = split_into_pages(text);
    assert_eq!(pages.len(), 3);
    assert_eq!(pages[0], "Page 1 content");
    assert_eq!(pages[1], "Page 2 content");
}

#[test]
fn test_split_pages_by_paragraphs() {
    // No form feeds, should chunk by paragraph breaks
    let text = (0..20)
        .map(|i| format!("Paragraph {i} with some content that fills space."))
        .collect::<Vec<_>>()
        .join("\n\n");
    let pages = split_into_pages(&text);
    assert!(!pages.is_empty());
    // All content should be preserved
    let total_len: usize = pages.iter().map(|p| p.len()).sum();
    assert!(total_len > 0);
}

#[test]
fn test_split_empty_text() {
    let pages = split_into_pages("");
    assert_eq!(pages.len(), 1);
}

#[test]
fn test_build_tree_index_extracts_headings() {
    let content = "# Introduction\nSome text here.\n\n# Methods\nMore text.";
    let index = build_simple_tree_index(content, 1);
    let topics = &index.topics;
    assert_eq!(topics.len(), 2);
    assert_eq!(topics[0].name, "Introduction");
    assert_eq!(topics[1].name, "Methods");
}

#[test]
fn test_truncate() {
    assert_eq!(truncate("hello world", 5), "hello...");
    assert_eq!(truncate("hi", 10), "hi");
}

fn visible(s: &str) -> String {
    s.chars().filter(|c| !c.is_whitespace()).collect()
}

#[test]
fn split_keeps_visible_content_with_form_feeds() {
    let text = "  first page \x0C\x0C  \n \x0Csecond\tpage\n\x0C";
    let pages = split_into_pages(text);
    assert_eq!(pages, vec!["first page".to_string(), "second\tpage".to_string()]);
    assert_eq!(visible(&pages.concat()), visible(text));
}

#[test]
fn split_packs_paragraphs_into_pages_of_3000_bytes() {
    let para = "x".repeat(1000);
    let text = vec![para.clone(); 5].join("\n\n");
    let pages = split_into_pages(&text);
    // 1000 + 2 + 1000 fits; adding a third would exceed 3000 bytes
    assert_eq!(pages.len(), 3);
    assert_eq!(pages[0], format!("{para}\n\n{para}"));
    assert_eq!(pages[2], para);
    assert_eq!(visible(&pages.concat()), visible(&text));
}

#[test]
fn split_oversized_paragraph_is_its_own_page() {
    let big = "y".repeat(3500);
    let text = format!("small\n\n{big}\n\nsmall again");
    let pages = split_into_pages(&text);
    assert_eq!(pages, vec!["small".to_string(), big, "small again".to_string()]);
}

#[test]
fn split_trims_pages_and_falls_back_to_whole_text() {
    let pages = split_into_pages("  \n\n  \t ");
    assert_eq!(pages, vec!["  \n\n  \t ".to_string()]);
    let pages = split_into_pages("\n\n  hello  \n\n");
    assert_eq!(pages, vec!["hello".to_string()]);
}

#[test]
fn split_only_form_feeds_gives_no_page() {
    let pages = split_into_pages("\x0C \x0C");
    assert!(pages.is_empty());
}

#[test]
fn truncate_counts_bytes_and_keeps_exact_fit() {
    assert_eq!(truncate("hello", 5), "hello");
    assert_eq!(truncate("héllo", 3), "hé...");
    assert_eq!(truncate("", 0), "");
}

#[test]
fn tree_index_recognises_capital_headings_and_lines() {
    let content = "INTRODUCTION\r\nbody text\n## Deep heading ##\nABC\nLOWER case\n";
    let index = build_simple_tree_index(content, 7);
    let names: Vec<&str> = index.topics.iter().map(|t| t.name.as_str()).collect();
    assert_eq!(names, vec!["INTRODUCTION", "Deep heading ##"]);
    assert!(index.topics.iter().all(|t| t.kind == "heading"));
    assert_eq!(index.page, 7);
    assert_eq!(index.char_count, content.len());
    assert_eq!(index.summary, content);
}

#[test]
fn tree_index_summary_is_cut_at_300_bytes() {
    let content = "a".repeat(400);
    let index = build_simple_tree_index(&content, 1);
    assert_eq!(index.summary, format!("{}...", "a".repeat(300)));
    assert_eq!(index.char_count, 400);
}
