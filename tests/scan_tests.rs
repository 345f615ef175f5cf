use mdref::{document_links, scan_links};

fn summary(path: &str, content: &str) -> Vec<(usize, usize, String)> {
    scan_links(path, content)
        .into_iter()
        .map(|r| (r.line, r.column, r.link_text))
        .collect()
}

#[test]
fn single_link_at_start_of_document() {
    let links = scan_links("a.md", "[x](b.md)");
    assert_eq!(links.len(), 1);
    assert_eq!(links[0].path, "a.md");
    assert_eq!(links[0].line, 1);
    assert_eq!(links[0].column, 1);
    assert_eq!(links[0].link_text, "b.md");
}

#[test]
fn lines_and_columns_are_one_based() {
    let text = "intro\n  [a](one.md) and [b](two.md)\n[c](three.md)";
    assert_eq!(
        summary("doc.md", text),
        vec![
            (2, 3, "one.md".to_string()),
            (2, 19, "two.md".to_string()),
            (3, 1, "three.md".to_string()),
        ]
    );
}

#[test]
fn column_counts_characters_not_bytes() {
    assert_eq!(summary("doc.md", "é [x](b.md)"), vec![(1, 3, "b.md".to_string())]);
    assert_eq!(summary("doc.md", "日本語 [x](b.md)"), vec![(1, 5, "b.md".to_string())]);
}

#[test]
fn image_link_is_reported_at_its_bracket() {
    assert_eq!(summary("doc.md", "![img](pic.png)"), vec![(1, 2, "pic.png".to_string())]);
}

#[test]
fn malformed_tokens_are_not_links() {
    assert!(summary("doc.md", "[a]()").is_empty());
    assert!(summary("doc.md", "[a] (b.md)").is_empty());
    assert!(summary("doc.md", "[a](b.md").is_empty());
    assert!(summary("doc.md", "[a](b\nc)").is_empty());
    assert!(summary("doc.md", "[a\nb](c)").is_empty());
    assert!(summary("doc.md", "plain text (with) [brackets]").is_empty());
}

#[test]
fn leftmost_token_wins_and_tokens_do_not_overlap() {
    assert_eq!(summary("doc.md", "[a[b](c)"), vec![(1, 1, "c".to_string())]);
    assert_eq!(summary("doc.md", "[a](b[c](d)"), vec![(1, 1, "b[c](d".to_string())]);
    assert_eq!(
        summary("doc.md", "[a](b)[c](d)"),
        vec![(1, 1, "b".to_string()), (1, 7, "d".to_string())]
    );
}

#[test]
fn carriage_returns_do_not_shift_lines() {
    assert_eq!(
        summary("doc.md", "[a](b.md)\r\n[c](d.md)\r\n"),
        vec![(1, 1, "b.md".to_string()), (2, 1, "d.md".to_string())]
    );
}

#[test]
fn web_links_are_extracted_like_any_other() {
    assert_eq!(
        summary("doc.md", "see [site](http://example.com/x.md)"),
        vec![(1, 5, "http://example.com/x.md".to_string())]
    );
}

#[test]
fn text_without_links_gives_no_links() {
    assert!(scan_links("doc.md", "").is_empty());
    assert!(scan_links("doc.md", "# Title\n\nNo links here.\n").is_empty());
}

#[test]
fn scanning_twice_gives_identical_references() {
    let text = "[a](b.md)\nx [c](../d.md) [e](f.md)";
    assert_eq!(summary("doc.md", text), summary("doc.md", text));
}

#[test]
fn test_find_links_non_markdown_file() {
    let result = document_links("Cargo.toml", "[a](b.md)");
    assert!(result.is_empty());
}

#[test]
fn test_find_links_empty_markdown_file() {
    let result = document_links("test_empty.md", "");
    assert_eq!(result.len(), 0);
}

#[test]
fn markdown_extension_is_needed_for_links() {
    assert!(document_links("notes", "[a](b.md)").is_empty());
    assert!(document_links(".md", "[a](b.md)").is_empty());
    assert!(document_links("notes.mdx", "[a](b.md)").is_empty());
    assert_eq!(document_links("dir/notes.md", "[a](b.md)").len(), 1);
    assert_eq!(document_links("dir/x.tar.md", "[a](b.md) [c](d.md)").len(), 2);
}
