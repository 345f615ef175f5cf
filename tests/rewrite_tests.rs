use mdref::{outgoing_link_path, parent_dir, relative_path, replace_link_in_text, rewritten_outgoing_link, MdrefError};

#[test]
fn incoming_link_is_rewritten_in_place() {
    let out = replace_link_in_text("a.md", "[x](b.md)", 1, "b.md", "sub/b.md").unwrap();
    assert_eq!(out, Some("[x](sub/b.md)".to_string()));
}

#[test]
fn only_first_occurrence_on_the_line_changes() {
    let text = "title\n[x](b.md) and [y](b.md)\n[z](b.md)\n";
    let out = replace_link_in_text("a.md", text, 2, "b.md", "new.md").unwrap();
    assert_eq!(out, Some("title\n[x](new.md) and [y](b.md)\n[z](b.md)\n".to_string()));
}

#[test]
fn rest_of_document_stays_byte_identical() {
    let text = "[x](b.md)\r\n\r\nend without newline";
    let out = replace_link_in_text("a.md", text, 1, "b.md", "c.md").unwrap();
    assert_eq!(out, Some("[x](c.md)\r\n\r\nend without newline".to_string()));
}

#[test]
fn link_missing_from_line_is_skipped() {
    let text = "[x](b.md)\nnothing here";
    assert_eq!(replace_link_in_text("a.md", text, 2, "b.md", "c.md").unwrap(), None);
    assert_eq!(replace_link_in_text("a.md", text, 1, "c.md", "d.md").unwrap(), None);
}

#[test]
fn line_past_end_is_an_invalid_line_error() {
    let err = replace_link_in_text("a.md", "a\nb", 3, "b.md", "c.md").unwrap_err();
    assert!(matches!(err, MdrefError::InvalidLine(ref m) if m == "Line number 3 out of range for file a.md"));
    let err = replace_link_in_text("doc.md", "only\n", 2, "b.md", "c.md").unwrap_err();
    assert!(matches!(err, MdrefError::InvalidLine(ref m) if m == "Line number 2 out of range for file doc.md"));
    assert!(replace_link_in_text("doc.md", "", 1, "b.md", "c.md").is_err());
}

#[test]
fn moving_into_subdirectory_gives_relative_link() {
    // b.md moves to sub/b.md; a.md lives in /work.
    let link = relative_path("/work", "/work/sub/b.md");
    assert_eq!(link, "sub/b.md");
    let out = replace_link_in_text("a.md", "[x](b.md)", 1, "b.md", &link).unwrap();
    assert_eq!(out, Some("[x](sub/b.md)".to_string()));
}

#[test]
fn relative_path_climbs_out_of_directories() {
    assert_eq!(relative_path("/work/sub", "/work/other.md"), "../other.md");
    assert_eq!(relative_path("/work/a/b", "/work/c/d.md"), "../../c/d.md");
}

#[test]
fn relative_path_without_a_result_is_empty() {
    assert_eq!(relative_path("/work", "other.md"), "");
}

#[test]
fn self_link_becomes_new_file_name() {
    let out = rewritten_outgoing_link("/r/source.md", "/r/source.md", "/r/sub/target.md").unwrap();
    assert_eq!(out, "target.md");
}

#[test]
fn other_outgoing_link_is_recomputed_from_new_directory() {
    let out = rewritten_outgoing_link("/r/other.md", "/r/source.md", "/r/subdir/target.md").unwrap();
    assert_eq!(out, "../other.md");
}

#[test]
fn outgoing_link_of_rootless_new_file_is_a_path_error() {
    let err = rewritten_outgoing_link("/r/other.md", "/r/source.md", "/").unwrap_err();
    assert!(matches!(err, MdrefError::Path(ref m) if m == "No parent directory"));
    let err = rewritten_outgoing_link("/r/source.md", "/r/source.md", "/").unwrap_err();
    assert!(matches!(err, MdrefError::Path(ref m) if m == "No file name"));
}

#[test]
fn outgoing_link_path_joins_old_directory() {
    assert_eq!(outgoing_link_path("/r/source.md", "other.md").unwrap(), "/r/other.md");
    assert_eq!(outgoing_link_path("/r/source.md", "/abs/x.md").unwrap(), "/abs/x.md");
    let err = outgoing_link_path("", "other.md").unwrap_err();
    assert!(matches!(err, MdrefError::Path(ref m) if m == "No parent directory"));
}

#[test]
fn parent_directory_of_documents() {
    assert_eq!(parent_dir("docs/a.md").unwrap(), "docs");
    assert_eq!(parent_dir("a.md").unwrap(), "");
    assert!(matches!(parent_dir("/"), Err(MdrefError::Path(_))));
}

#[test]
fn update_reference_points_link_at_new_place() {
    let r = mdref::Reference::new("/w/ref.md".to_string(), 1, 1, "source.md".to_string());
    let out = mdref::update_reference(&r, "[Source](source.md)", "/w", "/w/subdir/target.md").unwrap();
    assert_eq!(out, Some("[Source](subdir/target.md)".to_string()));
}

#[test]
fn update_reference_with_stale_line_is_invalid() {
    let r = mdref::Reference::new("/w/ref.md".to_string(), 4, 1, "source.md".to_string());
    let err = mdref::update_reference(&r, "[Source](source.md)", "/w", "/w/target.md").unwrap_err();
    assert!(matches!(err, MdrefError::InvalidLine(ref m) if m == "Line number 4 out of range for file /w/ref.md"));
}

#[test]
fn update_link_keeps_outgoing_link_valid() {
    let r = mdref::Reference::new("/w/subdir/target.md".to_string(), 1, 1, "other.md".to_string());
    let out = mdref::update_link(&r, "[Other](other.md)", "/w/other.md", "/w/source.md", "/w/subdir/target.md").unwrap();
    assert_eq!(out, Some("[Other](../other.md)".to_string()));
}

#[test]
fn update_link_of_self_reference_uses_new_name() {
    let r = mdref::Reference::new("/w/b/new.md".to_string(), 2, 1, "old.md".to_string());
    let text = "# Title\n[me](old.md)\n";
    let out = mdref::update_link(&r, text, "/w/a/old.md", "/w/a/old.md", "/w/b/new.md").unwrap();
    assert_eq!(out, Some("# Title\n[me](new.md)\n".to_string()));
}

#[test]
fn rewritten_link_is_found_again_at_same_place() {
    let text = "intro\n  [a](one.md) tail [b](two.md)\n";
    let before = mdref::scan_links("doc.md", text);
    let moved = replace_link_in_text("doc.md", text, before[0].line, &before[0].link_text, "sub/one.md")
        .unwrap()
        .unwrap();
    let after = mdref::scan_links("doc.md", &moved);
    assert_eq!(after.len(), before.len());
    assert_eq!((after[0].line, after[0].column), (before[0].line, before[0].column));
    assert_eq!(after[0].link_text, "sub/one.md");
    assert_eq!(after[1].link_text, "two.md");
    assert_eq!(after[1].column, before[1].column + 4);
}
