use mdref::{is_markdown, link_names_target, reference_candidates, resolve_link, select_references, Reference};

#[test]
fn candidates_keep_links_with_the_target_file_name() {
    let text = "[x](b.md) [y](c.md) [z](sub/b.md)";
    let found = reference_candidates("a.md", text, "/root/b.md");
    let found: Vec<(usize, String)> = found.into_iter().map(|r| (r.column, r.link_text)).collect();
    assert_eq!(found, vec![(1, "b.md".to_string()), (21, "sub/b.md".to_string())]);
}

#[test]
fn file_name_check_looks_at_last_component() {
    assert!(link_names_target("b.md", "/root/b.md"));
    assert!(link_names_target("../x/b.md", "/root/b.md"));
    assert!(link_names_target("./b.md/", "/root/b.md"));
    assert!(!link_names_target("b.markdown", "/root/b.md"));
    assert!(!link_names_target("..", "/root/b.md"));
    assert!(!link_names_target("/root", "/root/b.md"));
}

#[test]
fn relative_link_resolves_against_document_directory() {
    assert_eq!(resolve_link("docs/a.md", "b.md"), Some("docs/b.md".to_string()));
    assert_eq!(resolve_link("docs/a.md", "../c/d.md"), Some("docs/../c/d.md".to_string()));
    assert_eq!(resolve_link("a.md", "b.md"), Some("b.md".to_string()));
}

#[test]
fn absolute_link_is_taken_as_written() {
    assert_eq!(resolve_link("docs/a.md", "/abs/b.md"), Some("/abs/b.md".to_string()));
}

#[test]
fn document_without_directory_resolves_nothing() {
    assert_eq!(resolve_link("/", "b.md"), None);
    assert_eq!(resolve_link("", "b.md"), None);
}

#[test]
fn markdown_paths() {
    assert!(is_markdown("a.md"));
    assert!(is_markdown("dir/..md"));
    assert!(!is_markdown(".md"));
    assert!(!is_markdown("a.txt"));
    assert!(!is_markdown("dir/"));
}

#[test]
fn find_references_scenario_single_link() {
    // a.md holds [x](b.md); b.md exists at /work/b.md.
    let target = "/work/b.md";
    let candidates = reference_candidates("./a.md", "[x](b.md)", target);
    assert_eq!(candidates.len(), 1);
    let resolved: Vec<(Reference, Option<String>)> = candidates
        .into_iter()
        .map(|r| (r, Some(target.to_string())))
        .collect();
    let found = select_references(resolved, target);
    assert_eq!(found.len(), 1);
    assert_eq!(found[0].path, "./a.md");
    assert_eq!(found[0].line, 1);
    assert_eq!(found[0].column, 1);
    assert_eq!(found[0].link_text, "b.md");
}

#[test]
fn link_to_missing_file_is_never_selected() {
    let target = "/work/b.md";
    let candidates = reference_candidates("./a.md", "[x](gone/b.md)", target);
    assert_eq!(candidates.len(), 1);
    let resolved: Vec<(Reference, Option<String>)> =
        candidates.into_iter().map(|r| (r, None)).collect();
    assert!(select_references(resolved, target).is_empty());
}

#[test]
fn selection_keeps_only_exact_canonical_matches_in_order() {
    let r = |c: usize, t: &str| Reference::new("d.md".to_string(), 1, c, t.to_string());
    let resolved = vec![
        (r(1, "b.md"), Some("/w/b.md".to_string())),
        (r(11, "x/b.md"), Some("/w/x/b.md".to_string())),
        (r(21, "./b.md"), Some("/w/b.md".to_string())),
        (r(31, "y/b.md"), None),
    ];
    let found: Vec<usize> = select_references(resolved, "/w/b.md").into_iter().map(|r| r.column).collect();
    assert_eq!(found, vec![1, 21]);
}
