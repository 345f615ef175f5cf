use mdref::Reference;

#[test]
fn test_reference_creation() {
    let reference = Reference::new("test.md".to_string(), 10, 5, "link.md".to_string());

    assert_eq!(reference.line, 10);
    assert_eq!(reference.column, 5);
    assert_eq!(reference.link_text, "link.md");
}

#[test]
fn test_reference_display() {
    let reference = Reference::new("test.md".to_string(), 10, 5, "link.md".to_string());

    let display_str = reference.to_string();
    assert!(display_str.contains("test.md"));
    assert!(display_str.contains("10"));
    assert!(display_str.contains("5"));
    assert!(display_str.contains("link.md"));
}

#[test]
fn reference_display_has_exact_form() {
    let reference = Reference::new("docs/a.md".to_string(), 12, 307, "../b.md".to_string());
    assert_eq!(reference.to_string(), "docs/a.md:12:307 - ../b.md");
}

#[test]
fn reference_display_of_zero_and_large_numbers() {
    let reference = Reference::new("x.md".to_string(), 0, 1000000, "y".to_string());
    assert_eq!(reference.to_string(), "x.md:0:1000000 - y");
}
