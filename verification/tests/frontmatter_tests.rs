use bezel_docs::frontmatter::extract_frontmatter;
use bezel_docs::DEFAULT_ORDER;

#[test]
fn no_delimiter_returns_input_unchanged() {
    let text = "# Hello\n\nBody text.\n";
    let (meta, body) = extract_frontmatter(text, "intro");
    assert_eq!(body, text);
    assert_eq!(meta.title, "intro");
    assert_eq!(meta.category, "Uncategorized");
    assert_eq!(meta.order, DEFAULT_ORDER);
}

#[test]
fn empty_document_defaults() {
    let (meta, body) = extract_frontmatter("", "slug");
    assert_eq!(body, "");
    assert_eq!(meta.title, "slug");
    assert_eq!(meta.category, "Uncategorized");
    assert_eq!(meta.order, DEFAULT_ORDER);
}

#[test]
fn well_formed_header_is_stripped_once() {
    let text = "---\ntitle: Intro\ncategory: Guide\norder: 1\n---\n# Hi\n";
    let (meta, body) = extract_frontmatter(text, "intro");
    assert_eq!(meta.title, "Intro");
    assert_eq!(meta.category, "Guide");
    assert_eq!(meta.order, 1);
    assert_eq!(body, "# Hi\n");
    let header_len = text.len() - body.len();
    assert_eq!(&text[..header_len], "---\ntitle: Intro\ncategory: Guide\norder: 1\n---\n");
}

#[test]
fn partial_fields_get_defaults() {
    let text = "---\ntitle: Only Title\n---\nbody";
    let (meta, body) = extract_frontmatter(text, "s");
    assert_eq!(meta.title, "Only Title");
    assert_eq!(meta.category, "Uncategorized");
    assert_eq!(meta.order, DEFAULT_ORDER);
    assert_eq!(body, "body");
}

#[test]
fn unknown_key_falls_back_to_defaults() {
    let text = "---\nauthor: someone\n---\nbody";
    let (meta, body) = extract_frontmatter(text, "s");
    assert_eq!(meta.title, "s");
    assert_eq!(meta.category, "Uncategorized");
    assert_eq!(meta.order, DEFAULT_ORDER);
    assert_eq!(body, text);
}

#[test]
fn bad_order_value_falls_back_to_defaults() {
    let text = "---\norder: soon\n---\nbody";
    let (meta, body) = extract_frontmatter(text, "s");
    assert_eq!(meta.order, DEFAULT_ORDER);
    assert_eq!(body, text);
}

#[test]
fn order_too_large_falls_back() {
    let text = "---\norder: 4294967296\n---\nbody";
    let (_, body) = extract_frontmatter(text, "s");
    assert_eq!(body, text);
}

#[test]
fn order_at_limit_parses() {
    let text = "---\norder: 4294967295\n---\nbody";
    let (meta, body) = extract_frontmatter(text, "s");
    assert_eq!(meta.order, u32::MAX);
    assert_eq!(body, "body");
}

#[test]
fn unclosed_header_falls_back() {
    let text = "---\ntitle: X\nno closing line";
    let (meta, body) = extract_frontmatter(text, "s");
    assert_eq!(meta.title, "s");
    assert_eq!(body, text);
}

#[test]
fn closing_delimiter_at_end_of_file() {
    let text = "---\ntitle: X\n---";
    let (meta, body) = extract_frontmatter(text, "s");
    assert_eq!(meta.title, "X");
    assert_eq!(body, "");
}

#[test]
fn empty_header_lines_are_skipped() {
    let text = "---\n\ntitle: X\n\n---\nrest";
    let (meta, body) = extract_frontmatter(text, "s");
    assert_eq!(meta.title, "X");
    assert_eq!(body, "rest");
}

#[test]
fn later_field_wins() {
    let text = "---\ntitle: A\ntitle: B\n---\n";
    let (meta, _) = extract_frontmatter(text, "s");
    assert_eq!(meta.title, "B");
}
