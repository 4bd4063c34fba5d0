use bezel_docs::frontmatter::extract_frontmatter;
use bezel_docs::pages::{
    is_doc_file, make_page, rewrite_asset_prefix, slug_of_path, slug_taken, DeliveryMode, Page,
};

#[test]
fn local_mode_rewrites_to_relative_assets() {
    let html = "<img src=\"/tmp/pool/ab.png\"><img src=\"/tmp/pool/cd.png\">";
    let out = rewrite_asset_prefix(html, "/tmp/pool/", DeliveryMode::LocalFile);
    assert_eq!(out, "<img src=\"./assets/ab.png\"><img src=\"./assets/cd.png\">");
}

#[test]
fn networked_mode_rewrites_to_absolute_assets() {
    let html = "<img src=\"/tmp/pool/ab.png\">";
    let out = rewrite_asset_prefix(html, "/tmp/pool/", DeliveryMode::Networked);
    assert_eq!(out, "<img src=\"/assets/ab.png\">");
}

#[test]
fn compiled_page_carries_extracted_metadata() {
    let text = "---\ntitle: Intro\ncategory: Guide\norder: 1\n---\n# Hi\n";
    let (meta, body) = extract_frontmatter(text, "intro");
    assert_eq!(body, "# Hi\n");
    // What the conversion engine renders for the body, with a pooled path.
    let html = "<h1 id=\"hi\">Hi</h1>\n<img src=\"/pool/x.png\">";
    let page = make_page("intro", meta, html, "/pool/", DeliveryMode::LocalFile);
    assert_eq!(page.slug, "intro");
    assert_eq!(page.title, "Intro");
    assert_eq!(page.category, "Guide");
    assert_eq!(page.order, 1);
    assert!(page.html.contains("<h1 id=\"hi\">Hi</h1>"));
    assert!(page.html.contains("./assets/x.png"));
}

#[test]
fn slug_is_the_enclosing_directory() {
    assert_eq!(slug_of_path("resources/modules/intro/index.md").unwrap(), "intro");
    assert_eq!(slug_of_path("intro/index.md").unwrap(), "intro");
    assert_eq!(slug_of_path("index.md"), None);
}

#[test]
fn doc_files_are_markdown() {
    assert!(is_doc_file("index.md"));
    assert!(!is_doc_file("index.html"));
    assert!(!is_doc_file("notes.md.bak"));
}

#[test]
fn duplicate_slugs_are_detected() {
    let pages = vec![Page {
        slug: "intro".to_string(),
        title: String::new(),
        category: String::new(),
        order: 0,
        html: String::new(),
    }];
    assert!(slug_taken(&pages, "intro"));
    assert!(!slug_taken(&pages, "outro"));
}
