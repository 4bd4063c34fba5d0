use bezel_docs::media::{bump_media_path, rewrite_media_links, DocNode};

fn bumped(u: &str) -> String {
    let mut s = u.to_string();
    bump_media_path(&mut s);
    s
}

#[test]
fn external_urls_unchanged() {
    assert_eq!(bumped("#section"), "#section");
    assert_eq!(bumped("http://example.com/a.png"), "http://example.com/a.png");
    assert_eq!(bumped("https://example.com/a.png"), "https://example.com/a.png");
    assert_eq!(bumped("data:image/png;base64,AAAA"), "data:image/png;base64,AAAA");
    assert_eq!(bumped("a/../b.png"), "a/../b.png");
}

#[test]
fn rewrite_is_idempotent_on_its_output() {
    let once = bumped("a/b.png");
    assert_eq!(bumped(&once), once);
    let once = bumped("b.png");
    assert_eq!(bumped(&once), once);
}

#[test]
fn relative_url_gets_redundant_segment() {
    assert_eq!(bumped("a/b.png"), "a/../a/b.png");
}

#[test]
fn bare_filename_gets_parent_prefix() {
    assert_eq!(bumped("b.png"), "../b.png");
}

#[test]
fn leading_dot_slash_is_trimmed_for_split() {
    assert_eq!(bumped("./img/pic.jpg"), "img/../img/pic.jpg");
    assert_eq!(bumped("./pic.jpg"), ".././pic.jpg");
}

#[test]
fn tree_rewrite_reaches_nested_images() {
    let tree = DocNode::Node {
        label: "Para".to_string(),
        parts: vec![
            DocNode::Leaf { text: "before".to_string() },
            DocNode::Node {
                label: "Emph".to_string(),
                parts: vec![DocNode::Image {
                    url: "img/deep.png".to_string(),
                    parts: vec![DocNode::Leaf { text: "alt".to_string() }],
                }],
            },
            DocNode::Image { url: "https://x/y.png".to_string(), parts: vec![] },
        ],
    };
    let out = rewrite_media_links(&tree);
    match out {
        DocNode::Node { label, parts } => {
            assert_eq!(label, "Para");
            match &parts[1] {
                DocNode::Node { parts: inner, .. } => match &inner[0] {
                    DocNode::Image { url, parts: ip } => {
                        assert_eq!(url, "img/../img/deep.png");
                        assert!(matches!(&ip[0], DocNode::Leaf { text } if text == "alt"));
                    },
                    _ => panic!("expected image"),
                },
                _ => panic!("expected node"),
            }
            match &parts[2] {
                DocNode::Image { url, .. } => assert_eq!(url, "https://x/y.png"),
                _ => panic!("expected image"),
            }
        },
        _ => panic!("expected node"),
    }
}
