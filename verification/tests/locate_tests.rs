use bezel_docs::locate::pick_file;

#[test]
fn locator_skips_excluded_variant() {
    let names = vec![
        "bezel-ab12.js".to_string(),
        "bezel-ab12_bg.wasm".to_string(),
        "bezel-ab12_bg.js".to_string(),
    ];
    let i = pick_file(&names, "bezel-", ".js", Some("_bg")).unwrap();
    assert_eq!(names[i], "bezel-ab12.js");
}

#[test]
fn locator_finds_binary_module() {
    let names = vec![
        "bezel-ab12.js".to_string(),
        "bezel-ab12_bg.wasm".to_string(),
        "bezel-ab12_bg.js".to_string(),
    ];
    let i = pick_file(&names, "bezel-", "_bg.wasm", None).unwrap();
    assert_eq!(names[i], "bezel-ab12_bg.wasm");
}

#[test]
fn locator_returns_first_match() {
    let names = vec!["p-one.js".to_string(), "p-two.js".to_string()];
    assert_eq!(pick_file(&names, "p-", ".js", None), Some(0));
}

#[test]
fn locator_reports_no_match() {
    let names = vec!["style.css".to_string()];
    assert_eq!(pick_file(&names, "bezel-", ".js", None), None);
}
