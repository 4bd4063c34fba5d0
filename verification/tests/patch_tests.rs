use base64::Engine;
use bezel_docs::embed::patch_js_text;
use bezel_docs::loader::patch_html_text;
use bezel_docs::patch::PatchError;

const SCRIPT: &str = "let wasm_bindgen;\n(function() {\n  function load(module_or_path) {\n    if (typeof module_or_path === 'undefined' && typeof script_src !== 'undefined') {\n        module_or_path = script_src.replace(/\\.js$/, '_bg.wasm');\n    }\n  }\n})();\n";

#[test]
fn js_patch_embeds_round_trip_bytes() {
    let wasm: Vec<u8> = (0u8..=255).cycle().take(700).collect();
    let out = patch_js_text(SCRIPT, &wasm).unwrap();
    let start = out.find("atob('").unwrap() + 6;
    let end = start + out[start..].find("')").unwrap();
    let embedded = &out[start..end];
    let decoded = base64::engine::general_purpose::STANDARD.decode(embedded).unwrap();
    assert_eq!(decoded, wasm);
}

#[test]
fn js_patch_matches_crate_encoding() {
    let wasm = b"\x00asm\x01\x00\x00\x00".to_vec();
    let out = patch_js_text(SCRIPT, &wasm).unwrap();
    let expected = base64::engine::general_purpose::STANDARD.encode(&wasm);
    assert!(out.contains(&format!("atob('{expected}')")));
}

#[test]
fn js_patch_replaces_fetch_fallback() {
    let wasm = vec![1u8, 2, 3];
    let out = patch_js_text(SCRIPT, &wasm).unwrap();
    assert!(!out.contains("script_src.replace"));
    assert!(out.contains("if (typeof module_or_path === 'undefined') { module_or_path = __offlineWasmBytes; }"));
    assert!(out.contains("let wasm_bindgen;\n(function() {\n// Embedded binary module"));
}

#[test]
fn js_patch_without_anchor_is_an_error() {
    let js = "something else entirely\nif (typeof module_or_path === 'undefined' && typeof script_src !== 'undefined') {\nmodule_or_path = script_src.replace(/\\.js$/, '_bg.wasm');\n}\n";
    assert_eq!(patch_js_text(js, &vec![0u8]), Err(PatchError::AnchorMissing));
}

#[test]
fn js_patch_without_fetch_pattern_is_an_error() {
    let js = "let wasm_bindgen;\n(function() {\n})();\n";
    assert_eq!(patch_js_text(js, &vec![0u8]), Err(PatchError::FetchPatternMissing));
}

const SHELL: &str = "<!doctype html><html><head>\n<link rel=\"modulepreload\" href=\"/bezel-ab12.js\" crossorigin=\"anonymous\">\n<link rel=\"preload\" href=\"/bezel-ab12_bg.wasm\" as=\"fetch\" crossorigin>\n<script type=\"module\">import init from '/bezel-ab12.js';init();</script>\n</head><body></body></html>";

#[test]
fn html_patch_removes_network_constructs() {
    let out = patch_html_text(SHELL, "bezel-ab12.js").unwrap();
    assert!(!out.contains("<script type=\"module\">"));
    assert!(!out.contains("crossorigin"));
    assert!(!out.contains("modulepreload"));
    assert!(!out.contains("<link rel=\"preload\""));
    assert_eq!(out.matches("bezel-ab12.js").count(), 1);
    assert!(out.contains("<script src=\"./bezel-ab12.js\"></script>"));
    assert!(out.contains("TrunkApplicationStarted"));
    let loader_pos = out.find("<script src=").unwrap();
    let head_pos = out.find("</head>").unwrap();
    assert!(loader_pos < head_pos);
}

#[test]
fn html_patch_without_head_is_an_error() {
    assert_eq!(
        patch_html_text("<html><body></body></html>", "a.js"),
        Err(PatchError::HeadMissing)
    );
}

#[test]
fn html_patch_unclosed_module_script_is_an_error() {
    let shell = "<head><script type=\"module\">import x;</head>";
    assert_eq!(patch_html_text(shell, "a.js"), Err(PatchError::UnclosedModuleScript));
}

#[test]
fn html_patch_unclosed_link_is_an_error() {
    let shell = "<head><link rel=\"preload\" oops</head";
    assert_eq!(patch_html_text(shell, "a.js"), Err(PatchError::UnclosedLink));
}

#[test]
fn html_patch_counts_script_references() {
    let shell = "<head>a.js somewhere in text</head>";
    assert_eq!(patch_html_text(shell, "a.js"), Err(PatchError::ScriptRefMiscount));
}

#[test]
fn html_patch_keeps_plain_scripts() {
    let shell = "<head><script>var x = 1;</script></head>";
    let out = patch_html_text(shell, "a.js").unwrap();
    assert!(out.contains("<script>var x = 1;</script>"));
}

#[test]
fn crossorigin_without_value_is_stripped_with_its_spaces() {
    let shell = "<head><link rel=\"stylesheet\" href=\"x.css\"   crossorigin></head>";
    let out = patch_html_text(shell, "a.js").unwrap();
    assert!(out.contains("<link rel=\"stylesheet\" href=\"x.css\">"));
}

#[test]
fn residual_module_script_is_an_error() {
    // A script name that would smuggle a module block into the loader.
    let shell = "<head></head>";
    let js = "x<script type=\"module\">y.js";
    assert_eq!(patch_html_text(shell, js), Err(PatchError::ResidualModuleScript));
}

#[test]
fn residual_crossorigin_is_an_error() {
    let shell = "<head></head>";
    let js = "a crossorigin.js";
    assert_eq!(patch_html_text(shell, js), Err(PatchError::ResidualCrossOrigin));
}
