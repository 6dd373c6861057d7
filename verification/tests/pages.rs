use mdreader::assets::Assets;
use mdreader::page::render_page;
use mdreader::text::{etag_matches, query_param};

#[test]
fn embeds_injected_files_in_the_page() {
    let assets = Assets {
        styles: vec!["my-callout { color: red }\n".to_string()],
        scripts: vec!["customElements.define(\"my-callout\", Callout);\n".to_string()],
    };
    let page = render_page("Doc", "<p>body</p>\n", None, "\"00ff\"", &assets);
    assert!(page.contains("<style>\nmy-callout { color: red }\n</style>"));
    assert!(page.contains(
        "<script type=\"module\">\ncustomElements.define(\"my-callout\", Callout);\n</script>"
    ));
    assert!(page.contains(&format!(
        "<meta name=\"mdreader-assets\" content=\"{}\" />",
        assets.fingerprint()
    )));
}

/// Injected JavaScript is substituted in, not scanned, so braces in it are left as written.
fn injected(script: &str) -> String {
    let assets = Assets {
        styles: Vec::new(),
        scripts: vec![script.to_string()],
    };
    render_page("Doc", "", None, "\"00ff\"", &assets)
}

#[test]
fn leaves_placeholder_like_text_in_injected_code_alone() {
    assert!(injected("const a = {{ x: 1 }};\n").contains("const a = {{ x: 1 }};"));
    assert!(injected("const b = `{{body}}`;\n").contains("const b = `{{body}}`;"));
}

#[test]
fn fingerprints_change_with_the_injected_files() {
    let one = Assets {
        styles: vec!["a{}".to_string()],
        scripts: Vec::new(),
    };
    let two = Assets {
        styles: vec!["b{}".to_string()],
        scripts: Vec::new(),
    };
    assert_ne!(one.fingerprint(), two.fingerprint());
    assert_eq!(one.fingerprint(), one.fingerprint());
}

#[test]
fn rejects_files_it_cannot_embed() {
    let mut assets = Assets::default();
    assert!(assets
        .add_asset("thing.txt", "x".to_string())
        .unwrap_err()
        .contains("expected a .css or .js file"));

    // A closing tag in the file would end the element it is embedded in.
    assert!(assets
        .add_asset("bad.js", "const s = \"</SCRIPT>\";\n".to_string())
        .unwrap_err()
        .contains("</script"));

    let mut assets = Assets::default();
    assets.add_asset("good.css", "a { color: red }\n".to_string()).expect("assets");
    assets.add_asset("good.js", "export const x = 1;\n".to_string()).expect("assets");
    assert_eq!(assets.styles, ["a { color: red }\n"]);
    assert_eq!(assets.scripts, ["export const x = 1;\n"]);
}

#[test]
fn reads_query_params() {
    let url = "/a.md?task=3&checked=true#top";
    assert_eq!(query_param(url, "task"), Some("3"));
    assert_eq!(query_param(url, "checked"), Some("true"));
    assert_eq!(query_param(url, "check"), None);
    assert_eq!(query_param("/a.md", "task"), None);
}

#[test]
fn matches_if_none_match_etags() {
    let etag = "\"00ff\"";
    assert!(etag_matches("\"00ff\"", etag));
    assert!(etag_matches("W/\"00ff\"", etag));
    assert!(etag_matches("\"abcd\", \"00ff\"", etag));
    assert!(etag_matches("*", etag));
    assert!(!etag_matches("\"abcd\"", etag));
    assert!(!etag_matches("00ff", etag));
}

#[test]
fn if_none_match_list_matches_when_either_part_does() {
    let etag = "\"abc\"";
    assert!(etag_matches(" W/\"abc\" ", etag));
    assert!(etag_matches("\"x\",\"abc\"", etag));
    assert!(etag_matches("\"abc\",\"x\"", etag));
    assert!(etag_matches("\"x\", W/\"abc\" ,\"y\"", etag));
    assert!(!etag_matches("\"x\",\"y\"", etag));
    assert!(!etag_matches(",", etag));
}
