use mdreader::assets::{etag, Assets, PageSource};
use mdreader::highlight::Grammars;
use mdreader::server::{
    dir_file_page, file_page, index_page, is_root, is_unchanged, route, toggle_request, Route,
    ToggleOutcome,
};
use mdreader::text::{etag_matches, percent_encode};
use mdreader::tree::{contains_file, Node};

fn tree() -> Vec<Node> {
    vec![
        Node::Dir {
            name: "docs".to_string(),
            children: vec![Node::File {
                name: "a b.md".to_string(),
                path: "docs/a b.md".to_string(),
            }],
        },
        Node::File {
            name: "README.md".to_string(),
            path: "README.md".to_string(),
        },
    ]
}

fn file_route(r: Route) -> Option<String> {
    match r {
        Route::File(path) => Some(path),
        _ => None,
    }
}

#[test]
fn routes_only_to_files_of_the_walk() {
    let tree = tree();
    assert!(matches!(route(&tree, "/"), Route::Index));
    assert!(matches!(route(&tree, "/?task=1"), Route::Index));
    assert_eq!(file_route(route(&tree, "/README.md")).as_deref(), Some("README.md"));
    assert_eq!(file_route(route(&tree, "/docs/a%20b.md#top")).as_deref(), Some("docs/a b.md"));
    assert!(matches!(route(&tree, "/../etc/passwd"), Route::NotFound));
    assert!(matches!(route(&tree, "/docs"), Route::NotFound));
    // A malformed escape, and an escape that is not UTF-8.
    assert!(matches!(route(&tree, "/%zz"), Route::NotFound));
    assert!(matches!(route(&tree, "/%FF.md"), Route::NotFound));
    // Whatever is routed to is a file of the tree.
    for url in ["/README.md", "/docs/a%20b.md", "/docs/a b.md", "/x.md"] {
        if let Route::File(path) = route(&tree, url) {
            assert!(contains_file(&tree, &path));
        }
    }
}

#[test]
fn serves_a_single_file_at_the_root_only() {
    assert!(is_root("/"));
    assert!(is_root("/?task=1&checked=true"));
    assert!(!is_root("/other.md"));
    assert!(!is_root(""));
}

#[test]
fn answers_not_modified_for_a_known_version() {
    let etag = "\"00ff\"";
    assert!(is_unchanged(&vec!["\"abcd\"".to_string(), "W/\"00ff\"".to_string()], etag));
    assert!(!is_unchanged(&vec!["\"abcd\"".to_string()], etag));
    assert!(!is_unchanged(&Vec::new(), etag));
}

#[test]
fn a_page_entity_tag_matches_itself() {
    let assets = Assets::default();
    let tag = etag(&PageSource::File { assets: &assets, markdown: "# Hi\n" });
    assert_eq!(tag.len(), 18);
    assert!(tag.starts_with('"') && tag.ends_with('"'));
    assert!(etag_matches(&tag, &tag));
    assert!(etag_matches(&format!("W/{tag}"), &tag));
    let other = etag(&PageSource::File { assets: &assets, markdown: "# Ho\n" });
    assert_ne!(tag, other);
    let tree = tree();
    let index = etag(&PageSource::Index { tree: &tree, assets: &assets });
    let page = etag(&PageSource::DirFile { tree: &tree, assets: &assets, markdown: "# Hi\n" });
    assert_ne!(index, page);
}

fn refused(outcome: ToggleOutcome) -> (u16, String) {
    match outcome {
        ToggleOutcome::Refused { status, message } => (status, message),
        ToggleOutcome::Done { .. } => panic!("expected a refusal"),
    }
}

fn done(outcome: ToggleOutcome) -> (String, bool) {
    match outcome {
        ToggleOutcome::Done { markdown, changed } => (markdown, changed),
        ToggleOutcome::Refused { status, message } => panic!("refused: {status} {message}"),
    }
}

#[test]
fn refuses_malformed_toggle_requests() {
    let md = "- [ ] one\n";
    let tag = "\"aaaa\"";
    let expected = "expected ?task=<index>&checked=<true|false>".to_string();
    assert_eq!(refused(toggle_request("/?task=x&checked=true", Some(tag), md, tag)), (400, expected.clone()));
    assert_eq!(refused(toggle_request("/?task=0&checked=yes", Some(tag), md, tag)), (400, expected.clone()));
    assert_eq!(refused(toggle_request("/?checked=true", Some(tag), md, tag)), (400, expected));
    assert_eq!(
        refused(toggle_request("/?task=0&checked=true", None, md, tag)),
        (428, "missing If-Match header".to_string())
    );
    assert_eq!(
        refused(toggle_request("/?task=0&checked=true", Some("\"bbbb\""), md, tag)),
        (412, "the page is out of date".to_string())
    );
    assert_eq!(
        refused(toggle_request("/?task=5&checked=true", Some(tag), md, tag)),
        (400, "no task 5".to_string())
    );
}

#[test]
fn toggles_tasks_named_by_the_page() {
    let md = "- [ ] one\n";
    let tag = "\"aaaa\"";
    assert_eq!(
        done(toggle_request("/a.md?task=0&checked=true", Some(" \"aaaa\" "), md, tag)),
        ("- [x] one\n".to_string(), true)
    );
    assert_eq!(
        done(toggle_request("/?task=+0&checked=false", Some(tag), md, tag)),
        (md.to_string(), false)
    );
}

#[test]
fn builds_the_pages_of_a_file_and_a_directory() {
    let grammars = Grammars::new().expect("grammars");
    let assets = Assets::default();
    let page = file_page(&grammars, "<notes>.md", "# Hi\n", "\"00ff\"", &assets);
    assert!(page.contains("<title>&lt;notes&gt;.md</title>"));
    assert!(page.contains("<h1 id=\"hi\">Hi"));
    assert!(page.contains("content=\"&quot;00ff&quot;\""));

    let empty = index_page("root", &[], "\"00ff\"", &assets);
    assert!(empty.contains("<p>No markdown files found.</p>\n"));
    let tree = tree();
    let index = index_page("root", &tree, "\"00ff\"", &assets);
    assert!(index.contains("<p>Select a file from the sidebar.</p>\n"));
    assert!(index.contains("<nav class=\"sidebar\">"));

    let page = dir_file_page(&grammars, "root", &tree, "docs/a b.md", "a b.md", "text\n", "\"00ff\"", &assets);
    assert!(page.contains("<li><a class=\"active\" href=\"/docs/a%20b.md\">a b.md</a></li>"));
    assert!(page.contains("<li><a href=\"/README.md\">README.md</a></li>"));
    assert!(page.contains("<p>text</p>"));
}

#[test]
fn file_links_lead_to_their_files() {
    let tree = tree();
    for path in ["README.md", "docs/a b.md"] {
        let link = format!("/{}", percent_encode(path));
        assert_eq!(file_route(route(&tree, &link)).as_deref(), Some(path));
    }
}
