use mdreader::highlight::Grammars;
use mdreader::ids::{take_id, unique_id};
use mdreader::markdown::render_markdown;
use mdreader::tasks::toggle_task;
use mdreader::page::{fill_template, PageValues, TemplateError};
use mdreader::path::{display_name, is_markdown};
use mdreader::text::{escape_html, percent_decode, percent_encode, url_path};
use mdreader::tree::{add_entry, child_path, is_listed, render_sidebar, sort_nodes, EntryKind, Node};

fn grammars() -> Grammars {
    Grammars::new().expect("grammars")
}

#[test]
fn checkboxes_are_numbered_as_toggling_counts() {
    let md = "- [ ] a\n- [x] b\n- [ ] c\n";
    let html = render_markdown(&grammars(), md);
    let zero = html.find("data-task=\"0\" disabled=\"\"/>\na").unwrap();
    let one = html.find("data-task=\"1\" disabled=\"\" checked=\"\"/>\nb").unwrap();
    let two = html.find("data-task=\"2\" disabled=\"\"/>\nc").unwrap();
    assert!(zero < one && one < two);
    assert_eq!(toggle_task(md, 1, false).as_deref(), Some("- [ ] a\n- [ ] b\n- [ ] c\n"));
    assert_eq!(toggle_task(md, 2, true).as_deref(), Some("- [ ] a\n- [x] b\n- [x] c\n"));
}

#[test]
fn toggling_changes_one_byte_at_most() {
    let md = "* [ ] é ü\n* [x] ñ\n";
    let updated = toggle_task(md, 0, true).unwrap();
    assert_eq!(updated.len(), md.len());
    let changed: Vec<usize> = (0..md.len()).filter(|&i| md.as_bytes()[i] != updated.as_bytes()[i]).collect();
    assert_eq!(changed, vec![3]);
    assert_eq!(toggle_task(md, 1, true).as_deref(), Some(md));
    assert_eq!(toggle_task("no tasks\n", 0, true), None);
}

#[test]
fn renders_code_blocks() {
    let grammars = grammars();
    assert_eq!(
        render_markdown(&grammars, "```unknown\nx < y\n```\n"),
        "<pre><code class=\"language-unknown\">x &lt; y\n</code></pre>\n"
    );
    assert_eq!(render_markdown(&grammars, "```\nplain\n```\n"), "<pre><code>plain\n</code></pre>\n");
    let html = render_markdown(&grammars, "```rust extra\nfn main() {}\n```\n");
    assert!(html.starts_with("<pre><code class=\"language-rust\"><span class=\"hl-keyword\">fn</span>"), "{html}");
    assert!(html.ends_with("</code></pre>\n"), "{html}");
}

#[test]
fn keeps_explicit_ids_and_derives_the_others() {
    let html = render_markdown(&grammars(), "# One {#intro}\n# Intro\n# ÀB\n");
    assert!(html.contains("<h1 id=\"intro\">One"), "{html}");
    assert!(html.contains("<h1 id=\"intro-1\">Intro"), "{html}");
    assert!(html.contains("<h1 id=\"àb\">ÀB"), "{html}");
}

#[test]
fn gives_each_derived_id_once() {
    let mut ids = Vec::new();
    assert_eq!(unique_id(&mut ids, "a".to_string()), "a");
    assert_eq!(unique_id(&mut ids, "a".to_string()), "a-1");
    assert_eq!(unique_id(&mut ids, "a".to_string()), "a-2");
    assert_eq!(unique_id(&mut ids, String::new()), "section");
    assert_eq!(unique_id(&mut ids, String::new()), "section-1");
    take_id(&mut ids, "b".to_string());
    assert_eq!(unique_id(&mut ids, "b".to_string()), "b-1");
}

#[test]
fn percent_encoding_round_trips() {
    for path in ["docs/a b.md", "ü/ñ?.md", "100%.md", "-._~/x"] {
        assert_eq!(percent_decode(&percent_encode(path)).as_deref(), Some(path));
    }
    assert_eq!(percent_encode("a b/ü.md"), "a%20b/%C3%BC.md");
    assert_eq!(percent_decode("%4"), None);
    assert_eq!(percent_decode("%C3"), None);
}

#[test]
fn escaped_text_holds_no_markup() {
    let escaped = escape_html("<a href=\"x\">&</a>");
    assert_eq!(escaped, "&lt;a href=&quot;x&quot;&gt;&amp;&lt;/a&gt;");
    assert!(!escaped.contains('<') && !escaped.contains('>') && !escaped.contains('"'));
}

#[test]
fn reads_paths_and_names() {
    assert_eq!(url_path("/a.md?x=1#y"), "/a.md");
    assert_eq!(url_path("/a.md#y?x"), "/a.md");
    assert_eq!(display_name("/home/me/notes.md"), "notes.md");
    assert_eq!(display_name("/"), "/");
    assert!(is_markdown("A.MD"));
    assert!(is_markdown("x.markdown"));
    assert!(!is_markdown(".md"));
    assert!(!is_markdown("x.txt"));
    assert!(is_listed("a.md"));
    assert!(!is_listed(".hidden.md"));
    assert_eq!(child_path("", "a.md"), "a.md");
    assert_eq!(child_path("docs", "a.md"), "docs/a.md");
}

#[test]
fn lists_and_sorts_directory_entries() {
    let mut nodes = Vec::new();
    add_entry(&mut nodes, "b.md".to_string(), "b.md".to_string(), EntryKind::File);
    add_entry(&mut nodes, "notes.txt".to_string(), "notes.txt".to_string(), EntryKind::File);
    add_entry(&mut nodes, "empty".to_string(), "empty".to_string(), EntryKind::Dir(Vec::new()));
    add_entry(&mut nodes, "link.md".to_string(), "link.md".to_string(), EntryKind::Other);
    add_entry(&mut nodes, "a.md".to_string(), "a.md".to_string(), EntryKind::File);
    let child = Node::File { name: "c.md".to_string(), path: "z/c.md".to_string() };
    add_entry(&mut nodes, "z".to_string(), "z".to_string(), EntryKind::Dir(vec![child]));
    let sorted = sort_nodes(nodes);
    let keys: Vec<(bool, String)> = sorted.iter().map(|n| {
        let (file, name) = n.sort_key();
        (file, name.to_string())
    }).collect();
    assert_eq!(
        keys,
        vec![(false, "z".to_string()), (true, "a.md".to_string()), (true, "b.md".to_string())]
    );
    let sidebar = render_sidebar("Notes & more", &sorted, Some("a.md"));
    assert!(sidebar.contains("<a class=\"root\" href=\"/\">Notes &amp; more</a>"));
    assert!(sidebar.contains("<li><span class=\"dir\">z/</span>\n<ul>\n<li><a href=\"/z/c.md\">c.md</a></li>\n</ul>\n</li>\n"));
    assert!(sidebar.contains("<li><a class=\"active\" href=\"/a.md\">a.md</a></li>"));
}

fn values() -> PageValues {
    PageValues {
        title: "T".to_string(),
        etag: "E".to_string(),
        assets: "A".to_string(),
        sidebar: "S".to_string(),
        styles: String::new(),
        scripts: String::new(),
        body: "{{title}}".to_string(),
    }
}

#[test]
fn fills_templates_in_one_pass() {
    let filled = fill_template("<{{title}}|{{body}}|{{etag}}{{assets}}{{sidebar}}>", &values());
    assert!(matches!(filled.as_deref(), Ok("<T|{{title}}|EAS>")));
    assert!(matches!(fill_template("a {{title", &values()), Err(TemplateError::Unterminated)));
    match fill_template("{{nope}}", &values()) {
        Err(TemplateError::Unknown(name)) => assert_eq!(name, "nope"),
        _ => panic!("expected an unknown placeholder"),
    }
}

#[test]
fn derived_heading_ids_never_repeat() {
    let html = render_markdown(&grammars(), "# A\n# A {#a-1}\n# A\n## a\n# b {#a}\n");
    assert!(html.contains("<h1 id=\"a\">A"), "{html}");
    assert!(html.contains("<h1 id=\"a-1\">A"), "{html}");
    assert!(html.contains("<h1 id=\"a-2\">A"), "{html}");
    assert!(html.contains("<h2 id=\"a-3\">a"), "{html}");
    // An explicit id is kept as written, even when it was given before.
    assert!(html.contains("<h1 id=\"a\">b"), "{html}");
}

#[test]
fn toggles_markers_after_extra_space_and_tabs() {
    assert_eq!(toggle_task("-  [ ] one\n", 0, true).as_deref(), Some("-  [x] one\n"));
    assert_eq!(toggle_task("-\t[ ] one\n", 0, true).as_deref(), Some("-\t[x] one\n"));
    assert_eq!(toggle_task("> - [X] quoted\n", 0, false).as_deref(), Some("> - [ ] quoted\n"));
    assert_eq!(toggle_task("- [ ] one\n", 1, true), None);
}
