use mdreader::highlight::{assemble_queries, highlight, Grammars, Queries};
use mdreader::markdown::render_markdown;
use mdreader::tasks::toggle_task;

fn grammars() -> Grammars {
    Grammars::new().expect("grammars")
}

#[test]
fn all_grammar_queries_compile() {
    assert!(Grammars::new().is_ok());
}

#[test]
fn highlights_supported_languages() {
    let grammars = grammars();
    let html = highlight(&grammars, "RS", "fn main() {}\n").unwrap();
    assert!(html.contains("<span class=\"hl-keyword\">fn</span>"), "{html}");

    // Injected languages are highlighted, and source text is escaped.
    let html = highlight(&grammars, "html", "<script>let x = 1 < 2;</script>\n").unwrap();
    assert!(html.contains("<span class=\"hl-keyword\">let</span>"), "{html}");
    assert!(html.contains("&lt;"), "{html}");

    assert_eq!(highlight(&grammars, "unknown", "x\n"), None);
}

#[test]
fn renders_mermaid_blocks_for_the_browser() {
    let html = render_markdown(&grammars(), "```Mermaid\ngraph TD\n  A --> B<br>\n```\n");
    assert_eq!(html, "<pre class=\"mermaid\">graph TD\n  A --&gt; B&lt;br&gt;\n</pre>\n");
}

#[test]
fn links_headings_to_themselves() {
    let html = render_markdown(
        &grammars(),
        "# Hello, `World`!\n## Hello World\n## Custom {#custom}\n### สวัสดี ครับ\n## ?\n",
    );
    assert_eq!(
        html,
        "<h1 id=\"hello-world\">Hello, <code>World</code>!\
         <a class=\"anchor\" href=\"#hello-world\" aria-label=\"Link to this section\">#</a></h1>\n\
         <h2 id=\"hello-world-1\">Hello World\
         <a class=\"anchor\" href=\"#hello-world-1\" aria-label=\"Link to this section\">#</a></h2>\n\
         <h2 id=\"custom\">Custom\
         <a class=\"anchor\" href=\"#custom\" aria-label=\"Link to this section\">#</a></h2>\n\
         <h3 id=\"สวัสดี-ครับ\">สวัสดี ครับ\
         <a class=\"anchor\" href=\"#สวัสดี-ครับ\" aria-label=\"Link to this section\">#</a></h3>\n\
         <h2 id=\"section\">?\
         <a class=\"anchor\" href=\"#section\" aria-label=\"Link to this section\">#</a></h2>\n"
    );
}

#[test]
fn numbers_task_list_checkboxes() {
    let html = render_markdown(&grammars(), "- [ ] one\n- [x] two\n");
    assert_eq!(
        html,
        "<ul>\n\
         <li><input type=\"checkbox\" data-task=\"0\" disabled=\"\"/>\none</li>\n\
         <li><input type=\"checkbox\" data-task=\"1\" disabled=\"\" checked=\"\"/>\ntwo</li>\n\
         </ul>\n"
    );
}

#[test]
fn toggles_task_list_items() {
    let markdown = "- [ ] one\n  - [X] two\n\n  text\n\n1. [x] three\n";
    assert_eq!(
        toggle_task(markdown, 0, true).as_deref(),
        Some("- [x] one\n  - [X] two\n\n  text\n\n1. [x] three\n")
    );
    assert_eq!(
        toggle_task(markdown, 1, false).as_deref(),
        Some("- [ ] one\n  - [ ] two\n\n  text\n\n1. [x] three\n")
    );
    assert_eq!(toggle_task(markdown, 1, true).as_deref(), Some(markdown));
    assert_eq!(
        toggle_task(markdown, 2, false).as_deref(),
        Some("- [ ] one\n  - [X] two\n\n  text\n\n1. [ ] three\n")
    );
    assert_eq!(toggle_task(markdown, 3, true), None);
}

#[test]
fn assembles_cpp_patterns_before_c() {
    let cpp = Queries { highlights: "(cpp)", jsx_highlights: None, injections: None, locals: None };
    let c = Queries { highlights: "(c)", jsx_highlights: None, injections: None, locals: None };
    let (highlights, injections, locals) = assemble_queries(2, &cpp, &c);
    assert_eq!(highlights, "(cpp)(c)");
    assert_eq!(injections, "");
    assert_eq!(locals, "");
}

#[test]
fn assembles_typescript_and_tsx_on_javascript() {
    let ts = Queries { highlights: "(ts)", jsx_highlights: None, injections: None, locals: Some("(tsl)") };
    let js = Queries {
        highlights: "(js)",
        jsx_highlights: Some("(jsx)"),
        injections: Some("(jsi)"),
        locals: Some("(jsl)"),
    };
    assert_eq!(
        assemble_queries(14, &ts, &js),
        ("(ts)(js)".to_string(), "(jsi)".to_string(), "(tsl)(jsl)".to_string())
    );
    assert_eq!(
        assemble_queries(15, &ts, &js),
        ("(ts)(js)(jsx)".to_string(), "(jsi)".to_string(), "(tsl)(jsl)".to_string())
    );
    assert_eq!(
        assemble_queries(8, &js, &js),
        ("(js)(jsx)".to_string(), "(jsi)".to_string(), "(jsl)".to_string())
    );
}

#[test]
fn assembles_other_grammars_from_their_own_queries() {
    let elixir = Queries {
        highlights: "(ex)",
        jsx_highlights: None,
        injections: Some("(exi)"),
        locals: None,
    };
    assert_eq!(
        assemble_queries(4, &elixir, &elixir),
        ("(ex)".to_string(), "(exi)".to_string(), String::new())
    );
}

#[test]
fn numbers_task_markers_inside_headings() {
    let markdown = "- [ ] one\n  ---\n- [x] two\n";
    let html = render_markdown(&grammars(), markdown);
    assert!(html.contains("<input type=\"checkbox\" data-task=\"0\" disabled=\"\"/>"));
    assert!(html.contains("<input type=\"checkbox\" data-task=\"1\" disabled=\"\" checked=\"\"/>"));
    assert!(!html.contains("data-task=\"2\""));
    assert_eq!(
        toggle_task(markdown, 1, false).as_deref(),
        Some("- [ ] one\n  ---\n- [ ] two\n")
    );
}
