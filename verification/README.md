# mdreader

Serves a markdown file, or a directory of markdown files, as HTML pages that reload themselves
when the files change. Task list checkboxes on a page can be clicked to check or uncheck the item
in the file; fenced code blocks are syntax highlighted; `mermaid` blocks are drawn as diagrams.

```
mdreader <file.md|dir> [addr] [--inject <file.css|file.js>]...
```

## Layout

- `src/` is the library, written in Verus. Its own logic is proved against its contracts; the
  calls into pulldown-cmark, tree-sitter and std that it makes go through a few small trusted
  functions whose contracts are taken as given and state what those libraries do.
  - `server.rs` decides what a request is answered with: routes, `304 Not Modified`, pages, and
    task toggling with its `If-Match` check.
  - `markdown.rs` renders markdown: heading ids and anchors, numbered checkboxes, diagrams and
    highlighted code. `tasks.rs` finds the byte that checks or unchecks a task.
  - `events.rs` is the boundary with pulldown-cmark, `highlight.rs` with tree-sitter.
  - `page.rs` fills the page template, `tree.rs` builds and shows the file tree, `assets.rs`
    embeds injected files and computes entity tags, `ids.rs` keeps heading ids unique,
    `text.rs`, `path.rs` and `common.rs` handle text, URLs and paths.
- `app/main.rs` reads files, walks directories and answers HTTP requests with `tiny_http`,
  calling the library for every decision.
- `tests/` exercises the library on concrete inputs.

## What is proved

Besides the contract of each function, the library proves, among others:

- checkbox `n` of a page is the task list item that toggling item `n` changes
  (`markdown::lemma_checkboxes_follow_markers`);
- toggling changes one byte of the file at most (`tasks::lemma_toggle_changes_one_byte`);
- an id derived from a heading's text never repeats an id before it
  (`markdown::lemma_derived_heading_ids_are_unique`);
- every file link of the sidebar leads to its file, and only files found in the directory are
  served (`server::lemma_file_links_lead_to_their_files`, `server::route`);
- percent-decoding undoes percent-encoding (`text::lemma_percent_round_trip`), and escaped text
  holds no markup (`text::lemma_escaped_is_inert`);
- a page's entity tag matches itself in `If-None-Match` (`assets::lemma_etag_matches_itself`), as
  does any trimmed tag without a comma, sent as is or marked weak
  (`text::lemma_tag_matches_itself`), and a list joined at a comma matches exactly when one of its
  parts does (`text::lemma_list_joined_at_comma`);
- toggling a task leaves the file as written exactly when the task is already in the wanted state
  (`tasks::toggle_task`).

What pulldown-cmark and tree-sitter compute is named, not proved: the contracts speak of their
results through named functions (`events::markdown_events`, `events::html_of`,
`highlight::queries_compile`, `highlight::highlighted_html`). Each highlighting configuration
records what it was compiled from, and `Grammars::new` proves that configuration `g` is grammar
`g`, built from the queries of its crates put together as `highlight::assembled` says (C++ on C,
TypeScript and TSX on JavaScript, each crate's own patterns first).
