//! Markdown to HTML. pulldown-cmark parses the source and writes the HTML; this module decides
//! what each parsed event becomes: heading ids and their `#` links, numbered task checkboxes,
//! diagrams and highlighted code blocks.
use vstd::prelude::*;
use crate::common::{
    chars_of, decimal, eq_ignore_ascii_case, is_whitespace, leading_ws, lemma_leading_ws,
    push_decimal, range_eq_ignore_ascii_case, string_of, whitespace,
};
use crate::events::{
    html_of, markdown_events, opt_view, parsed_source, stream_sources, EventKind, EventSource,
    EventStream, Kind, ParsedEvent, ParsedMarkdown,
};
use crate::highlight::{highlight, highlight_of, Grammars};
use crate::ids::{
    fresh_id, id_set, lemma_fresh_id_is_free, push_slug, slug_text, take_id, unique_id,
};
use crate::tasks::{lemma_markers_add, lemma_no_markers, marker_checked, task_markers};
use crate::text::{escape_html, escaped};

verus! {

/// What the renderer makes of the parsed events: each piece becomes one event for the HTML writer.
pub enum Piece {
    /// Parsed event `i`, unchanged.
    Event(int),
    /// The heading start that is parsed event `i`, with id `id`.
    Heading(int, Seq<char>),
    /// The end of the heading that parsed event `i` starts.
    HeadingEnd(int),
    /// The `#` link of a heading to itself.
    Anchor(Seq<char>),
    /// Task list checkbox number `n`, checked or not.
    Checkbox(nat, bool),
    /// A mermaid diagram's source, left for the browser to draw.
    Mermaid(Seq<char>),
    /// A code block in language `lang`, highlighted as `html`.
    Highlighted(Seq<char>, Seq<char>),
    /// The text of a code block that is not highlighted.
    Text(Seq<char>),
    /// The end of a code block.
    CodeBlockEnd,
}

/// The `#` link that follows a heading's text.
pub open spec fn anchor_html(id: Seq<char>) -> Seq<char> {
    "<a class=\"anchor\" href=\"#"@ + escaped(id) + "\" aria-label=\"Link to this section\">#</a>"@
}

/// Task list checkbox number `n`, disabled until the page script enables it.
pub open spec fn checkbox_html(n: nat, checked: bool) -> Seq<char> {
    "<input type=\"checkbox\" data-task=\""@ + decimal(n) + "\" disabled=\"\""@ + (if checked {
        " checked=\"\""@
    } else {
        Seq::empty()
    }) + "/>\n"@
}

/// A mermaid diagram, its source escaped as text.
pub open spec fn mermaid_html(code: Seq<char>) -> Seq<char> {
    "<pre class=\"mermaid\">"@ + escaped(code) + "</pre>\n"@
}

/// A highlighted code block.
pub open spec fn highlighted_block_html(lang: Seq<char>, html: Seq<char>) -> Seq<char> {
    "<pre><code class=\"language-"@ + escaped(lang) + "\">"@ + html + "</code></pre>\n"@
}

/// The event that `piece` stands for, for the events of `markdown`.
pub open spec fn piece_source(markdown: Seq<char>, piece: Piece) -> EventSource {
    match piece {
        Piece::Event(i) => EventSource::Parsed { markdown, index: i as nat },
        Piece::Heading(i, id) => EventSource::Heading { markdown, index: i as nat, id },
        Piece::HeadingEnd(i) => EventSource::HeadingEnd { markdown, index: i as nat },
        Piece::Anchor(id) => EventSource::InlineHtml(anchor_html(id)),
        Piece::Checkbox(n, checked) => EventSource::InlineHtml(checkbox_html(n, checked)),
        Piece::Mermaid(code) => EventSource::Html(mermaid_html(code)),
        Piece::Highlighted(lang, html) => EventSource::Html(highlighted_block_html(lang, html)),
        Piece::Text(text) => EventSource::Text(text),
        Piece::CodeBlockEnd => EventSource::CodeBlockEnd,
    }
}

/// The events that `pieces` stand for.
pub open spec fn sources_of(markdown: Seq<char>, pieces: Seq<Piece>) -> Seq<EventSource> {
    pieces.map_values(|p: Piece| piece_source(markdown, p))
}

/// The first heading end at or after `from`, or the number of events when there is none.
pub open spec fn heading_end(ev: Seq<ParsedEvent>, from: int) -> int
    decreases ev.len() - from,
{
    if from >= ev.len() {
        ev.len() as int
    } else if ev[from].kind is HeadingEnd {
        from
    } else {
        heading_end(ev, from + 1)
    }
}

/// The first event at or after `from` that is not text, or the number of events.
pub open spec fn text_end(ev: Seq<ParsedEvent>, from: int) -> int
    decreases ev.len() - from,
{
    if from >= ev.len() {
        ev.len() as int
    } else if ev[from].kind is Text {
        text_end(ev, from + 1)
    } else {
        from
    }
}

/// The slug of the text and inline code among events `from..to`.
pub open spec fn heading_slug(ev: Seq<ParsedEvent>, from: int, to: int) -> Seq<char>
    decreases to - from,
{
    if to <= from {
        Seq::empty()
    } else {
        heading_slug(ev, from, to - 1) + match ev[to - 1].kind {
            Kind::Text(t) => slug_text(t),
            Kind::Code(t) => slug_text(t),
            _ => Seq::empty(),
        }
    }
}

/// The text of events `from..to`.
pub open spec fn code_text(ev: Seq<ParsedEvent>, from: int, to: int) -> Seq<char>
    decreases to - from,
{
    if to <= from {
        Seq::empty()
    } else {
        code_text(ev, from, to - 1) + match ev[to - 1].kind {
            Kind::Text(t) => t,
            _ => Seq::empty(),
        }
    }
}

/// The number of characters before the first whitespace in `s`.
pub open spec fn word_len(s: Seq<char>) -> nat
    decreases s.len(),
{
    if s.len() == 0 || is_whitespace(s[0]) {
        0
    } else {
        1 + word_len(s.drop_first())
    }
}

/// The first whitespace-separated word of `s`, as `split_whitespace().next()` gives it.
pub open spec fn first_word(s: Seq<char>) -> Option<Seq<char>> {
    let rest = s.skip(leading_ws(s) as int);
    if rest.len() == 0 {
        None
    } else {
        Some(rest.take(word_len(rest) as int))
    }
}

/// The event after event `j`: rendering goes on there once event `j` has been read.
pub open spec fn after(ev: Seq<ParsedEvent>, j: int) -> int {
    if j < ev.len() {
        j + 1
    } else {
        ev.len() as int
    }
}

/// The pieces of the content of a heading, events `from..to`, with `tasks` checkboxes numbered
/// before it: each event as parsed, but a task list marker becomes the next numbered checkbox.
pub open spec fn content_pieces(ev: Seq<ParsedEvent>, from: int, to: int, tasks: nat) -> Seq<Piece>
    decreases to - from,
{
    if to <= from {
        Seq::empty()
    } else {
        content_pieces(ev, from, to - 1, tasks).push(
            match ev[to - 1].kind {
                Kind::TaskListMarker(checked) => Piece::Checkbox(
                    tasks + task_markers(ev.subrange(from, to - 1)).len(),
                    checked,
                ),
                _ => Piece::Event(to - 1),
            },
        )
    }
}

/// The pieces of a heading that starts at `i`, whose content ends before `j` and that has
/// `tasks` checkboxes numbered before it.
pub open spec fn heading_pieces(
    ev: Seq<ParsedEvent>,
    i: int,
    j: int,
    id: Seq<char>,
    tasks: nat,
) -> Seq<Piece> {
    seq![Piece::Heading(i, id)] + content_pieces(ev, i + 1, j, tasks) + seq![
        Piece::Anchor(id),
        Piece::HeadingEnd(i),
    ]
}

/// The pieces of a fenced code block in `lang` that starts at `i` and holds `code`: a mermaid
/// diagram, a highlighted block, or the block as parsed with its text gathered.
pub open spec fn code_block_pieces(i: int, lang: Seq<char>, code: Seq<char>) -> Seq<Piece> {
    if eq_ignore_ascii_case(lang, "mermaid"@) {
        seq![Piece::Mermaid(code)]
    } else {
        match highlight_of(lang, code) {
            Some(html) => seq![Piece::Highlighted(lang, html)],
            None => seq![Piece::Event(i), Piece::Text(code), Piece::CodeBlockEnd],
        }
    }
}

/// What rendering makes of the heading that event `i` starts, with explicit id `explicit`, when
/// the ids in `taken` are in use and `tasks` checkboxes are numbered before it: its pieces, where
/// rendering goes on, the ids then in use and the number of checkboxes then numbered.
pub open spec fn heading_step(
    ev: Seq<ParsedEvent>,
    i: int,
    explicit: Option<Seq<char>>,
    taken: Set<Seq<char>>,
    tasks: nat,
) -> (Seq<Piece>, int, Set<Seq<char>>, nat) {
    let j = heading_end(ev, i + 1);
    let id = match explicit {
        Some(id) => id,
        None => fresh_id(heading_slug(ev, i + 1, j), taken),
    };
    (
        heading_pieces(ev, i, j, id, tasks),
        after(ev, j),
        taken.insert(id),
        tasks + task_markers(ev.subrange(i + 1, j)).len(),
    )
}

/// Where rendering goes on after the text of a code block that ends before event `j`: after the
/// event that closes it, unless that is a task list marker, which is then read on its own.
pub open spec fn after_code(ev: Seq<ParsedEvent>, j: int) -> int {
    if j < ev.len() && ev[j].kind is TaskListMarker {
        j
    } else {
        after(ev, j)
    }
}

/// What rendering makes of the fenced code block that event `i` starts, with info string `info`:
/// its pieces, and where rendering goes on.
pub open spec fn code_block_step(ev: Seq<ParsedEvent>, i: int, info: Seq<char>) -> (
    Seq<Piece>,
    int,
) {
    match first_word(info) {
        Some(lang) => {
            let j = text_end(ev, i + 1);
            (code_block_pieces(i, lang, code_text(ev, i + 1, j)), after_code(ev, j))
        },
        None => (seq![Piece::Event(i)], i + 1),
    }
}

/// What rendering makes of event `i`, with the heading ids in `taken` in use and `tasks` checkboxes
/// numbered before it: its pieces, where rendering goes on, the ids then in use and the number of
/// checkboxes then numbered.
pub open spec fn step(ev: Seq<ParsedEvent>, i: int, taken: Set<Seq<char>>, tasks: nat) -> (
    Seq<Piece>,
    int,
    Set<Seq<char>>,
    nat,
) {
    match ev[i].kind {
        Kind::HeadingStart(explicit) => heading_step(ev, i, explicit, taken, tasks),
        Kind::TaskListMarker(checked) => (seq![Piece::Checkbox(tasks, checked)], i + 1, taken, tasks
            + 1),
        Kind::FencedCodeStart(info) => {
            let c = code_block_step(ev, i, info);
            (c.0, c.1, taken, tasks)
        },
        _ => (seq![Piece::Event(i)], i + 1, taken, tasks),
    }
}

/// The heading end found from `from` on lies between `from` and the number of events.
pub proof fn lemma_heading_end_bounds(ev: Seq<ParsedEvent>, from: int)
    requires
        0 <= from,
    ensures
        from <= heading_end(ev, from) <= ev.len() || (from > ev.len() && heading_end(ev, from)
            == ev.len()),
    decreases ev.len() - from,
{
    if from < ev.len() && !(ev[from].kind is HeadingEnd) {
        lemma_heading_end_bounds(ev, from + 1);
    }
}

/// The end of the text found from `from` on lies between `from` and the number of events.
pub proof fn lemma_text_end_bounds(ev: Seq<ParsedEvent>, from: int)
    requires
        0 <= from,
    ensures
        from <= text_end(ev, from) <= ev.len() || (from > ev.len() && text_end(ev, from)
            == ev.len()),
    decreases ev.len() - from,
{
    if from < ev.len() && ev[from].kind is Text {
        lemma_text_end_bounds(ev, from + 1);
    }
}

/// Rendering goes on after the event it read.
pub proof fn lemma_step_advances(ev: Seq<ParsedEvent>, i: int, taken: Set<Seq<char>>, tasks: nat)
    requires
        0 <= i < ev.len(),
    ensures
        i < step(ev, i, taken, tasks).1 <= ev.len(),
{
    lemma_heading_end_bounds(ev, i + 1);
    lemma_text_end_bounds(ev, i + 1);
}

/// The pieces that rendering makes of the events from `i` on.
pub open spec fn plan_from(ev: Seq<ParsedEvent>, i: int, taken: Set<Seq<char>>, tasks: nat) -> Seq<
    Piece,
>
    decreases ev.len() - i,
{
    if i < 0 || i >= ev.len() {
        Seq::empty()
    } else {
        let (pieces, next, taken2, tasks2) = step(ev, i, taken, tasks);
        proof {
            lemma_step_advances(ev, i, taken, tasks);
        }
        pieces + plan_from(ev, next, taken2, tasks2)
    }
}

/// The pieces that rendering makes of a document's events.
pub open spec fn plan(ev: Seq<ParsedEvent>) -> Seq<Piece> {
    plan_from(ev, 0, Set::empty(), 0)
}

/// The events that the HTML of `markdown` is written from.
pub open spec fn rendered_sources(markdown: Seq<char>) -> Seq<EventSource> {
    sources_of(markdown, plan(markdown_events(markdown)))
}

/// What pieces of a document and what comes after them make of events: what each stands for.
proof fn lemma_sources_add(markdown: Seq<char>, a: Seq<Piece>, b: Seq<Piece>)
    ensures
        sources_of(markdown, a + b) == sources_of(markdown, a) + sources_of(markdown, b),
{
    assert(sources_of(markdown, a + b) =~= sources_of(markdown, a) + sources_of(markdown, b));
}

proof fn lemma_sources_push(markdown: Seq<char>, a: Seq<Piece>, p: Piece)
    ensures
        sources_of(markdown, a.push(p)) == sources_of(markdown, a).push(piece_source(markdown, p)),
{
    assert(sources_of(markdown, a.push(p)) =~= sources_of(markdown, a).push(
        piece_source(markdown, p),
    ));
}

proof fn lemma_heading_end_at(ev: Seq<ParsedEvent>, from: int, j: int)
    requires
        0 <= from <= j <= ev.len(),
        forall|k: int| from <= k < j ==> !(#[trigger] ev[k].kind is HeadingEnd),
        j == ev.len() || ev[j].kind is HeadingEnd,
    ensures
        heading_end(ev, from) == j,
    decreases j - from,
{
    if from < j {
        lemma_heading_end_at(ev, from + 1, j);
    }
}

proof fn lemma_text_end_at(ev: Seq<ParsedEvent>, from: int, j: int)
    requires
        0 <= from <= j <= ev.len(),
        forall|k: int| from <= k < j ==> #[trigger] ev[k].kind is Text,
        j == ev.len() || !(ev[j].kind is Text),
    ensures
        text_end(ev, from) == j,
    decreases j - from,
{
    if from < j {
        lemma_text_end_at(ev, from + 1, j);
    }
}

proof fn lemma_word_len(s: Seq<char>, n: int)
    requires
        0 <= n <= s.len(),
        forall|j: int| 0 <= j < n ==> !is_whitespace(#[trigger] s[j]),
        n == s.len() || is_whitespace(s[n]),
    ensures
        word_len(s) == n,
    decreases s.len(),
{
    if s.len() > 0 && n > 0 {
        assert forall|j: int| 0 <= j < n - 1 implies !is_whitespace(#[trigger] s.drop_first()[j]) by {
            assert(s.drop_first()[j] == s[j + 1]);
        }
        lemma_word_len(s.drop_first(), n - 1);
    }
}

fn anchor(id: &str) -> (res: String)
    ensures
        res@ == anchor_html(id@),
{
    let mut s = String::new();
    s.push_str("<a class=\"anchor\" href=\"#");
    s.push_str(escape_html(id).as_str());
    s.push_str("\" aria-label=\"Link to this section\">#</a>");
    assert(s@ =~= anchor_html(id@));
    s
}

fn checkbox(n: usize, checked: bool) -> (res: String)
    ensures
        res@ == checkbox_html(n as nat, checked),
{
    let mut s = String::new();
    s.push_str("<input type=\"checkbox\" data-task=\"");
    push_decimal(&mut s, n);
    s.push_str("\" disabled=\"\"");
    if checked {
        s.push_str(" checked=\"\"");
    }
    s.push_str("/>\n");
    assert(s@ =~= checkbox_html(n as nat, checked));
    s
}

fn mermaid(code: &str) -> (res: String)
    ensures
        res@ == mermaid_html(code@),
{
    let mut s = String::new();
    s.push_str("<pre class=\"mermaid\">");
    s.push_str(escape_html(code).as_str());
    s.push_str("</pre>\n");
    assert(s@ =~= mermaid_html(code@));
    s
}

fn highlighted_block(lang: &str, html: &str) -> (res: String)
    ensures
        res@ == highlighted_block_html(lang@, html@),
{
    let mut s = String::new();
    s.push_str("<pre><code class=\"language-");
    s.push_str(escape_html(lang).as_str());
    s.push_str("\">");
    s.push_str(html);
    s.push_str("</code></pre>\n");
    assert(s@ =~= highlighted_block_html(lang@, html@));
    s
}

/// The first heading end among the events from `from` on, or the number of events.
fn find_heading_end(parsed: &ParsedMarkdown, from: usize) -> (j: usize)
    requires
        from <= markdown_events(parsed_source(*parsed)).len(),
    ensures
        j == heading_end(markdown_events(parsed_source(*parsed)), from as int),
        from <= j <= markdown_events(parsed_source(*parsed)).len(),
{
    let ghost ev = markdown_events(parsed_source(*parsed));
    let n = parsed.len();
    let mut j = from;
    while j < n
        invariant
            ev == markdown_events(parsed_source(*parsed)),
            n == ev.len(),
            from <= j <= n,
            forall|k: int| from <= k < j ==> !(#[trigger] ev[k].kind is HeadingEnd),
        ensures
            from <= j <= n,
            forall|k: int| from <= k < j ==> !(#[trigger] ev[k].kind is HeadingEnd),
            j == n || ev[j as int].kind is HeadingEnd,
        decreases n - j,
    {
        if let EventKind::HeadingEnd = parsed.kind(j) {
            break;
        }
        j += 1;
    }
    proof {
        lemma_heading_end_at(ev, from as int, j as int);
    }
    j
}

/// Derives a heading id from the text and inline code among events `from..to` the way GitHub
/// does: lowercased, with ASCII punctuation other than `-` and `_` removed and each space
/// replaced by `-`.
pub(crate) fn slugify(parsed: &ParsedMarkdown, from: usize, to: usize) -> (slug: String)
    requires
        from <= to <= markdown_events(parsed_source(*parsed)).len(),
    ensures
        slug@ == heading_slug(markdown_events(parsed_source(*parsed)), from as int, to as int),
{
    let ghost ev = markdown_events(parsed_source(*parsed));
    let mut slug = String::new();
    let mut k = from;
    while k < to
        invariant
            ev == markdown_events(parsed_source(*parsed)),
            from <= k <= to <= ev.len(),
            slug@ == heading_slug(ev, from as int, k as int),
        decreases to - k,
    {
        let ghost before = slug@;
        match parsed.kind(k) {
            EventKind::Text(t) => push_slug(&mut slug, t.as_str()),
            EventKind::Code(t) => push_slug(&mut slug, t.as_str()),
            _ => {
                assert(slug@ =~= before + Seq::<char>::empty());
            },
        }
        k += 1;
    }
    slug
}

/// The markers among events `from..to + 1`: those among `from..to`, then event `to` if it is one.
proof fn lemma_markers_push(ev: Seq<ParsedEvent>, from: int, to: int)
    requires
        0 <= from <= to < ev.len(),
    ensures
        task_markers(ev.subrange(from, to + 1)) == if ev[to].kind is TaskListMarker {
            task_markers(ev.subrange(from, to)).push(ev[to])
        } else {
            task_markers(ev.subrange(from, to))
        },
        task_markers(ev.subrange(from, to)).len() <= to - from,
    decreases to - from,
{
    let longer = ev.subrange(from, to + 1);
    assert(longer.drop_last() =~= ev.subrange(from, to));
    assert(longer.last() == ev[to]);
    if from < to {
        lemma_markers_push(ev, from, to - 1);
    } else {
        assert(ev.subrange(from, to) =~= Seq::<ParsedEvent>::empty());
    }
}

/// Renders the heading that event `i` starts: its id, its content with its task list markers
/// made numbered checkboxes, and its `#` link.
#[verifier::spinoff_prover]
fn render_heading(
    parsed: &ParsedMarkdown,
    i: usize,
    explicit: Option<String>,
    out: &mut EventStream,
    ids: &mut Vec<String>,
    tasks: &mut usize,
) -> (next: usize)
    requires
        i < markdown_events(parsed_source(*parsed)).len(),
        markdown_events(parsed_source(*parsed))[i as int].kind == Kind::HeadingStart(
            opt_view(explicit),
        ),
        *old(tasks) <= i,
    ensures
        ({
            let st = heading_step(
                markdown_events(parsed_source(*parsed)),
                i as int,
                opt_view(explicit),
                id_set(old(ids)@),
                *old(tasks) as nat,
            );
            &&& stream_sources(*final(out)) == stream_sources(*old(out)) + sources_of(
                parsed_source(*parsed),
                st.0,
            )
            &&& next == st.1
            &&& id_set(final(ids)@) == st.2
            &&& *final(tasks) == st.3
        }),
        *final(tasks) < next,
{
    let ghost md = parsed_source(*parsed);
    let ghost ev = markdown_events(md);
    let ghost first = *tasks as nat;
    let n = parsed.len();
    // Headings hold only inline content, so the next heading end closes this one.
    let j = find_heading_end(parsed, i + 1);
    let slug = slugify(parsed, i + 1, j);
    let id = match explicit {
        Some(id) => {
            take_id(ids, id.clone());
            id
        },
        None => unique_id(ids, slug),
    };
    out.push_heading(parsed, i, id.clone());
    let ghost after_start = stream_sources(*out);
    let mut k = i + 1;
    proof {
        assert(ev.subrange(i + 1, k as int) =~= Seq::<ParsedEvent>::empty());
        assert(sources_of(md, Seq::<Piece>::empty()) =~= Seq::<EventSource>::empty());
        assert(after_start + Seq::<EventSource>::empty() =~= after_start);
    }
    while k < j
        invariant
            md == parsed_source(*parsed),
            ev == markdown_events(md),
            n == ev.len(),
            i + 1 <= k <= j <= n,
            first <= i,
            *tasks == first + task_markers(ev.subrange(i + 1, k as int)).len(),
            task_markers(ev.subrange(i + 1, k as int)).len() <= k - i - 1,
            stream_sources(*out) == after_start + sources_of(
                md,
                content_pieces(ev, i + 1, k as int, first),
            ),
        decreases j - k,
    {
        let ghost before = content_pieces(ev, i + 1, k as int, first);
        proof {
            lemma_markers_push(ev, i + 1, k as int);
        }
        match parsed.kind(k) {
            EventKind::TaskListMarker(checked) => {
                out.push_inline_html(checkbox(*tasks, checked));
                proof {
                    lemma_sources_push(md, before, Piece::Checkbox(*tasks as nat, checked));
                }
                *tasks = *tasks + 1;
            },
            _ => {
                out.push_parsed(parsed, k);
                proof {
                    lemma_sources_push(md, before, Piece::Event(k as int));
                }
            },
        }
        proof {
            assert(after_start + sources_of(md, content_pieces(ev, i + 1, k + 1, first))
                =~= stream_sources(*out));
        }
        k += 1;
    }
    let ghost after_content = stream_sources(*out);
    out.push_inline_html(anchor(id.as_str()));
    out.push_heading_end(parsed, i);
    proof {
        let content = content_pieces(ev, i + 1, j as int, first);
        let start = seq![Piece::Heading(i as int, id@)];
        let end = seq![Piece::Anchor(id@), Piece::HeadingEnd(i as int)];
        assert(heading_pieces(ev, i as int, j as int, id@, first) == start + content + end);
        assert(sources_of(md, start) =~= seq![piece_source(md, Piece::Heading(i as int, id@))]);
        assert(sources_of(md, end) =~= seq![
            piece_source(md, Piece::Anchor(id@)),
            piece_source(md, Piece::HeadingEnd(i as int)),
        ]);
        lemma_sources_add(md, start, content);
        lemma_sources_add(md, start + content, end);
        assert(stream_sources(*out) =~= stream_sources(*old(out)) + sources_of(md, start)
            + sources_of(md, content) + sources_of(md, end));
    }
    if j < n {
        j + 1
    } else {
        n
    }
}

/// Renders the fenced code block that event `i` starts, with info string `info`: as a diagram,
/// highlighted, or as parsed with its text gathered.
#[verifier::spinoff_prover]
fn render_code_block(
    grammars: &Grammars,
    parsed: &ParsedMarkdown,
    i: usize,
    info: String,
    out: &mut EventStream,
) -> (next: usize)
    requires
        i < markdown_events(parsed_source(*parsed)).len(),
        markdown_events(parsed_source(*parsed))[i as int].kind == Kind::FencedCodeStart(info@),
    ensures
        ({
            let st = code_block_step(markdown_events(parsed_source(*parsed)), i as int, info@);
            &&& stream_sources(*final(out)) == stream_sources(*old(out)) + sources_of(
                parsed_source(*parsed),
                st.0,
            )
            &&& next == st.1
        }),
{
    let ghost md = parsed_source(*parsed);
    let ghost ev = markdown_events(md);
    let n = parsed.len();
    let cs = chars_of(info.as_str());
    let mut a: usize = 0;
    while a < cs.len() && whitespace(cs[a])
        invariant
            a <= cs@.len(),
            forall|j: int| 0 <= j < a ==> is_whitespace(#[trigger] cs@[j]),
        decreases cs@.len() - a,
    {
        a += 1;
    }
    proof {
        lemma_leading_ws(cs@, a as int);
    }
    if a == cs.len() {
        out.push_parsed(parsed, i);
        proof {
            lemma_sources_push(md, Seq::empty(), Piece::Event(i as int));
            assert(sources_of(md, Seq::empty()) =~= Seq::<EventSource>::empty());
            assert(seq![Piece::Event(i as int)] =~= Seq::<Piece>::empty().push(Piece::Event(i as int)));
        }
        return i + 1;
    }
    let mut b = a;
    while b < cs.len() && !whitespace(cs[b])
        invariant
            a <= b <= cs@.len(),
            forall|j: int| a <= j < b ==> !is_whitespace(#[trigger] cs@[j]),
        decreases cs@.len() - b,
    {
        b += 1;
    }
    let lang = string_of(&cs, a, b);
    proof {
        let rest = cs@.skip(a as int);
        assert forall|j: int| 0 <= j < b - a implies !is_whitespace(#[trigger] rest[j]) by {
            assert(rest[j] == cs@[a + j]);
        }
        lemma_word_len(rest, b - a);
        assert(rest.take(b - a) =~= cs@.subrange(a as int, b as int));
        assert(first_word(info@) == Some(lang@));
    }
    let mut code = String::new();
    let mut j = i + 1;
    while j < n
        invariant
            ev == markdown_events(parsed_source(*parsed)),
            n == ev.len(),
            i < j <= n,
            code@ == code_text(ev, i + 1, j as int),
            forall|k: int| i + 1 <= k < j ==> #[trigger] ev[k].kind is Text,
        ensures
            i < j <= n,
            code@ == code_text(ev, i + 1, j as int),
            forall|k: int| i + 1 <= k < j ==> #[trigger] ev[k].kind is Text,
            j == n || !(ev[j as int].kind is Text),
        decreases n - j,
    {
        match parsed.kind(j) {
            EventKind::Text(t) => {
                code.push_str(t.as_str());
            },
            _ => {
                break;
            },
        }
        j += 1;
    }
    proof {
        lemma_text_end_at(ev, i + 1, j as int);
        assert(sources_of(md, Seq::empty()) =~= Seq::<EventSource>::empty());
    }
    // A task list marker is never what closes a code block's text, but were it one, it would
    // still be read, and numbered, on its own.
    let next = if j < n {
        match parsed.kind(j) {
            EventKind::TaskListMarker(_) => j,
            _ => j + 1,
        }
    } else {
        n
    };
    let word = chars_of("mermaid");
    if range_eq_ignore_ascii_case(&cs, a, b, &word) {
        out.push_html(mermaid(code.as_str()));
        proof {
            lemma_sources_push(md, Seq::empty(), Piece::Mermaid(code@));
            assert(seq![Piece::Mermaid(code@)] =~= Seq::<Piece>::empty().push(Piece::Mermaid(code@)));
        }
    } else {
        match highlight(grammars, lang.as_str(), code.as_str()) {
            Some(h) => {
                out.push_html(highlighted_block(lang.as_str(), h.as_str()));
                proof {
                    let p = Piece::Highlighted(lang@, h@);
                    lemma_sources_push(md, Seq::empty(), p);
                    assert(seq![p] =~= Seq::<Piece>::empty().push(p));
                }
            },
            None => {
                let ghost text = code@;
                out.push_parsed(parsed, i);
                out.push_text(code);
                out.push_code_block_end();
                proof {
                    let e = Piece::Event(i as int);
                    let t = Piece::Text(text);
                    let c = Piece::CodeBlockEnd;
                    lemma_sources_push(md, Seq::empty(), e);
                    lemma_sources_push(md, seq![e], t);
                    lemma_sources_push(md, seq![e, t], c);
                    assert(seq![e] =~= Seq::<Piece>::empty().push(e));
                    assert(seq![e, t] =~= seq![e].push(t));
                    assert(seq![e, t, c] =~= seq![e, t].push(c));
                }
            },
        }
    }
    next
}

/// Unfolds `plan_from` once.
proof fn lemma_plan_step(ev: Seq<ParsedEvent>, i: int, taken: Set<Seq<char>>, tasks: nat)
    requires
        0 <= i < ev.len(),
    ensures
        ({
            let st = step(ev, i, taken, tasks);
            plan_from(ev, i, taken, tasks) == st.0 + plan_from(ev, st.1, st.2, st.3)
        }),
{
    lemma_step_advances(ev, i, taken, tasks);
}

/// Renders event `i` and what belongs to it, with the heading ids in `ids` in use and `tasks`
/// checkboxes numbered before it, and returns where rendering goes on.
fn render_event(
    grammars: &Grammars,
    parsed: &ParsedMarkdown,
    i: usize,
    out: &mut EventStream,
    ids: &mut Vec<String>,
    tasks: &mut usize,
) -> (next: usize)
    requires
        i < markdown_events(parsed_source(*parsed)).len(),
        *old(tasks) <= i,
    ensures
        ({
            let st = step(
                markdown_events(parsed_source(*parsed)),
                i as int,
                id_set(old(ids)@),
                *old(tasks) as nat,
            );
            &&& stream_sources(*final(out)) == stream_sources(*old(out)) + sources_of(
                parsed_source(*parsed),
                st.0,
            )
            &&& next == st.1
            &&& id_set(final(ids)@) == st.2
            &&& *final(tasks) == st.3
        }),
        *final(tasks) <= next,
{
    let ghost md = parsed_source(*parsed);
    let ghost ev = markdown_events(md);
    let n = parsed.len();
    proof {
        lemma_step_advances(ev, i as int, id_set(ids@), *tasks as nat);
    }
    match parsed.kind(i) {
        EventKind::HeadingStart(explicit) => render_heading(parsed, i, explicit, out, ids, tasks),
        EventKind::TaskListMarker(checked) => {
            out.push_inline_html(checkbox(*tasks, checked));
            proof {
                let p = Piece::Checkbox(*tasks as nat, checked);
                lemma_sources_push(md, Seq::empty(), p);
                assert(sources_of(md, Seq::empty()) =~= Seq::<EventSource>::empty());
                assert(seq![p] =~= Seq::<Piece>::empty().push(p));
            }
            *tasks = *tasks + 1;
            i + 1
        },
        EventKind::FencedCodeStart(info) => render_code_block(grammars, parsed, i, info, out),
        _ => {
            out.push_parsed(parsed, i);
            proof {
                let p = Piece::Event(i as int);
                lemma_sources_push(md, Seq::empty(), p);
                assert(sources_of(md, Seq::empty()) =~= Seq::<EventSource>::empty());
                assert(seq![p] =~= Seq::<Piece>::empty().push(p));
            }
            i + 1
        },
    }
}

/// Renders markdown to HTML. Headings get an `id` and a `#` link to themselves. Fenced code blocks
/// whose info string names a supported language are syntax highlighted, `mermaid` blocks are left
/// for the page to draw as diagrams, and other code blocks are rendered as plain text. Task list
/// checkboxes are numbered in document order, the way `toggle_task` counts them.
pub fn render_markdown(grammars: &Grammars, markdown: &str) -> (html: String)
    ensures
        html@ == html_of(rendered_sources(markdown@)),
{
    let parsed = ParsedMarkdown::parse(markdown);
    let ghost md = markdown@;
    let ghost ev = markdown_events(md);
    let n = parsed.len();
    let mut out = EventStream::new();
    let mut ids: Vec<String> = Vec::new();
    let mut tasks: usize = 0;
    let mut i: usize = 0;
    let ghost mut done: Seq<Piece> = Seq::empty();
    proof {
        assert(id_set(ids@) =~= Set::empty());
        assert(sources_of(md, done) =~= Seq::<EventSource>::empty());
        assert(done + plan(ev) =~= plan(ev));
    }
    while i < n
        invariant
            parsed_source(parsed) == md,
            ev == markdown_events(md),
            n == ev.len(),
            i <= n,
            tasks <= i,
            stream_sources(out) == sources_of(md, done),
            done + plan_from(ev, i as int, id_set(ids@), tasks as nat) == plan(ev),
        decreases n - i,
    {
        let ghost st = step(ev, i as int, id_set(ids@), tasks as nat);
        proof {
            lemma_step_advances(ev, i as int, id_set(ids@), tasks as nat);
            lemma_plan_step(ev, i as int, id_set(ids@), tasks as nat);
            lemma_sources_add(md, done, st.0);
            assert(done + (st.0 + plan_from(ev, st.1, st.2, st.3)) =~= (done + st.0) + plan_from(
                ev,
                st.1,
                st.2,
                st.3,
            ));
        }
        i = render_event(grammars, &parsed, i, &mut out, &mut ids, &mut tasks);
        proof {
            done = done + st.0;
        }
    }
    proof {
        assert(done + Seq::<Piece>::empty() =~= done);
    }
    out.into_html()
}

/// The task list checkboxes among `pieces`: each one's number and whether it is checked.
pub open spec fn checkboxes(pieces: Seq<Piece>) -> Seq<(nat, bool)>
    decreases pieces.len(),
{
    if pieces.len() == 0 {
        Seq::empty()
    } else {
        let rest = checkboxes(pieces.drop_first());
        match pieces[0] {
            Piece::Checkbox(n, checked) => seq![(n, checked)] + rest,
            _ => rest,
        }
    }
}

/// `markers` numbered from `first` on.
pub open spec fn numbered(markers: Seq<ParsedEvent>, first: nat) -> Seq<(nat, bool)> {
    Seq::new(markers.len(), |n: int| ((first + n) as nat, marker_checked(markers[n])))
}

proof fn lemma_checkboxes_add(a: Seq<Piece>, b: Seq<Piece>)
    ensures
        checkboxes(a + b) == checkboxes(a) + checkboxes(b),
    decreases a.len(),
{
    if a.len() == 0 {
        assert(a + b =~= b);
        assert(checkboxes(a) + checkboxes(b) =~= checkboxes(b));
    } else {
        lemma_checkboxes_add(a.drop_first(), b);
        assert((a + b).drop_first() =~= a.drop_first() + b);
        assert(checkboxes(a) + checkboxes(b) =~= match a[0] {
            Piece::Checkbox(n, checked) => seq![(n, checked)] + (checkboxes(a.drop_first())
                + checkboxes(b)),
            _ => checkboxes(a.drop_first()) + checkboxes(b),
        });
    }
}

proof fn lemma_no_checkboxes(a: Seq<Piece>)
    requires
        forall|k: int| 0 <= k < a.len() ==> !(#[trigger] a[k] is Checkbox),
    ensures
        checkboxes(a) == Seq::<(nat, bool)>::empty(),
    decreases a.len(),
{
    if a.len() > 0 {
        assert(!(a[0] is Checkbox));
        assert forall|k: int| 0 <= k < a.drop_first().len() implies !(
        #[trigger] a.drop_first()[k] is Checkbox) by {
            assert(a.drop_first()[k] == a[k + 1]);
        }
        lemma_no_checkboxes(a.drop_first());
    }
}

/// The checkboxes of one piece.
proof fn lemma_one_checkbox(p: Piece)
    ensures
        checkboxes(seq![p]) == match p {
            Piece::Checkbox(n, checked) => seq![(n, checked)],
            _ => Seq::<(nat, bool)>::empty(),
        },
{
    assert(seq![p].drop_first() =~= Seq::<Piece>::empty());
    assert(checkboxes(Seq::<Piece>::empty()) == Seq::<(nat, bool)>::empty());
    assert(seq![(0nat, false)].drop_first() =~= Seq::<(nat, bool)>::empty());
    match p {
        Piece::Checkbox(n, checked) => {
            assert(seq![(n, checked)] + Seq::<(nat, bool)>::empty() =~= seq![(n, checked)]);
        },
        _ => {},
    }
}

/// Markers numbered from `tasks` on, then more markers numbered on from there.
proof fn lemma_numbered_add(a: Seq<ParsedEvent>, b: Seq<ParsedEvent>, tasks: nat)
    ensures
        numbered(a, tasks) + numbered(b, tasks + a.len()) == numbered(a + b, tasks),
{
    assert(numbered(a, tasks) + numbered(b, tasks + a.len()) =~= numbered(a + b, tasks));
}

/// A heading's content pieces are its events, each a checkbox where it is a task list marker,
/// numbered on from `tasks`.
proof fn lemma_content_pieces(ev: Seq<ParsedEvent>, from: int, to: int, tasks: nat)
    requires
        0 <= from <= to <= ev.len(),
    ensures
        ({
            let ps = content_pieces(ev, from, to, tasks);
            &&& ps.len() == to - from
            &&& forall|k: int| 0 <= k < ps.len() ==> !(#[trigger] ps[k] is Heading)
            &&& checkboxes(ps) == numbered(task_markers(ev.subrange(from, to)), tasks)
        }),
    decreases to - from,
{
    if from == to {
        assert(ev.subrange(from, to) =~= Seq::<ParsedEvent>::empty());
        assert(numbered(Seq::<ParsedEvent>::empty(), tasks) =~= Seq::<(nat, bool)>::empty());
    } else {
        lemma_content_pieces(ev, from, to - 1, tasks);
        lemma_markers_push(ev, from, to - 1);
        let before = content_pieces(ev, from, to - 1, tasks);
        let markers = task_markers(ev.subrange(from, to - 1));
        let p = match ev[to - 1].kind {
            Kind::TaskListMarker(checked) => Piece::Checkbox(tasks + markers.len(), checked),
            _ => Piece::Event(to - 1),
        };
        let ps = content_pieces(ev, from, to, tasks);
        assert(ps == before.push(p));
        assert(before.push(p) =~= before + seq![p]);
        assert forall|k: int| 0 <= k < ps.len() implies !(#[trigger] ps[k] is Heading) by {
            if k < before.len() {
                assert(ps[k] == before[k]);
            }
        }
        lemma_checkboxes_add(before, seq![p]);
        lemma_one_checkbox(p);
        if ev[to - 1].kind is TaskListMarker {
            lemma_numbered_add(markers, seq![ev[to - 1]], tasks);
            assert(markers.push(ev[to - 1]) =~= markers + seq![ev[to - 1]]);
            assert(numbered(seq![ev[to - 1]], tasks + markers.len()) =~= seq![
                (tasks + markers.len(), marker_checked(ev[to - 1])),
            ]);
        } else {
            assert(checkboxes(ps) =~= checkboxes(before));
        }
    }
}

/// The heading end found from `from` on is a heading end, unless there is none.
proof fn lemma_heading_end_stops(ev: Seq<ParsedEvent>, from: int)
    requires
        0 <= from,
    ensures
        heading_end(ev, from) < ev.len() ==> ev[heading_end(ev, from)].kind is HeadingEnd,
    decreases ev.len() - from,
{
    if from < ev.len() && !(ev[from].kind is HeadingEnd) {
        lemma_heading_end_stops(ev, from + 1);
    }
}

/// The events from `from` up to the end of the text found there are text.
proof fn lemma_text_end_texts(ev: Seq<ParsedEvent>, from: int)
    requires
        0 <= from,
    ensures
        forall|k: int| from <= k < text_end(ev, from) ==> #[trigger] ev[k].kind is Text,
    decreases ev.len() - from,
{
    if from < ev.len() && ev[from].kind is Text {
        lemma_text_end_texts(ev, from + 1);
    }
}

/// The checkboxes a step makes are the task list markers among the events it reads, numbered on
/// from `tasks`, and it counts them.
#[verifier::spinoff_prover]
proof fn lemma_step_checkboxes(ev: Seq<ParsedEvent>, i: int, taken: Set<Seq<char>>, tasks: nat)
    requires
        0 <= i < ev.len(),
    ensures
        ({
            let st = step(ev, i, taken, tasks);
            let markers = task_markers(ev.subrange(i, st.1));
            &&& checkboxes(st.0) == numbered(markers, tasks)
            &&& st.3 == tasks + markers.len()
        }),
{
    let st = step(ev, i, taken, tasks);
    lemma_step_advances(ev, i, taken, tasks);
    let next = st.1;
    let one = ev.subrange(i, i + 1);
    assert(one =~= seq![ev[i]]);
    lemma_markers_push(ev, i, i);
    assert(ev.subrange(i, i) =~= Seq::<ParsedEvent>::empty());
    assert(task_markers(Seq::<ParsedEvent>::empty()) == Seq::<ParsedEvent>::empty());
    assert(numbered(Seq::<ParsedEvent>::empty(), tasks) =~= Seq::<(nat, bool)>::empty());
    match ev[i].kind {
        Kind::HeadingStart(explicit) => {
            let j = heading_end(ev, i + 1);
            lemma_heading_end_bounds(ev, i + 1);
            lemma_heading_end_stops(ev, i + 1);
            let id = match explicit {
                Some(id) => id,
                None => fresh_id(heading_slug(ev, i + 1, j), taken),
            };
            let content = content_pieces(ev, i + 1, j, tasks);
            let start = seq![Piece::Heading(i, id)];
            let end = seq![Piece::Anchor(id), Piece::HeadingEnd(i)];
            lemma_content_pieces(ev, i + 1, j, tasks);
            lemma_checkboxes_add(start, content);
            lemma_checkboxes_add(start + content, end);
            lemma_no_checkboxes(start);
            lemma_no_checkboxes(end);
            assert(checkboxes(st.0) =~= checkboxes(content));
            let inner = ev.subrange(i + 1, j);
            let closing = ev.subrange(j, next);
            assert(ev.subrange(i, next) =~= one + inner + closing);
            lemma_markers_add(one, inner);
            lemma_markers_add(one + inner, closing);
            assert forall|k: int| 0 <= k < closing.len() implies !(
            #[trigger] closing[k].kind is TaskListMarker) by {
                assert(closing[k] == ev[j]);
            }
            lemma_no_markers(closing);
            assert(task_markers(ev.subrange(i, next)) =~= task_markers(inner));
        },
        Kind::TaskListMarker(checked) => {
            lemma_one_checkbox(Piece::Checkbox(tasks, checked));
            assert(task_markers(one) =~= seq![ev[i]]);
            assert(numbered(seq![ev[i]], tasks) =~= seq![(tasks, checked)]);
        },
        Kind::FencedCodeStart(info) => {
            assert forall|k: int| 0 <= k < st.0.len() implies !(#[trigger] st.0[k] is Checkbox) by {
            }
            lemma_no_checkboxes(st.0);
            let j = text_end(ev, i + 1);
            lemma_text_end_bounds(ev, i + 1);
            lemma_text_end_texts(ev, i + 1);
            let range = ev.subrange(i, next);
            assert forall|k: int| 0 <= k < range.len() implies !(
            #[trigger] range[k].kind is TaskListMarker) by {
                assert(range[k] == ev[i + k]);
                if first_word(info) is Some && 0 < k && i + k < j {
                    assert(ev[i + k].kind is Text);
                }
            }
            lemma_no_markers(range);
        },
        _ => {
            lemma_one_checkbox(Piece::Event(i));
        },
    }
}

#[verifier::spinoff_prover]
proof fn lemma_checkboxes_from(ev: Seq<ParsedEvent>, i: int, taken: Set<Seq<char>>, tasks: nat)
    requires
        0 <= i <= ev.len(),
    ensures
        checkboxes(plan_from(ev, i, taken, tasks)) == numbered(task_markers(ev.skip(i)), tasks),
    decreases ev.len() - i,
{
    if i == ev.len() {
        assert(ev.skip(i) =~= Seq::<ParsedEvent>::empty());
        assert(numbered(Seq::empty(), tasks) =~= Seq::<(nat, bool)>::empty());
    } else {
        let st = step(ev, i, taken, tasks);
        let next = st.1;
        let later = plan_from(ev, next, st.2, st.3);
        let markers = task_markers(ev.subrange(i, next));
        lemma_step_advances(ev, i, taken, tasks);
        lemma_plan_step(ev, i, taken, tasks);
        lemma_step_checkboxes(ev, i, taken, tasks);
        lemma_checkboxes_from(ev, next, st.2, st.3);
        lemma_checkboxes_add(st.0, later);
        assert(ev.skip(i) =~= ev.subrange(i, next) + ev.skip(next));
        lemma_markers_add(ev.subrange(i, next), ev.skip(next));
        lemma_numbered_add(markers, task_markers(ev.skip(next)), tasks);
    }
}

/// Task list checkboxes are numbered in document order, the way `toggle_task` counts them:
/// checkbox `n` of the page shows task list marker `n` of the document, checked as it is.
pub proof fn lemma_checkboxes_follow_markers(markdown: Seq<char>)
    ensures
        checkboxes(plan(markdown_events(markdown))) == numbered(
            task_markers(markdown_events(markdown)),
            0,
        ),
{
    let ev = markdown_events(markdown);
    lemma_checkboxes_from(ev, 0, Set::empty(), 0);
    assert(ev.skip(0) =~= ev);
}

/// The headings among `pieces`: the event that starts each one, and its id, in order.
pub open spec fn headings(pieces: Seq<Piece>) -> Seq<(int, Seq<char>)>
    decreases pieces.len(),
{
    if pieces.len() == 0 {
        Seq::empty()
    } else {
        let rest = headings(pieces.drop_first());
        match pieces[0] {
            Piece::Heading(i, id) => seq![(i, id)] + rest,
            _ => rest,
        }
    }
}

/// Whether the heading that event `i` starts takes its id from its text, having no `{#id}`.
pub open spec fn derives_id(ev: Seq<ParsedEvent>, i: int) -> bool {
    ev[i].kind == Kind::HeadingStart(None)
}

/// Whether each heading of `hs` whose id is derived from its text has an id that is not in
/// `taken` and that no heading before it has.
pub open spec fn derived_ids_fresh(
    ev: Seq<ParsedEvent>,
    hs: Seq<(int, Seq<char>)>,
    taken: Set<Seq<char>>,
) -> bool {
    forall|b: int|
        0 <= b < hs.len() && derives_id(ev, #[trigger] hs[b].0) ==> !taken.contains(hs[b].1)
            && forall|a: int| 0 <= a < b ==> #[trigger] hs[a].1 != hs[b].1
}

proof fn lemma_headings_add(a: Seq<Piece>, b: Seq<Piece>)
    ensures
        headings(a + b) == headings(a) + headings(b),
    decreases a.len(),
{
    if a.len() == 0 {
        assert(a + b =~= b);
        assert(headings(a) + headings(b) =~= headings(b));
    } else {
        lemma_headings_add(a.drop_first(), b);
        assert((a + b).drop_first() =~= a.drop_first() + b);
        assert(headings(a) + headings(b) =~= match a[0] {
            Piece::Heading(i, id) => seq![(i, id)] + (headings(a.drop_first()) + headings(b)),
            _ => headings(a.drop_first()) + headings(b),
        });
    }
}

proof fn lemma_no_headings(a: Seq<Piece>)
    requires
        forall|k: int| 0 <= k < a.len() ==> !(#[trigger] a[k] is Heading),
    ensures
        headings(a) == Seq::<(int, Seq<char>)>::empty(),
    decreases a.len(),
{
    if a.len() > 0 {
        assert(!(a[0] is Heading));
        assert forall|k: int| 0 <= k < a.drop_first().len() implies !(
        #[trigger] a.drop_first()[k] is Heading) by {
            assert(a.drop_first()[k] == a[k + 1]);
        }
        lemma_no_headings(a.drop_first());
    }
}

/// The headings a step makes: the one it starts, with the id it is given, or none.
proof fn lemma_step_headings(ev: Seq<ParsedEvent>, i: int, taken: Set<Seq<char>>, tasks: nat)
    requires
        0 <= i < ev.len(),
    ensures
        ({
            let st = step(ev, i, taken, tasks);
            &&& ev[i].kind is HeadingStart ==> exists|id: Seq<char>|
                #![trigger taken.insert(id)]
                headings(st.0) == seq![(i, id)] && st.2 == taken.insert(id) && (derives_id(ev, i)
                    ==> id == fresh_id(heading_slug(ev, i + 1, heading_end(ev, i + 1)), taken))
            &&& !(ev[i].kind is HeadingStart) ==> headings(st.0) == Seq::<(int, Seq<char>)>::empty()
                && st.2 == taken
        }),
{
    let st = step(ev, i, taken, tasks);
    match ev[i].kind {
        Kind::HeadingStart(explicit) => {
            let j = heading_end(ev, i + 1);
            let id = match explicit {
                Some(id) => id,
                None => fresh_id(heading_slug(ev, i + 1, j), taken),
            };
            lemma_heading_end_bounds(ev, i + 1);
            let ps = heading_pieces(ev, i, j, id, tasks);
            assert(st.0 == ps);
            let content = content_pieces(ev, i + 1, j, tasks);
            lemma_content_pieces(ev, i + 1, j, tasks);
            let tail = ps.drop_first();
            assert forall|k: int| 0 <= k < tail.len() implies !(#[trigger] tail[k] is Heading) by {
                if k < content.len() {
                    assert(tail[k] == content[k]);
                }
            }
            lemma_no_headings(tail);
            assert(headings(ps) =~= seq![(i, id)]);
            assert(st.2 == taken.insert(id));
        },
        _ => {
            assert forall|k: int| 0 <= k < st.0.len() implies !(#[trigger] st.0[k] is Heading) by {
            }
            lemma_no_headings(st.0);
        },
    }
}

#[verifier::spinoff_prover]
proof fn lemma_ids_fresh_from(ev: Seq<ParsedEvent>, i: int, taken: Set<Seq<char>>, tasks: nat)
    requires
        0 <= i <= ev.len(),
        taken.finite(),
    ensures
        derived_ids_fresh(ev, headings(plan_from(ev, i, taken, tasks)), taken),
    decreases ev.len() - i,
{
    if i < ev.len() {
        let st = step(ev, i, taken, tasks);
        let later = plan_from(ev, st.1, st.2, st.3);
        lemma_step_advances(ev, i, taken, tasks);
        lemma_plan_step(ev, i, taken, tasks);
        lemma_headings_add(st.0, later);
        lemma_step_headings(ev, i, taken, tasks);
        let hs = headings(plan_from(ev, i, taken, tasks));
        let rest = headings(later);
        if ev[i].kind is HeadingStart {
            let id = choose|id: Seq<char>|
                #![trigger taken.insert(id)]
                headings(st.0) == seq![(i, id)] && st.2 == taken.insert(id) && (derives_id(ev, i)
                    ==> id == fresh_id(heading_slug(ev, i + 1, heading_end(ev, i + 1)), taken));
            lemma_ids_fresh_from(ev, st.1, taken.insert(id), st.3);
            if derives_id(ev, i) {
                lemma_fresh_id_is_free(heading_slug(ev, i + 1, heading_end(ev, i + 1)), taken);
            }
            assert(hs == seq![(i, id)] + rest);
            assert forall|b: int|
                0 <= b < hs.len() && derives_id(ev, #[trigger] hs[b].0) implies !taken.contains(
                hs[b].1) && forall|a: int| 0 <= a < b ==> #[trigger] hs[a].1 != hs[b].1 by {
                if b > 0 {
                    assert(hs[b] == rest[b - 1]);
                    assert forall|a: int| 0 <= a < b implies #[trigger] hs[a].1 != hs[b].1 by {
                        if a > 0 {
                            assert(hs[a] == rest[a - 1]);
                        }
                    }
                }
            }
        } else {
            lemma_ids_fresh_from(ev, st.1, st.2, st.3);
            assert(hs =~= rest);
        }
    }
}

/// Headings link to themselves with ids that do not collide: an id derived from a heading's text
/// is never the id of a heading before it on the page. An id written as `{#id}` is kept as
/// written.
pub proof fn lemma_derived_heading_ids_are_unique(markdown: Seq<char>)
    ensures
        ({
            let ev = markdown_events(markdown);
            let hs = headings(plan(ev));
            forall|a: int, b: int|
                0 <= a < b < hs.len() && derives_id(ev, #[trigger] hs[b].0) ==> #[trigger] hs[a].1
                    != hs[b].1
        }),
{
    let ev = markdown_events(markdown);
    lemma_ids_fresh_from(ev, 0, Set::empty(), 0);
}

} // verus!
