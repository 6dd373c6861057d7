//! The part of pulldown-cmark that the renderer works with: the events it parses a document
//! into, read as plain values, and the events it writes as HTML, each known by what it is.
use std::ops::Range;
use pulldown_cmark::{html, CodeBlockKind, Event, Options, Parser, Tag, TagEnd};
use vstd::prelude::*;
use vstd::utf8::encode_utf8;

verus! {

/// The view of an optional string.
pub open spec fn opt_view(s: Option<String>) -> Option<Seq<char>> {
    match s {
        Some(s) => Some(s@),
        None => None,
    }
}

/// What the renderer reads of a parsed event.
pub enum EventKind {
    /// The start of a heading, with the id written as `{#id}` after it, if any.
    HeadingStart(Option<String>),
    /// The end of a heading.
    HeadingEnd,
    /// The start of a fenced code block, with its info string.
    FencedCodeStart(String),
    /// Text.
    Text(String),
    /// Inline code.
    Code(String),
    /// A task list checkbox, and whether it is checked.
    TaskListMarker(bool),
    /// Any other event.
    Other,
}

/// The view of an `EventKind`.
pub enum Kind {
    HeadingStart(Option<Seq<char>>),
    HeadingEnd,
    FencedCodeStart(Seq<char>),
    Text(Seq<char>),
    Code(Seq<char>),
    TaskListMarker(bool),
    Other,
}

impl View for EventKind {
    type V = Kind;

    open spec fn view(&self) -> Kind {
        match self {
            EventKind::HeadingStart(id) => Kind::HeadingStart(opt_view(*id)),
            EventKind::HeadingEnd => Kind::HeadingEnd,
            EventKind::FencedCodeStart(info) => Kind::FencedCodeStart(info@),
            EventKind::Text(text) => Kind::Text(text@),
            EventKind::Code(code) => Kind::Code(code@),
            EventKind::TaskListMarker(checked) => Kind::TaskListMarker(*checked),
            EventKind::Other => Kind::Other,
        }
    }
}

/// A parsed event: what it is, and the byte range `start..end` of the source it covers.
pub struct ParsedEvent {
    pub kind: Kind,
    pub start: nat,
    pub end: nat,
}

/// What the source bytes `start..end` of a task list marker hold: spaces or tabs, `[`, then `x`
/// or `X` when it is checked and a space, tab, vertical tab or form feed when it is not, then
/// `]`; an ASCII whitespace byte follows.
pub open spec fn marker_text(bytes: Seq<u8>, start: int, end: int, checked: bool) -> bool {
    &&& 0 <= start
    &&& start + 3 <= end < bytes.len()
    &&& forall|j: int| start <= j < end - 3 ==> #[trigger] bytes[j] == 32u8 || bytes[j] == 9u8
    &&& bytes[end - 3] == 91u8
    &&& if checked {
        bytes[end - 2] == 120u8 || bytes[end - 2] == 88u8
    } else {
        bytes[end - 2] == 9u8 || bytes[end - 2] == 11u8 || bytes[end - 2] == 12u8 || bytes[end - 2]
            == 32u8
    }
    &&& bytes[end - 1] == 93u8
    &&& (9u8 <= bytes[end] <= 13u8 || bytes[end] == 32u8)
}

/// The events of a markdown document, as pulldown-cmark's parser yields them.
#[verifier::external_body]
pub struct ParsedMarkdown {
    events: Vec<(Event<'static>, Range<usize>)>,
}

/// The markdown source that a `ParsedMarkdown` holds the events of.
pub uninterp spec fn parsed_source(parsed: ParsedMarkdown) -> Seq<char>;

/// The events that pulldown-cmark's `Parser` with `Options::all()` yields for `markdown`, in
/// order, each with the source range its offset iterator reports. An event's kind is
/// `HeadingStart` with the heading's `id` for `Start(Tag::Heading)`, `HeadingEnd` for
/// `End(TagEnd::Heading)`, `FencedCodeStart` with the info string for
/// `Start(Tag::CodeBlock(Fenced))`, `Text`, `Code` and `TaskListMarker` for those events, and
/// `Other` for the rest.
pub uninterp spec fn markdown_events(markdown: Seq<char>) -> Seq<ParsedEvent>;

impl ParsedMarkdown {
    /// `Parser::new_ext(markdown, Options::all())` read through `into_offset_iter`, which yields
    /// the parser's events paired with their source ranges: the events of `markdown`.
    #[verifier::external_body]
    pub(crate) fn parse(markdown: &str) -> (res: ParsedMarkdown)
        ensures
            parsed_source(res) == markdown@,
    {
        let events = Parser::new_ext(markdown, Options::all()).into_offset_iter();
        ParsedMarkdown { events: events.map(|(event, range)| (event.into_static(), range)).collect() }
    }

    /// The number of events.
    #[verifier::external_body]
    pub(crate) fn len(&self) -> (n: usize)
        ensures
            n == markdown_events(parsed_source(*self)).len(),
    {
        self.events.len()
    }

    /// The kind of event `i`, told apart by its variant.
    #[verifier::external_body]
    pub(crate) fn kind(&self, i: usize) -> (k: EventKind)
        requires
            i < markdown_events(parsed_source(*self)).len(),
        ensures
            k@ == markdown_events(parsed_source(*self))[i as int].kind,
    {
        match &self.events[i].0 {
            Event::Start(Tag::Heading { id, .. }) => EventKind::HeadingStart(id.as_ref().map(|id| id.to_string())),
            Event::End(TagEnd::Heading(_)) => EventKind::HeadingEnd,
            Event::Start(Tag::CodeBlock(CodeBlockKind::Fenced(info))) => EventKind::FencedCodeStart(info.to_string()),
            Event::Text(text) => EventKind::Text(text.to_string()),
            Event::Code(code) => EventKind::Code(code.to_string()),
            Event::TaskListMarker(checked) => EventKind::TaskListMarker(*checked),
            _ => EventKind::Other,
        }
    }

    /// The byte range of the source that event `i` covers. The parser reports a task list marker
    /// where it scanned one, so its range holds what `marker_text` says.
    #[verifier::external_body]
    pub(crate) fn range(&self, i: usize) -> (r: (usize, usize))
        requires
            i < markdown_events(parsed_source(*self)).len(),
        ensures
            r.0 == markdown_events(parsed_source(*self))[i as int].start,
            r.1 == markdown_events(parsed_source(*self))[i as int].end,
            markdown_events(parsed_source(*self))[i as int].kind matches Kind::TaskListMarker(
                checked,
            ) ==> marker_text(encode_utf8(parsed_source(*self)), r.0 as int, r.1 as int, checked),
    {
        let range = &self.events[i].1;
        (range.start, range.end)
    }
}

/// What an event handed to the HTML writer is.
pub enum EventSource {
    /// Event `index` of the events of `markdown`, as parsed.
    Parsed { markdown: Seq<char>, index: nat },
    /// The heading start that is event `index` of `markdown`, with its id set to `id`.
    Heading { markdown: Seq<char>, index: nat, id: Seq<char> },
    /// The end of the heading that event `index` of `markdown` starts.
    HeadingEnd { markdown: Seq<char>, index: nat },
    /// `Event::Text`.
    Text(Seq<char>),
    /// `Event::Html`.
    Html(Seq<char>),
    /// `Event::InlineHtml`.
    InlineHtml(Seq<char>),
    /// The end of a code block.
    CodeBlockEnd,
}

/// Events to be written as HTML.
#[verifier::external_body]
pub struct EventStream {
    events: Vec<Event<'static>>,
}

/// What the events of a stream are.
pub uninterp spec fn stream_sources(stream: EventStream) -> Seq<EventSource>;

/// The HTML that `pulldown_cmark::html::push_html` writes for the events that `sources` are.
pub uninterp spec fn html_of(sources: Seq<EventSource>) -> Seq<char>;

impl EventStream {
    /// An empty stream.
    #[verifier::external_body]
    pub(crate) fn new() -> (res: EventStream)
        ensures
            stream_sources(res) == Seq::<EventSource>::empty(),
    {
        EventStream { events: Vec::new() }
    }

    /// Appends event `i` of `parsed` unchanged.
    #[verifier::external_body]
    pub(crate) fn push_parsed(&mut self, parsed: &ParsedMarkdown, i: usize)
        requires
            i < markdown_events(parsed_source(*parsed)).len(),
        ensures
            stream_sources(*final(self)) == stream_sources(*old(self)).push(
                EventSource::Parsed { markdown: parsed_source(*parsed), index: i as nat },
            ),
    {
        self.events.push(parsed.events[i].0.clone());
    }

    /// Appends the heading start that is event `i` of `parsed`, with its id set to `id`.
    #[verifier::external_body]
    pub(crate) fn push_heading(&mut self, parsed: &ParsedMarkdown, i: usize, id: String)
        requires
            i < markdown_events(parsed_source(*parsed)).len(),
            markdown_events(parsed_source(*parsed))[i as int].kind is HeadingStart,
        ensures
            stream_sources(*final(self)) == stream_sources(*old(self)).push(
                EventSource::Heading { markdown: parsed_source(*parsed), index: i as nat, id: id@ },
            ),
    {
        if let Event::Start(Tag::Heading { level, classes, attrs, .. }) = parsed.events[i].0.clone() {
            self.events.push(Event::Start(Tag::Heading { level, id: Some(id.into()), classes, attrs }));
        }
    }

    /// Appends the end of the heading that event `i` of `parsed` starts, made by `Tag::to_end`.
    #[verifier::external_body]
    pub(crate) fn push_heading_end(&mut self, parsed: &ParsedMarkdown, i: usize)
        requires
            i < markdown_events(parsed_source(*parsed)).len(),
            markdown_events(parsed_source(*parsed))[i as int].kind is HeadingStart,
        ensures
            stream_sources(*final(self)) == stream_sources(*old(self)).push(
                EventSource::HeadingEnd { markdown: parsed_source(*parsed), index: i as nat },
            ),
    {
        if let Event::Start(tag) = &parsed.events[i].0 {
            self.events.push(Event::End(tag.to_end()));
        }
    }

    /// Appends `Event::Text`.
    #[verifier::external_body]
    pub(crate) fn push_text(&mut self, text: String)
        ensures
            stream_sources(*final(self)) == stream_sources(*old(self)).push(EventSource::Text(text@)),
    {
        self.events.push(Event::Text(text.into()));
    }

    /// Appends `Event::Html`.
    #[verifier::external_body]
    pub(crate) fn push_html(&mut self, html: String)
        ensures
            stream_sources(*final(self)) == stream_sources(*old(self)).push(EventSource::Html(html@)),
    {
        self.events.push(Event::Html(html.into()));
    }

    /// Appends `Event::InlineHtml`.
    #[verifier::external_body]
    pub(crate) fn push_inline_html(&mut self, html: String)
        ensures
            stream_sources(*final(self)) == stream_sources(*old(self)).push(
                EventSource::InlineHtml(html@),
            ),
    {
        self.events.push(Event::InlineHtml(html.into()));
    }

    /// Appends `Event::End(TagEnd::CodeBlock)`.
    #[verifier::external_body]
    pub(crate) fn push_code_block_end(&mut self)
        ensures
            stream_sources(*final(self)) == stream_sources(*old(self)).push(EventSource::CodeBlockEnd),
    {
        self.events.push(Event::End(TagEnd::CodeBlock));
    }

    /// `pulldown_cmark::html::push_html` on the events: their HTML.
    #[verifier::external_body]
    pub(crate) fn into_html(self) -> (res: String)
        ensures
            res@ == html_of(stream_sources(self)),
    {
        let mut out = String::new();
        html::push_html(&mut out, self.events.into_iter());
        out
    }
}

} // verus!
