//! What the server answers: which page a request names, whether the browser's copy is still
//! current, the pages themselves, and what a request to check or uncheck a task does. Reading
//! files and sockets is left to the caller, which hands over what it read.
use vstd::prelude::*;
use crate::assets::Assets;
use vstd::utf8::{encode_utf8, leading_byte_width_1};
use crate::common::{
    chars_of, decimal, lemma_index_of, push_decimal, range_eq, string_of, trim_range, trimmed,
};
use crate::highlight::Grammars;
use crate::events::html_of;
use crate::markdown::{render_markdown, rendered_sources};
use crate::tasks::{toggle_task, toggled_task};
use crate::page::{page_text, render_page};
use crate::text::{
    etag_matches, lemma_percent_encoded_is_path, lemma_percent_round_trip, list_matches,
    parse_usize, parsed_usize, path_end, percent_decode, percent_decoded_str, percent_encoded,
    query_param, query_value, url_path,
};
use crate::tree::{contains_file, render_sidebar, sidebar_html, str_eq, tree_has_file, Node};

verus! {

/// What a request names in a served directory.
pub enum Route {
    /// Nothing that is served.
    NotFound,
    /// The directory's index page.
    Index,
    /// The markdown file at this path, relative to the directory.
    File(String),
}

/// The view of a `Route`.
pub enum Target {
    NotFound,
    Index,
    File(Seq<char>),
}

impl View for Route {
    type V = Target;

    open spec fn view(&self) -> Target {
        match self {
            Route::NotFound => Target::NotFound,
            Route::Index => Target::Index,
            Route::File(path) => Target::File(path@),
        }
    }
}

/// The path that a request URL names: its path part, percent-decoded, without a leading `/`.
pub open spec fn requested_path(url: Seq<char>) -> Option<Seq<char>> {
    match percent_decoded_str(url.take(path_end(url) as int)) {
        Some(p) => Some(
            if p.len() > 0 && p[0] == '/' {
                p.drop_first()
            } else {
                p
            },
        ),
        None => None,
    }
}

/// What a request for `url` names in a directory whose markdown files are `tree`: the index page
/// for the root, a file of the tree, or nothing.
pub open spec fn target_of(tree: Seq<Node>, url: Seq<char>) -> Target {
    match requested_path(url) {
        None => Target::NotFound,
        Some(p) => if p.len() == 0 {
            Target::Index
        } else if tree_has_file(tree, p) {
            Target::File(p)
        } else {
            Target::NotFound
        },
    }
}

/// Decides what a request for `url` names in a directory whose markdown files are `tree`. A file
/// is named only when the walk of the directory found it, so a URL can never reach outside the
/// directory.
pub fn route(tree: &[Node], url: &str) -> (r: Route)
    ensures
        r@ == target_of(tree@, url@),
        r matches Route::File(f) ==> tree_has_file(tree@, f@),
{
    let decoded = match percent_decode(url_path(url)) {
        Some(d) => d,
        None => {
            return Route::NotFound;
        },
    };
    let cs = chars_of(decoded.as_str());
    let from: usize = if cs.len() > 0 && cs[0] == '/' {
        1
    } else {
        0
    };
    let current = string_of(&cs, from, cs.len());
    proof {
        assert(cs@.subrange(1, cs@.len() as int) =~= cs@.drop_first());
        assert(cs@.subrange(0, cs@.len() as int) =~= cs@);
    }
    if current.as_str().is_empty() {
        return Route::Index;
    }
    if !contains_file(tree, current.as_str()) {
        return Route::NotFound;
    }
    Route::File(current)
}

/// The URL that the sidebar links the file at `path` with.
pub open spec fn file_link(path: Seq<char>) -> Seq<char> {
    seq!['/'] + percent_encoded(encode_utf8(path))
}

/// Every file link of the sidebar leads to its file: the URL that the sidebar writes for a file of
/// the tree names that file.
pub proof fn lemma_file_links_lead_to_their_files(tree: Seq<Node>, path: Seq<char>)
    requires
        tree_has_file(tree, path),
        path.len() > 0,
    ensures
        target_of(tree, file_link(path)) == Target::File(path),
{
    let url = file_link(path);
    let enc = percent_encoded(encode_utf8(path));
    lemma_percent_encoded_is_path(encode_utf8(path));
    assert forall|j: int| 0 <= j < url.len() implies url[j] != '?' && url[j] != '#' by {
        if j > 0 {
            assert(url[j] == enc[j - 1]);
        }
    }
    lemma_index_of(url, '?', url.len() as int);
    lemma_index_of(url, '#', url.len() as int);
    assert(url.take(url.len() as int) =~= url);
    let slashed = seq!['/'] + path;
    assert(leading_byte_width_1(47u32) == 47u8) by (bit_vector);
    assert(slashed.drop_first() =~= path);
    assert(encode_utf8(slashed) =~= seq![47u8] + encode_utf8(path));
    assert((seq![47u8] + encode_utf8(path)).drop_first() =~= encode_utf8(path));
    assert(percent_encoded(encode_utf8(slashed)) =~= url);
    lemma_percent_round_trip(slashed);
}

/// Whether a request for `url` names the page of a single served file: only the root does.
pub fn is_root(url: &str) -> (res: bool)
    ensures
        res == (url@.take(path_end(url@) as int) == "/"@),
{
    str_eq(url_path(url), "/")
}

/// Whether the browser already has the page version `etag`: one of the request's `If-None-Match`
/// values names it. Such a request is answered `304 Not Modified` without rendering.
pub fn is_unchanged(if_none_match: &Vec<String>, etag: &str) -> (res: bool)
    ensures
        res == exists|j: int|
            0 <= j < if_none_match@.len() && list_matches(#[trigger] if_none_match@[j]@, etag@),
{
    let mut i: usize = 0;
    while i < if_none_match.len()
        invariant
            i <= if_none_match@.len(),
            forall|j: int| 0 <= j < i ==> !list_matches(#[trigger] if_none_match@[j]@, etag@),
        decreases if_none_match@.len() - i,
    {
        if etag_matches(if_none_match[i].as_str(), etag) {
            return true;
        }
        i += 1;
    }
    false
}

/// The page of a single markdown file named `name`.
pub fn file_page(grammars: &Grammars, name: &str, markdown: &str, etag: &str, assets: &Assets) -> (res:
    String)
    ensures
        res@ == page_text(name@, html_of(rendered_sources(markdown@)), None, etag@, *assets),
{
    let body = render_markdown(grammars, markdown);
    render_page(name, body.as_str(), None, etag, assets)
}

/// What the index page of a directory says: that there is nothing to show, or where to pick a file.
pub open spec fn index_body_text(tree: Seq<Node>) -> Seq<char> {
    if tree.len() == 0 {
        "<p>No markdown files found.</p>\n"@
    } else {
        "<p>Select a file from the sidebar.</p>\n"@
    }
}

/// The index page of a directory titled `title` whose markdown files are `tree`.
pub fn index_page(title: &str, tree: &[Node], etag: &str, assets: &Assets) -> (res: String)
    ensures
        res@ == page_text(
            title@,
            index_body_text(tree@),
            Some(sidebar_html(title@, tree@, None)),
            etag@,
            *assets,
        ),
{
    let body = if tree.len() == 0 {
        "<p>No markdown files found.</p>\n"
    } else {
        "<p>Select a file from the sidebar.</p>\n"
    };
    let sidebar = render_sidebar(title, tree, None);
    render_page(title, body, Some(sidebar.as_str()), etag, assets)
}

/// The page of the markdown file at `current` in a directory titled `title`, whose file is named
/// `name`, with the directory's sidebar marking it.
pub fn dir_file_page(
    grammars: &Grammars,
    title: &str,
    tree: &[Node],
    current: &str,
    name: &str,
    markdown: &str,
    etag: &str,
    assets: &Assets,
) -> (res: String)
    ensures
        res@ == page_text(
            name@,
            html_of(rendered_sources(markdown@)),
            Some(sidebar_html(title@, tree@, Some(current@))),
            etag@,
            *assets,
        ),
{
    let sidebar = render_sidebar(title, tree, Some(current));
    let body = render_markdown(grammars, markdown);
    render_page(name, body.as_str(), Some(sidebar.as_str()), etag, assets)
}

/// The task a toggle request names: its `task` parameter, parsed as an index.
pub open spec fn requested_task(url: Seq<char>) -> Option<usize> {
    match query_value(url, "task"@) {
        Some(v) => parsed_usize(v),
        None => None,
    }
}

/// The state a toggle request asks for: its `checked` parameter, `true` or `false`.
pub open spec fn requested_checked(url: Seq<char>) -> Option<bool> {
    match query_value(url, "checked"@) {
        Some(v) => if v == "true"@ {
            Some(true)
        } else if v == "false"@ {
            Some(false)
        } else {
            None
        },
        None => None,
    }
}

/// What a request to check or uncheck a task comes to.
pub enum ToggleOutcome {
    /// The request is refused with this HTTP status and message.
    Refused { status: u16, message: String },
    /// The task is set: `markdown` is the file's new text, and `changed` tells whether it differs
    /// from the old one, so that the file must be written.
    Done { markdown: String, changed: bool },
}

/// The message for a request that does not say which task to set, and how.
pub open spec fn bad_request_message() -> Seq<char> {
    "expected ?task=<index>&checked=<true|false>"@
}

/// Decides a `POST` that checks or unchecks a task list item of the page whose markdown is
/// `markdown` and whose current entity tag is `etag`. The URL names the task and the state with
/// `?task=<index>&checked=<true|false>`, or the request is refused with `400`. It must name the
/// page it was made on in `If-Match`, so a page that is out of date cannot overwrite newer edits:
/// without the header it is refused with `428`, and for another version with `412`. A task the
/// page does not have is refused with `400`.
pub fn toggle_request(url: &str, if_match: Option<&str>, markdown: &str, etag: &str) -> (res:
    ToggleOutcome)
    ensures
        match (requested_task(url@), requested_checked(url@)) {
            (Some(index), Some(checked)) => match if_match {
                None => res matches ToggleOutcome::Refused { status, message } && status == 428
                    && message@ == "missing If-Match header"@,
                Some(value) => if trimmed(value@) != etag@ {
                    res matches ToggleOutcome::Refused { status, message } && status == 412
                        && message@ == "the page is out of date"@
                } else {
                    match toggled_task(markdown@, index as int, checked) {
                        None => res matches ToggleOutcome::Refused { status, message } && status
                            == 400 && message@ == "no task "@ + decimal(index as nat),
                        Some(updated) => res matches ToggleOutcome::Done { markdown: m, changed }
                            && m@ == updated && changed == (updated != markdown@),
                    }
                },
            },
            _ => res matches ToggleOutcome::Refused { status, message } && status == 400
                && message@ == bad_request_message(),
        },
        res is Done ==> (if_match matches Some(value) && trimmed(value@) == etag@),
{
    let index = match query_param(url, "task") {
        Some(v) => parse_usize(v),
        None => None,
    };
    let checked = match query_param(url, "checked") {
        Some(v) => if str_eq(v, "true") {
            Some(true)
        } else if str_eq(v, "false") {
            Some(false)
        } else {
            None
        },
        None => None,
    };
    let (index, checked) = match (index, checked) {
        (Some(index), Some(checked)) => (index, checked),
        _ => {
            let mut message = String::new();
            message.push_str("expected ?task=<index>&checked=<true|false>");
            return ToggleOutcome::Refused { status: 400, message };
        },
    };
    let value = match if_match {
        Some(value) => value,
        None => {
            let mut message = String::new();
            message.push_str("missing If-Match header");
            return ToggleOutcome::Refused { status: 428, message };
        },
    };
    let cs = chars_of(value);
    let (a, b) = trim_range(&cs, 0, cs.len());
    let tag = chars_of(etag);
    proof {
        assert(cs@.subrange(0, cs@.len() as int) =~= value@);
    }
    if !range_eq(&cs, a, b, &tag) {
        let mut message = String::new();
        message.push_str("the page is out of date");
        return ToggleOutcome::Refused { status: 412, message };
    }
    match toggle_task(markdown, index, checked) {
        None => {
            let mut message = String::new();
            message.push_str("no task ");
            push_decimal(&mut message, index);
            ToggleOutcome::Refused { status: 400, message }
        },
        Some(updated) => {
            let changed = !str_eq(updated.as_str(), markdown);
            ToggleOutcome::Done { markdown: updated, changed }
        },
    }
}

} // verus!
