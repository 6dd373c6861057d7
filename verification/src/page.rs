//! The HTML page around a rendered document: a template with `{{name}}` placeholders, filled in a
//! single pass.
use vstd::prelude::*;
use crate::assets::{fingerprint_of, Assets};
use crate::tree::opt_str;
use crate::common::chars_of;
use crate::common::{push_chars, range_eq};
use crate::text::{escape_html, escaped};

verus! {

/// The page every document is shown in. It polls its own URL with `If-None-Match` to pick up
/// edits, saves task list checkboxes with a `POST` that names the page version in `If-Match`, and
/// draws `mermaid` blocks in the browser.
pub const PAGE_TEMPLATE: &'static str = "<!DOCTYPE html>
<html lang=\"en\">
<head>
<meta charset=\"utf-8\" />
<meta name=\"viewport\" content=\"width=device-width, initial-scale=1\" />
<meta name=\"mdreader-etag\" content=\"{{etag}}\" />
<meta name=\"mdreader-assets\" content=\"{{assets}}\" />
<title>{{title}}</title>
<style>
:root { color-scheme: light dark; --fg: #1f2328; --bg: #ffffff; --muted: #59636e; --border: #d1d9e0; --code: #f6f8fa; --accent: #0969da; }
@media (prefers-color-scheme: dark) { :root { --fg: #f0f6fc; --bg: #0d1117; --muted: #9198a1; --border: #3d444d; --code: #151b23; --accent: #4493f8; } }
body { margin: 0; display: flex; min-height: 100vh; color: var(--fg); background: var(--bg); font: 16px/1.6 -apple-system, BlinkMacSystemFont, \"Segoe UI\", sans-serif; }
.sidebar { width: 16rem; flex: none; border-right: 1px solid var(--border); padding: 1rem; overflow: auto; }
.sidebar ul { list-style: none; padding-left: 1rem; margin: 0; }
.sidebar-tree > ul { padding-left: 0; }
.sidebar a { color: var(--fg); text-decoration: none; }
.sidebar a.active { color: var(--accent); font-weight: 600; }
.sidebar .root { font-weight: 600; }
.dir { color: var(--muted); }
.menu-toggle { display: none; background: none; border: none; color: var(--fg); }
.sidebar-resizer { width: 4px; cursor: col-resize; flex: none; }
main { flex: 1; min-width: 0; max-width: 56rem; margin: 0 auto; padding: 2rem; }
pre { background: var(--code); padding: 1rem; overflow: auto; border-radius: 6px; }
code { font-family: ui-monospace, SFMono-Regular, Menlo, monospace; }
.anchor { margin-left: 0.4em; color: var(--muted); text-decoration: none; visibility: hidden; }
h1:hover .anchor, h2:hover .anchor, h3:hover .anchor, h4:hover .anchor, h5:hover .anchor, h6:hover .anchor { visibility: visible; }
li:has(> input[type=checkbox]) { list-style: none; }
pre.mermaid.rendered { background: none; }
.hl-keyword, .hl-tag { color: #cf222e; }
.hl-string, .hl-string-special, .hl-string-regex { color: #0a3069; }
.hl-comment { color: #6e7781; font-style: italic; }
.hl-function, .hl-function-builtin, .hl-function-macro, .hl-constructor { color: #8250df; }
.hl-number, .hl-constant, .hl-constant-builtin, .hl-boolean { color: #0550ae; }
.hl-type, .hl-type-builtin, .hl-module, .hl-namespace { color: #953800; }
.hl-attribute, .hl-property, .hl-label { color: #116329; }
@media (prefers-color-scheme: dark) {
.hl-keyword, .hl-tag { color: #ff7b72; }
.hl-string, .hl-string-special, .hl-string-regex { color: #a5d6ff; }
.hl-comment { color: #8b949e; }
.hl-function, .hl-function-builtin, .hl-function-macro, .hl-constructor { color: #d2a8ff; }
.hl-number, .hl-constant, .hl-constant-builtin, .hl-boolean { color: #79c0ff; }
.hl-type, .hl-type-builtin, .hl-module, .hl-namespace { color: #ffa657; }
.hl-attribute, .hl-property, .hl-label { color: #7ee787; }
}
@media (max-width: 48rem) {
body { flex-direction: column; }
.sidebar { width: auto; border-right: none; border-bottom: 1px solid var(--border); }
.menu-toggle { display: inline-block; }
.sidebar-tree { display: none; }
.sidebar.open .sidebar-tree { display: block; }
.sidebar-resizer { display: none; }
}
</style>
{{styles}}</head>
<body>
{{sidebar}}<main>
{{body}}</main>
<script type=\"module\">
const etag = () => document.querySelector('meta[name=mdreader-etag]').content;
const renderers = [];
let runs = 0;
let controller = null;
function theme() {
  return matchMedia('(prefers-color-scheme: dark)').matches ? 'dark' : 'light';
}
async function runRenderers() {
  if (controller) controller.abort();
  controller = new AbortController();
  const main = document.querySelector('main');
  for (const renderer of renderers) {
    await renderer(main, { theme: theme(), signal: controller.signal });
  }
}
window.mdreader = {
  onRender(renderer) { renderers.push(renderer); runRenderers(); },
  source(element) { return element.dataset.source ?? element.textContent; },
};
async function drawDiagrams(main) {
  const blocks = main.querySelectorAll('pre.mermaid:not(.rendered)');
  if (blocks.length === 0) return;
  const mermaid = (await import('https://cdn.jsdelivr.net/npm/mermaid@11/dist/mermaid.esm.min.mjs')).default;
  mermaid.initialize({ startOnLoad: false, theme: theme() === 'dark' ? 'dark' : 'default' });
  for (const block of blocks) {
    block.dataset.source = block.dataset.source ?? block.textContent;
    try {
      const id = 'mermaid-' + Math.random().toString(36).slice(2);
      const drawn = await mermaid.render(id, block.dataset.source);
      block.innerHTML = drawn.svg;
      block.classList.add('rendered');
    } catch (err) {
      console.error(err);
    }
  }
}
function enableTasks(main) {
  for (const box of main.querySelectorAll('input[data-task]')) {
    box.disabled = false;
    box.addEventListener('change', async () => {
      const url = location.pathname + '?task=' + box.dataset.task + '&checked=' + box.checked;
      const response = await fetch(url, { method: 'POST', headers: { 'If-Match': etag() } });
      if (!response.ok) box.checked = !box.checked;
      refresh();
    });
  }
}
async function refresh() {
  const response = await fetch(location.pathname, { headers: { 'If-None-Match': etag() } });
  if (response.status !== 200) return;
  const page = new DOMParser().parseFromString(await response.text(), 'text/html');
  const assets = document.querySelector('meta[name=mdreader-assets]').content;
  if (page.querySelector('meta[name=mdreader-assets]').content !== assets) {
    location.reload();
    return;
  }
  document.querySelector('meta[name=mdreader-etag]').content = page.querySelector('meta[name=mdreader-etag]').content;
  document.querySelector('main').replaceWith(page.querySelector('main'));
  const sidebar = page.querySelector('nav.sidebar');
  if (sidebar) document.querySelector('nav.sidebar').replaceWith(sidebar);
  setup();
}
function setup() {
  const main = document.querySelector('main');
  enableTasks(main);
  drawDiagrams(main);
  const toggle = document.querySelector('.menu-toggle');
  if (toggle) toggle.addEventListener('click', () => {
    const nav = document.querySelector('nav.sidebar');
    nav.classList.toggle('open');
    toggle.setAttribute('aria-expanded', nav.classList.contains('open'));
  });
  runRenderers();
}
matchMedia('(prefers-color-scheme: dark)').addEventListener('change', runRenderers);
setup();
setInterval(refresh, 1000);
</script>
{{scripts}}</body>
</html>
";

/// What the placeholders of a page are filled with.
pub struct PageValues {
    pub title: String,
    pub etag: String,
    pub assets: String,
    pub sidebar: String,
    pub styles: String,
    pub scripts: String,
    pub body: String,
}

impl View for PageValues {
    /// The values of `title`, `etag`, `assets`, `sidebar`, `styles`, `scripts` and `body`, in
    /// that order.
    type V = Seq<Seq<char>>;

    open spec fn view(&self) -> Seq<Seq<char>> {
        seq![
            self.title@,
            self.etag@,
            self.assets@,
            self.sidebar@,
            self.styles@,
            self.scripts@,
            self.body@,
        ]
    }
}

/// The value for the placeholder `{{name}}`, if there is such a placeholder; `v` holds the
/// values of `title`, `etag`, `assets`, `sidebar`, `styles`, `scripts` and `body`, in that order.
pub open spec fn placeholder_value(name: Seq<char>, v: Seq<Seq<char>>) -> Option<Seq<char>> {
    if name == "title"@ {
        Some(v[0])
    } else if name == "etag"@ {
        Some(v[1])
    } else if name == "assets"@ {
        Some(v[2])
    } else if name == "sidebar"@ {
        Some(v[3])
    } else if name == "styles"@ {
        Some(v[4])
    } else if name == "scripts"@ {
        Some(v[5])
    } else if name == "body"@ {
        Some(v[6])
    } else {
        None
    }
}

/// The first index at or after `p` where `a` is directly followed by `b`, or the length of `t`.
pub open spec fn pair_from(t: Seq<char>, p: int, a: char, b: char) -> int
    decreases t.len() - p,
{
    if p < 0 || p + 1 >= t.len() {
        t.len() as int
    } else if t[p] == a && t[p + 1] == b {
        p
    } else {
        pair_from(t, p + 1, a, b)
    }
}

/// Where `pair_from` can land: at or after `p` on a pair, or at the end of `t`.
pub proof fn lemma_pair_from_bounds(t: Seq<char>, p: int, a: char, b: char)
    requires
        0 <= p,
    ensures
        p <= pair_from(t, p, a, b) || pair_from(t, p, a, b) == t.len(),
        pair_from(t, p, a, b) <= t.len(),
        pair_from(t, p, a, b) < t.len() ==> pair_from(t, p, a, b) + 1 < t.len(),
    decreases t.len() - p,
{
    if p + 1 < t.len() && !(t[p] == a && t[p + 1] == b) {
        lemma_pair_from_bounds(t, p + 1, a, b);
    }
}

proof fn lemma_pair_from(t: Seq<char>, p: int, a: char, b: char, i: int)
    requires
        0 <= p <= i,
        forall|j: int| p <= j < i ==> !(j + 1 < t.len() && #[trigger] t[j] == a && t[j + 1] == b),
        i + 1 >= t.len() || (t[i] == a && t[i + 1] == b),
    ensures
        pair_from(t, p, a, b) == if i + 1 >= t.len() {
            t.len() as int
        } else {
            i
        },
    decreases i - p,
{
    if p < i {
        lemma_pair_from(t, p + 1, a, b, i);
    }
}

/// `t` from `p` on with every placeholder replaced by its value, or `None` when a placeholder
/// is unterminated or unknown. The values are put in as they are: what they hold is never read
/// as a placeholder.
pub open spec fn filled_from(t: Seq<char>, p: int, v: Seq<Seq<char>>) -> Option<Seq<char>>
    decreases t.len() - p,
{
    if p < 0 || p > t.len() {
        None
    } else {
        let s = pair_from(t, p, '{', '{');
        if s >= t.len() {
            Some(t.subrange(p, t.len() as int))
        } else {
            let e = pair_from(t, s + 2, '}', '}');
            if e >= t.len() {
                None
            } else {
                match placeholder_value(t.subrange(s + 2, e), v) {
                    None => None,
                    Some(val) => {
                        proof {
                            lemma_pair_from_bounds(t, p, '{', '{');
                            lemma_pair_from_bounds(t, s + 2, '}', '}');
                        }
                        match filled_from(t, e + 2, v) {
                            None => None,
                            Some(r) => Some(t.subrange(p, s) + val + r),
                        }
                    },
                }
            }
        }
    }
}

/// Where the page template has `{{`: at the start of each of its placeholders.
proof fn lemma_template_opening_pairs()
    ensures
        PAGE_TEMPLATE@.len() == 6373,
        forall|j: int|
            0 <= j < PAGE_TEMPLATE@.len() - 1 && #[trigger] PAGE_TEMPLATE@[j] == '{'
                && PAGE_TEMPLATE@[j + 1] == '{' ==> j == 172 || j == 223 || j == 245 || j == 3106 || j == 3131 || j == 3149 || j == 6346,
        PAGE_TEMPLATE@[172] == '{' && PAGE_TEMPLATE@[173] == '{',
        PAGE_TEMPLATE@[223] == '{' && PAGE_TEMPLATE@[224] == '{',
        PAGE_TEMPLATE@[245] == '{' && PAGE_TEMPLATE@[246] == '{',
        PAGE_TEMPLATE@[3106] == '{' && PAGE_TEMPLATE@[3107] == '{',
        PAGE_TEMPLATE@[3131] == '{' && PAGE_TEMPLATE@[3132] == '{',
        PAGE_TEMPLATE@[3149] == '{' && PAGE_TEMPLATE@[3150] == '{',
        PAGE_TEMPLATE@[6346] == '{' && PAGE_TEMPLATE@[6347] == '{',
{
    reveal_strlit("<!DOCTYPE html>
<html lang=\"en\">
<head>
<meta charset=\"utf-8\" />
<meta name=\"viewport\" content=\"width=device-width, initial-scale=1\" />
<meta name=\"mdreader-etag\" content=\"{{etag}}\" />
<meta name=\"mdreader-assets\" content=\"{{assets}}\" />
<title>{{title}}</title>
<style>
:root { color-scheme: light dark; --fg: #1f2328; --bg: #ffffff; --muted: #59636e; --border: #d1d9e0; --code: #f6f8fa; --accent: #0969da; }
@media (prefers-color-scheme: dark) { :root { --fg: #f0f6fc; --bg: #0d1117; --muted: #9198a1; --border: #3d444d; --code: #151b23; --accent: #4493f8; } }
body { margin: 0; display: flex; min-height: 100vh; color: var(--fg); background: var(--bg); font: 16px/1.6 -apple-system, BlinkMacSystemFont, \"Segoe UI\", sans-serif; }
.sidebar { width: 16rem; flex: none; border-right: 1px solid var(--border); padding: 1rem; overflow: auto; }
.sidebar ul { list-style: none; padding-left: 1rem; margin: 0; }
.sidebar-tree > ul { padding-left: 0; }
.sidebar a { color: var(--fg); text-decoration: none; }
.sidebar a.active { color: var(--accent); font-weight: 600; }
.sidebar .root { font-weight: 600; }
.dir { color: var(--muted); }
.menu-toggle { display: none; background: none; border: none; color: var(--fg); }
.sidebar-resizer { width: 4px; cursor: col-resize; flex: none; }
main { flex: 1; min-width: 0; max-width: 56rem; margin: 0 auto; padding: 2rem; }
pre { background: var(--code); padding: 1rem; overflow: auto; border-radius: 6px; }
code { font-family: ui-monospace, SFMono-Regular, Menlo, monospace; }
.anchor { margin-left: 0.4em; color: var(--muted); text-decoration: none; visibility: hidden; }
h1:hover .anchor, h2:hover .anchor, h3:hover .anchor, h4:hover .anchor, h5:hover .anchor, h6:hover .anchor { visibility: visible; }
li:has(> input[type=checkbox]) { list-style: none; }
pre.mermaid.rendered { background: none; }
.hl-keyword, .hl-tag { color: #cf222e; }
.hl-string, .hl-string-special, .hl-string-regex { color: #0a3069; }
.hl-comment { color: #6e7781; font-style: italic; }
.hl-function, .hl-function-builtin, .hl-function-macro, .hl-constructor { color: #8250df; }
.hl-number, .hl-constant, .hl-constant-builtin, .hl-boolean { color: #0550ae; }
.hl-type, .hl-type-builtin, .hl-module, .hl-namespace { color: #953800; }
.hl-attribute, .hl-property, .hl-label { color: #116329; }
@media (prefers-color-scheme: dark) {
.hl-keyword, .hl-tag { color: #ff7b72; }
.hl-string, .hl-string-special, .hl-string-regex { color: #a5d6ff; }
.hl-comment { color: #8b949e; }
.hl-function, .hl-function-builtin, .hl-function-macro, .hl-constructor { color: #d2a8ff; }
.hl-number, .hl-constant, .hl-constant-builtin, .hl-boolean { color: #79c0ff; }
.hl-type, .hl-type-builtin, .hl-module, .hl-namespace { color: #ffa657; }
.hl-attribute, .hl-property, .hl-label { color: #7ee787; }
}
@media (max-width: 48rem) {
body { flex-direction: column; }
.sidebar { width: auto; border-right: none; border-bottom: 1px solid var(--border); }
.menu-toggle { display: inline-block; }
.sidebar-tree { display: none; }
.sidebar.open .sidebar-tree { display: block; }
.sidebar-resizer { display: none; }
}
</style>
{{styles}}</head>
<body>
{{sidebar}}<main>
{{body}}</main>
<script type=\"module\">
const etag = () => document.querySelector('meta[name=mdreader-etag]').content;
const renderers = [];
let runs = 0;
let controller = null;
function theme() {
  return matchMedia('(prefers-color-scheme: dark)').matches ? 'dark' : 'light';
}
async function runRenderers() {
  if (controller) controller.abort();
  controller = new AbortController();
  const main = document.querySelector('main');
  for (const renderer of renderers) {
    await renderer(main, { theme: theme(), signal: controller.signal });
  }
}
window.mdreader = {
  onRender(renderer) { renderers.push(renderer); runRenderers(); },
  source(element) { return element.dataset.source ?? element.textContent; },
};
async function drawDiagrams(main) {
  const blocks = main.querySelectorAll('pre.mermaid:not(.rendered)');
  if (blocks.length === 0) return;
  const mermaid = (await import('https://cdn.jsdelivr.net/npm/mermaid@11/dist/mermaid.esm.min.mjs')).default;
  mermaid.initialize({ startOnLoad: false, theme: theme() === 'dark' ? 'dark' : 'default' });
  for (const block of blocks) {
    block.dataset.source = block.dataset.source ?? block.textContent;
    try {
      const id = 'mermaid-' + Math.random().toString(36).slice(2);
      const drawn = await mermaid.render(id, block.dataset.source);
      block.innerHTML = drawn.svg;
      block.classList.add('rendered');
    } catch (err) {
      console.error(err);
    }
  }
}
function enableTasks(main) {
  for (const box of main.querySelectorAll('input[data-task]')) {
    box.disabled = false;
    box.addEventListener('change', async () => {
      const url = location.pathname + '?task=' + box.dataset.task + '&checked=' + box.checked;
      const response = await fetch(url, { method: 'POST', headers: { 'If-Match': etag() } });
      if (!response.ok) box.checked = !box.checked;
      refresh();
    });
  }
}
async function refresh() {
  const response = await fetch(location.pathname, { headers: { 'If-None-Match': etag() } });
  if (response.status !== 200) return;
  const page = new DOMParser().parseFromString(await response.text(), 'text/html');
  const assets = document.querySelector('meta[name=mdreader-assets]').content;
  if (page.querySelector('meta[name=mdreader-assets]').content !== assets) {
    location.reload();
    return;
  }
  document.querySelector('meta[name=mdreader-etag]').content = page.querySelector('meta[name=mdreader-etag]').content;
  document.querySelector('main').replaceWith(page.querySelector('main'));
  const sidebar = page.querySelector('nav.sidebar');
  if (sidebar) document.querySelector('nav.sidebar').replaceWith(sidebar);
  setup();
}
function setup() {
  const main = document.querySelector('main');
  enableTasks(main);
  drawDiagrams(main);
  const toggle = document.querySelector('.menu-toggle');
  if (toggle) toggle.addEventListener('click', () => {
    const nav = document.querySelector('nav.sidebar');
    nav.classList.toggle('open');
    toggle.setAttribute('aria-expanded', nav.classList.contains('open'));
  });
  runRenderers();
}
matchMedia('(prefers-color-scheme: dark)').addEventListener('change', runRenderers);
setup();
setInterval(refresh, 1000);
</script>
{{scripts}}</body>
</html>
");
}

/// Where the page template has `}}`: at the end of each of its placeholders.
proof fn lemma_template_closing_pairs()
    ensures
        PAGE_TEMPLATE@.len() == 6373,
        forall|j: int|
            0 <= j < PAGE_TEMPLATE@.len() - 1 && #[trigger] PAGE_TEMPLATE@[j] == '}'
                && PAGE_TEMPLATE@[j + 1] == '}' ==> j == 178 || j == 231 || j == 252 || j == 3114 || j == 3140 || j == 3155 || j == 6355,
        PAGE_TEMPLATE@[178] == '}' && PAGE_TEMPLATE@[179] == '}',
        PAGE_TEMPLATE@[231] == '}' && PAGE_TEMPLATE@[232] == '}',
        PAGE_TEMPLATE@[252] == '}' && PAGE_TEMPLATE@[253] == '}',
        PAGE_TEMPLATE@[3114] == '}' && PAGE_TEMPLATE@[3115] == '}',
        PAGE_TEMPLATE@[3140] == '}' && PAGE_TEMPLATE@[3141] == '}',
        PAGE_TEMPLATE@[3155] == '}' && PAGE_TEMPLATE@[3156] == '}',
        PAGE_TEMPLATE@[6355] == '}' && PAGE_TEMPLATE@[6356] == '}',
{
    reveal_strlit("<!DOCTYPE html>
<html lang=\"en\">
<head>
<meta charset=\"utf-8\" />
<meta name=\"viewport\" content=\"width=device-width, initial-scale=1\" />
<meta name=\"mdreader-etag\" content=\"{{etag}}\" />
<meta name=\"mdreader-assets\" content=\"{{assets}}\" />
<title>{{title}}</title>
<style>
:root { color-scheme: light dark; --fg: #1f2328; --bg: #ffffff; --muted: #59636e; --border: #d1d9e0; --code: #f6f8fa; --accent: #0969da; }
@media (prefers-color-scheme: dark) { :root { --fg: #f0f6fc; --bg: #0d1117; --muted: #9198a1; --border: #3d444d; --code: #151b23; --accent: #4493f8; } }
body { margin: 0; display: flex; min-height: 100vh; color: var(--fg); background: var(--bg); font: 16px/1.6 -apple-system, BlinkMacSystemFont, \"Segoe UI\", sans-serif; }
.sidebar { width: 16rem; flex: none; border-right: 1px solid var(--border); padding: 1rem; overflow: auto; }
.sidebar ul { list-style: none; padding-left: 1rem; margin: 0; }
.sidebar-tree > ul { padding-left: 0; }
.sidebar a { color: var(--fg); text-decoration: none; }
.sidebar a.active { color: var(--accent); font-weight: 600; }
.sidebar .root { font-weight: 600; }
.dir { color: var(--muted); }
.menu-toggle { display: none; background: none; border: none; color: var(--fg); }
.sidebar-resizer { width: 4px; cursor: col-resize; flex: none; }
main { flex: 1; min-width: 0; max-width: 56rem; margin: 0 auto; padding: 2rem; }
pre { background: var(--code); padding: 1rem; overflow: auto; border-radius: 6px; }
code { font-family: ui-monospace, SFMono-Regular, Menlo, monospace; }
.anchor { margin-left: 0.4em; color: var(--muted); text-decoration: none; visibility: hidden; }
h1:hover .anchor, h2:hover .anchor, h3:hover .anchor, h4:hover .anchor, h5:hover .anchor, h6:hover .anchor { visibility: visible; }
li:has(> input[type=checkbox]) { list-style: none; }
pre.mermaid.rendered { background: none; }
.hl-keyword, .hl-tag { color: #cf222e; }
.hl-string, .hl-string-special, .hl-string-regex { color: #0a3069; }
.hl-comment { color: #6e7781; font-style: italic; }
.hl-function, .hl-function-builtin, .hl-function-macro, .hl-constructor { color: #8250df; }
.hl-number, .hl-constant, .hl-constant-builtin, .hl-boolean { color: #0550ae; }
.hl-type, .hl-type-builtin, .hl-module, .hl-namespace { color: #953800; }
.hl-attribute, .hl-property, .hl-label { color: #116329; }
@media (prefers-color-scheme: dark) {
.hl-keyword, .hl-tag { color: #ff7b72; }
.hl-string, .hl-string-special, .hl-string-regex { color: #a5d6ff; }
.hl-comment { color: #8b949e; }
.hl-function, .hl-function-builtin, .hl-function-macro, .hl-constructor { color: #d2a8ff; }
.hl-number, .hl-constant, .hl-constant-builtin, .hl-boolean { color: #79c0ff; }
.hl-type, .hl-type-builtin, .hl-module, .hl-namespace { color: #ffa657; }
.hl-attribute, .hl-property, .hl-label { color: #7ee787; }
}
@media (max-width: 48rem) {
body { flex-direction: column; }
.sidebar { width: auto; border-right: none; border-bottom: 1px solid var(--border); }
.menu-toggle { display: inline-block; }
.sidebar-tree { display: none; }
.sidebar.open .sidebar-tree { display: block; }
.sidebar-resizer { display: none; }
}
</style>
{{styles}}</head>
<body>
{{sidebar}}<main>
{{body}}</main>
<script type=\"module\">
const etag = () => document.querySelector('meta[name=mdreader-etag]').content;
const renderers = [];
let runs = 0;
let controller = null;
function theme() {
  return matchMedia('(prefers-color-scheme: dark)').matches ? 'dark' : 'light';
}
async function runRenderers() {
  if (controller) controller.abort();
  controller = new AbortController();
  const main = document.querySelector('main');
  for (const renderer of renderers) {
    await renderer(main, { theme: theme(), signal: controller.signal });
  }
}
window.mdreader = {
  onRender(renderer) { renderers.push(renderer); runRenderers(); },
  source(element) { return element.dataset.source ?? element.textContent; },
};
async function drawDiagrams(main) {
  const blocks = main.querySelectorAll('pre.mermaid:not(.rendered)');
  if (blocks.length === 0) return;
  const mermaid = (await import('https://cdn.jsdelivr.net/npm/mermaid@11/dist/mermaid.esm.min.mjs')).default;
  mermaid.initialize({ startOnLoad: false, theme: theme() === 'dark' ? 'dark' : 'default' });
  for (const block of blocks) {
    block.dataset.source = block.dataset.source ?? block.textContent;
    try {
      const id = 'mermaid-' + Math.random().toString(36).slice(2);
      const drawn = await mermaid.render(id, block.dataset.source);
      block.innerHTML = drawn.svg;
      block.classList.add('rendered');
    } catch (err) {
      console.error(err);
    }
  }
}
function enableTasks(main) {
  for (const box of main.querySelectorAll('input[data-task]')) {
    box.disabled = false;
    box.addEventListener('change', async () => {
      const url = location.pathname + '?task=' + box.dataset.task + '&checked=' + box.checked;
      const response = await fetch(url, { method: 'POST', headers: { 'If-Match': etag() } });
      if (!response.ok) box.checked = !box.checked;
      refresh();
    });
  }
}
async function refresh() {
  const response = await fetch(location.pathname, { headers: { 'If-None-Match': etag() } });
  if (response.status !== 200) return;
  const page = new DOMParser().parseFromString(await response.text(), 'text/html');
  const assets = document.querySelector('meta[name=mdreader-assets]').content;
  if (page.querySelector('meta[name=mdreader-assets]').content !== assets) {
    location.reload();
    return;
  }
  document.querySelector('meta[name=mdreader-etag]').content = page.querySelector('meta[name=mdreader-etag]').content;
  document.querySelector('main').replaceWith(page.querySelector('main'));
  const sidebar = page.querySelector('nav.sidebar');
  if (sidebar) document.querySelector('nav.sidebar').replaceWith(sidebar);
  setup();
}
function setup() {
  const main = document.querySelector('main');
  enableTasks(main);
  drawDiagrams(main);
  const toggle = document.querySelector('.menu-toggle');
  if (toggle) toggle.addEventListener('click', () => {
    const nav = document.querySelector('nav.sidebar');
    nav.classList.toggle('open');
    toggle.setAttribute('aria-expanded', nav.classList.contains('open'));
  });
  runRenderers();
}
matchMedia('(prefers-color-scheme: dark)').addEventListener('change', runRenderers);
setup();
setInterval(refresh, 1000);
</script>
{{scripts}}</body>
</html>
");
}

/// What the placeholders of the page template are named.
proof fn lemma_template_names()
    ensures
        PAGE_TEMPLATE@.subrange(174, 178) == "etag"@,
        PAGE_TEMPLATE@.subrange(225, 231) == "assets"@,
        PAGE_TEMPLATE@.subrange(247, 252) == "title"@,
        PAGE_TEMPLATE@.subrange(3108, 3114) == "styles"@,
        PAGE_TEMPLATE@.subrange(3133, 3140) == "sidebar"@,
        PAGE_TEMPLATE@.subrange(3151, 3155) == "body"@,
        PAGE_TEMPLATE@.subrange(6348, 6355) == "scripts"@,
{
    reveal_strlit("<!DOCTYPE html>
<html lang=\"en\">
<head>
<meta charset=\"utf-8\" />
<meta name=\"viewport\" content=\"width=device-width, initial-scale=1\" />
<meta name=\"mdreader-etag\" content=\"{{etag}}\" />
<meta name=\"mdreader-assets\" content=\"{{assets}}\" />
<title>{{title}}</title>
<style>
:root { color-scheme: light dark; --fg: #1f2328; --bg: #ffffff; --muted: #59636e; --border: #d1d9e0; --code: #f6f8fa; --accent: #0969da; }
@media (prefers-color-scheme: dark) { :root { --fg: #f0f6fc; --bg: #0d1117; --muted: #9198a1; --border: #3d444d; --code: #151b23; --accent: #4493f8; } }
body { margin: 0; display: flex; min-height: 100vh; color: var(--fg); background: var(--bg); font: 16px/1.6 -apple-system, BlinkMacSystemFont, \"Segoe UI\", sans-serif; }
.sidebar { width: 16rem; flex: none; border-right: 1px solid var(--border); padding: 1rem; overflow: auto; }
.sidebar ul { list-style: none; padding-left: 1rem; margin: 0; }
.sidebar-tree > ul { padding-left: 0; }
.sidebar a { color: var(--fg); text-decoration: none; }
.sidebar a.active { color: var(--accent); font-weight: 600; }
.sidebar .root { font-weight: 600; }
.dir { color: var(--muted); }
.menu-toggle { display: none; background: none; border: none; color: var(--fg); }
.sidebar-resizer { width: 4px; cursor: col-resize; flex: none; }
main { flex: 1; min-width: 0; max-width: 56rem; margin: 0 auto; padding: 2rem; }
pre { background: var(--code); padding: 1rem; overflow: auto; border-radius: 6px; }
code { font-family: ui-monospace, SFMono-Regular, Menlo, monospace; }
.anchor { margin-left: 0.4em; color: var(--muted); text-decoration: none; visibility: hidden; }
h1:hover .anchor, h2:hover .anchor, h3:hover .anchor, h4:hover .anchor, h5:hover .anchor, h6:hover .anchor { visibility: visible; }
li:has(> input[type=checkbox]) { list-style: none; }
pre.mermaid.rendered { background: none; }
.hl-keyword, .hl-tag { color: #cf222e; }
.hl-string, .hl-string-special, .hl-string-regex { color: #0a3069; }
.hl-comment { color: #6e7781; font-style: italic; }
.hl-function, .hl-function-builtin, .hl-function-macro, .hl-constructor { color: #8250df; }
.hl-number, .hl-constant, .hl-constant-builtin, .hl-boolean { color: #0550ae; }
.hl-type, .hl-type-builtin, .hl-module, .hl-namespace { color: #953800; }
.hl-attribute, .hl-property, .hl-label { color: #116329; }
@media (prefers-color-scheme: dark) {
.hl-keyword, .hl-tag { color: #ff7b72; }
.hl-string, .hl-string-special, .hl-string-regex { color: #a5d6ff; }
.hl-comment { color: #8b949e; }
.hl-function, .hl-function-builtin, .hl-function-macro, .hl-constructor { color: #d2a8ff; }
.hl-number, .hl-constant, .hl-constant-builtin, .hl-boolean { color: #79c0ff; }
.hl-type, .hl-type-builtin, .hl-module, .hl-namespace { color: #ffa657; }
.hl-attribute, .hl-property, .hl-label { color: #7ee787; }
}
@media (max-width: 48rem) {
body { flex-direction: column; }
.sidebar { width: auto; border-right: none; border-bottom: 1px solid var(--border); }
.menu-toggle { display: inline-block; }
.sidebar-tree { display: none; }
.sidebar.open .sidebar-tree { display: block; }
.sidebar-resizer { display: none; }
}
</style>
{{styles}}</head>
<body>
{{sidebar}}<main>
{{body}}</main>
<script type=\"module\">
const etag = () => document.querySelector('meta[name=mdreader-etag]').content;
const renderers = [];
let runs = 0;
let controller = null;
function theme() {
  return matchMedia('(prefers-color-scheme: dark)').matches ? 'dark' : 'light';
}
async function runRenderers() {
  if (controller) controller.abort();
  controller = new AbortController();
  const main = document.querySelector('main');
  for (const renderer of renderers) {
    await renderer(main, { theme: theme(), signal: controller.signal });
  }
}
window.mdreader = {
  onRender(renderer) { renderers.push(renderer); runRenderers(); },
  source(element) { return element.dataset.source ?? element.textContent; },
};
async function drawDiagrams(main) {
  const blocks = main.querySelectorAll('pre.mermaid:not(.rendered)');
  if (blocks.length === 0) return;
  const mermaid = (await import('https://cdn.jsdelivr.net/npm/mermaid@11/dist/mermaid.esm.min.mjs')).default;
  mermaid.initialize({ startOnLoad: false, theme: theme() === 'dark' ? 'dark' : 'default' });
  for (const block of blocks) {
    block.dataset.source = block.dataset.source ?? block.textContent;
    try {
      const id = 'mermaid-' + Math.random().toString(36).slice(2);
      const drawn = await mermaid.render(id, block.dataset.source);
      block.innerHTML = drawn.svg;
      block.classList.add('rendered');
    } catch (err) {
      console.error(err);
    }
  }
}
function enableTasks(main) {
  for (const box of main.querySelectorAll('input[data-task]')) {
    box.disabled = false;
    box.addEventListener('change', async () => {
      const url = location.pathname + '?task=' + box.dataset.task + '&checked=' + box.checked;
      const response = await fetch(url, { method: 'POST', headers: { 'If-Match': etag() } });
      if (!response.ok) box.checked = !box.checked;
      refresh();
    });
  }
}
async function refresh() {
  const response = await fetch(location.pathname, { headers: { 'If-None-Match': etag() } });
  if (response.status !== 200) return;
  const page = new DOMParser().parseFromString(await response.text(), 'text/html');
  const assets = document.querySelector('meta[name=mdreader-assets]').content;
  if (page.querySelector('meta[name=mdreader-assets]').content !== assets) {
    location.reload();
    return;
  }
  document.querySelector('meta[name=mdreader-etag]').content = page.querySelector('meta[name=mdreader-etag]').content;
  document.querySelector('main').replaceWith(page.querySelector('main'));
  const sidebar = page.querySelector('nav.sidebar');
  if (sidebar) document.querySelector('nav.sidebar').replaceWith(sidebar);
  setup();
}
function setup() {
  const main = document.querySelector('main');
  enableTasks(main);
  drawDiagrams(main);
  const toggle = document.querySelector('.menu-toggle');
  if (toggle) toggle.addEventListener('click', () => {
    const nav = document.querySelector('nav.sidebar');
    nav.classList.toggle('open');
    toggle.setAttribute('aria-expanded', nav.classList.contains('open'));
  });
  runRenderers();
}
matchMedia('(prefers-color-scheme: dark)').addEventListener('change', runRenderers);
setup();
setInterval(refresh, 1000);
</script>
{{scripts}}</body>
</html>
");
    reveal_strlit("etag");
    reveal_strlit("assets");
    reveal_strlit("title");
    reveal_strlit("styles");
    reveal_strlit("sidebar");
    reveal_strlit("body");
    reveal_strlit("scripts");
}

/// The page template fills whatever the values are: every `{{` in it starts a placeholder that
/// is closed and named as `placeholder_value` knows, so a rendered page is never the empty page.
pub proof fn lemma_page_template_fills(v: Seq<Seq<char>>)
    ensures
        filled_from(PAGE_TEMPLATE@, 0, v) is Some,
{
    lemma_template_opening_pairs();
    lemma_template_closing_pairs();
    lemma_template_names();
    reveal_strlit("title");
    reveal_strlit("etag");
    reveal_strlit("assets");
    reveal_strlit("sidebar");
    reveal_strlit("styles");
    reveal_strlit("scripts");
    reveal_strlit("body");
    let t = PAGE_TEMPLATE@;
    lemma_pair_from(t, 6357, '{', '{', 6373);
    assert(filled_from(t, 6357, v) is Some);
    lemma_pair_from(t, 3157, '{', '{', 6346);
    lemma_pair_from(t, 6348, '}', '}', 6355);
    assert(filled_from(t, 3157, v) is Some);
    lemma_pair_from(t, 3142, '{', '{', 3149);
    lemma_pair_from(t, 3151, '}', '}', 3155);
    assert(filled_from(t, 3142, v) is Some);
    lemma_pair_from(t, 3116, '{', '{', 3131);
    lemma_pair_from(t, 3133, '}', '}', 3140);
    assert(filled_from(t, 3116, v) is Some);
    lemma_pair_from(t, 254, '{', '{', 3106);
    lemma_pair_from(t, 3108, '}', '}', 3114);
    assert(filled_from(t, 254, v) is Some);
    lemma_pair_from(t, 233, '{', '{', 245);
    lemma_pair_from(t, 247, '}', '}', 252);
    assert(filled_from(t, 233, v) is Some);
    lemma_pair_from(t, 180, '{', '{', 223);
    lemma_pair_from(t, 225, '}', '}', 231);
    assert(filled_from(t, 180, v) is Some);
    lemma_pair_from(t, 0, '{', '{', 172);
    lemma_pair_from(t, 174, '}', '}', 178);
    assert(filled_from(t, 0, v) is Some);
}

/// Why a template could not be filled.
pub enum TemplateError {
    /// A `{{` without a `}}` after it.
    Unterminated,
    /// A placeholder whose name is not known.
    Unknown(String),
}

fn find_pair(cs: &Vec<char>, p: usize, a: char, b: char) -> (i: usize)
    requires
        p <= cs@.len(),
    ensures
        i == pair_from(cs@, p as int, a, b),
{
    let mut i = p;
    while cs.len() > 0 && i < cs.len() - 1 && !(cs[i] == a && cs[i + 1] == b)
        invariant
            p <= i <= cs@.len(),
            forall|j: int| p <= j < i ==> !(j + 1 < cs@.len() && #[trigger] cs@[j] == a && cs@[j + 1] == b),
        decreases cs@.len() - i,
    {
        i += 1;
    }
    proof {
        lemma_pair_from(cs@, p as int, a, b, i as int);
    }
    if cs.len() == 0 || i >= cs.len() - 1 {
        cs.len()
    } else {
        i
    }
}

/// Fills the placeholders of `template` in a single pass, so placeholder-like text inside the
/// substituted values is left untouched.
pub fn fill_template(template: &str, values: &PageValues) -> (res: Result<String, TemplateError>)
    ensures
        match res {
            Ok(page) => filled_from(template@, 0, values@) == Some(page@),
            Err(_) => filled_from(template@, 0, values@) is None,
        },
{
    let cs = chars_of(template);
    let names: [Vec<char>; 7] = [
        chars_of("title"),
        chars_of("etag"),
        chars_of("assets"),
        chars_of("sidebar"),
        chars_of("styles"),
        chars_of("scripts"),
        chars_of("body"),
    ];
    let len = cs.len();
    let mut out = String::new();
    let mut p: usize = 0;
    loop
        invariant
            p <= len == cs@.len(),
            cs@ == template@,
            names[0]@ == "title"@,
            names[1]@ == "etag"@,
            names[2]@ == "assets"@,
            names[3]@ == "sidebar"@,
            names[4]@ == "styles"@,
            names[5]@ == "scripts"@,
            names[6]@ == "body"@,
            filled_from(template@, 0, values@) == match filled_from(template@, p as int, values@) {
                Some(r) => Some(out@ + r),
                None => None,
            },
        decreases len - p,
    {
        let s = find_pair(&cs, p, '{', '{');
        if s >= len {
            push_chars(&mut out, &cs, p, len);
            return Ok(out);
        }
        proof {
            lemma_pair_from_bounds(cs@, p as int, '{', '{');
        }
        let e = find_pair(&cs, s + 2, '}', '}');
        if e >= len {
            return Err(TemplateError::Unterminated);
        }
        proof {
            lemma_pair_from_bounds(cs@, s + 2, '}', '}');
        }
        let ghost before = out@;
        let ghost name = cs@.subrange(s + 2, e as int);
        push_chars(&mut out, &cs, p, s);
        if range_eq(&cs, s + 2, e, &names[0]) {
            out.push_str(values.title.as_str());
        } else if range_eq(&cs, s + 2, e, &names[1]) {
            out.push_str(values.etag.as_str());
        } else if range_eq(&cs, s + 2, e, &names[2]) {
            out.push_str(values.assets.as_str());
        } else if range_eq(&cs, s + 2, e, &names[3]) {
            out.push_str(values.sidebar.as_str());
        } else if range_eq(&cs, s + 2, e, &names[4]) {
            out.push_str(values.styles.as_str());
        } else if range_eq(&cs, s + 2, e, &names[5]) {
            out.push_str(values.scripts.as_str());
        } else if range_eq(&cs, s + 2, e, &names[6]) {
            out.push_str(values.body.as_str());
        } else {
            let mut unknown = String::new();
            push_chars(&mut unknown, &cs, s + 2, e);
            return Err(TemplateError::Unknown(unknown));
        }
        proof {
            let val = placeholder_value(name, values@).unwrap();
            assert(out@ =~= before + cs@.subrange(p as int, s as int) + val);
            match filled_from(template@, e + 2, values@) {
                Some(r) => assert(before + (cs@.subrange(p as int, s as int) + val + r) =~= out@
                    + r),
                None => {},
            }
        }
        p = e + 2;
    }
}

/// The `<style>` elements for the injected styles, in order.
pub open spec fn styles_html(ss: Seq<String>) -> Seq<char>
    decreases ss.len(),
{
    if ss.len() == 0 {
        Seq::empty()
    } else {
        styles_html(ss.drop_last()) + "<style>\n"@ + ss.last()@ + "</style>\n"@
    }
}

/// The `<script type="module">` elements for the injected scripts, in order; a module can
/// `import` the way the page's own script does.
pub open spec fn scripts_html(ss: Seq<String>) -> Seq<char>
    decreases ss.len(),
{
    if ss.len() == 0 {
        Seq::empty()
    } else {
        scripts_html(ss.drop_last()) + "<script type=\"module\">\n"@ + ss.last()@ + "</script>\n"@
    }
}

fn push_styles(out: &mut String, ss: &Vec<String>)
    ensures
        final(out)@ == old(out)@ + styles_html(ss@),
{
    let mut i: usize = 0;
    assert(ss@.take(0) =~= Seq::<String>::empty());
    while i < ss.len()
        invariant
            0 <= i <= ss@.len(),
            out@ == old(out)@ + styles_html(ss@.take(i as int)),
        decreases ss@.len() - i,
    {
        out.push_str("<style>\n");
        out.push_str(ss[i].as_str());
        out.push_str("</style>\n");
        proof {
            assert(ss@.take(i + 1).drop_last() =~= ss@.take(i as int));
            assert(out@ =~= old(out)@ + styles_html(ss@.take(i + 1)));
        }
        i += 1;
    }
    assert(ss@.take(i as int) =~= ss@);
}

fn push_scripts(out: &mut String, ss: &Vec<String>)
    ensures
        final(out)@ == old(out)@ + scripts_html(ss@),
{
    let mut i: usize = 0;
    assert(ss@.take(0) =~= Seq::<String>::empty());
    while i < ss.len()
        invariant
            0 <= i <= ss@.len(),
            out@ == old(out)@ + scripts_html(ss@.take(i as int)),
        decreases ss@.len() - i,
    {
        out.push_str("<script type=\"module\">\n");
        out.push_str(ss[i].as_str());
        out.push_str("</script>\n");
        proof {
            assert(ss@.take(i + 1).drop_last() =~= ss@.take(i as int));
            assert(out@ =~= old(out)@ + scripts_html(ss@.take(i + 1)));
        }
        i += 1;
    }
    assert(ss@.take(i as int) =~= ss@);
}

/// The values a page is filled with: the escaped title and entity tag, the fingerprint of the
/// injected files, the sidebar if there is one, the injected styles and scripts, and the body.
pub open spec fn page_values(
    title: Seq<char>,
    body: Seq<char>,
    sidebar: Option<Seq<char>>,
    etag: Seq<char>,
    assets: Assets,
) -> Seq<Seq<char>> {
    seq![
        escaped(title),
        escaped(etag),
        fingerprint_of(assets),
        match sidebar {
            Some(s) => s,
            None => Seq::empty(),
        },
        styles_html(assets.styles@),
        scripts_html(assets.scripts@),
        body,
    ]
}

/// A whole page: `PAGE_TEMPLATE` with its placeholders filled. The template always fills
/// (`lemma_page_template_fills`), so the empty page here is never the result.
pub open spec fn page_text(
    title: Seq<char>,
    body: Seq<char>,
    sidebar: Option<Seq<char>>,
    etag: Seq<char>,
    assets: Assets,
) -> Seq<char> {
    match filled_from(PAGE_TEMPLATE@, 0, page_values(title, body, sidebar, etag, assets)) {
        Some(page) => page,
        None => Seq::empty(),
    }
}

/// Renders a whole page: `PAGE_TEMPLATE` with its placeholders filled.
pub fn render_page(title: &str, body: &str, sidebar: Option<&str>, etag: &str, assets: &Assets) -> (res:
    String)
    ensures
        res@ == page_text(title@, body@, opt_str(sidebar), etag@, *assets),
        filled_from(PAGE_TEMPLATE@, 0, page_values(title@, body@, opt_str(sidebar), etag@, *assets))
            == Some(res@),
{
    let mut styles = String::new();
    push_styles(&mut styles, &assets.styles);
    let mut scripts = String::new();
    push_scripts(&mut scripts, &assets.scripts);
    let mut side = String::new();
    match sidebar {
        Some(s) => side.push_str(s),
        None => {},
    }
    let mut text = String::new();
    text.push_str(body);
    let values = PageValues {
        title: escape_html(title),
        etag: escape_html(etag),
        assets: assets.fingerprint(),
        sidebar: side,
        styles,
        scripts,
        body: text,
    };
    assert(values@ =~= page_values(title@, body@, opt_str(sidebar), etag@, *assets));
    proof {
        lemma_page_template_fills(values@);
    }
    match fill_template(PAGE_TEMPLATE, &values) {
        Ok(page) => page,
        Err(_) => String::new(),
    }
}

} // verus!
