//! The tree of markdown files under a directory: how a listing is built and ordered, which paths
//! it serves, and the sidebar that shows it.
use vstd::prelude::*;
use crate::common::{chars_of, range_eq};
use vstd::multiset::Multiset;
use crate::path::{is_markdown, is_markdown_name};
use crate::text::{escape_html, escaped, percent_encode, percent_encoded};
use vstd::utf8::encode_utf8;

verus! {

/// A directory holding markdown files somewhere below it, or a markdown file with its path
/// relative to the root.
pub enum Node {
    Dir { name: String, children: Vec<Node> },
    File { name: String, path: String },
}

/// The name of a node.
pub open spec fn node_name(n: Node) -> Seq<char> {
    match n {
        Node::Dir { name, .. } => name@,
        Node::File { name, .. } => name@,
    }
}

/// Directories come before files.
pub open spec fn node_rank(n: Node) -> int {
    match n {
        Node::Dir { .. } => 0,
        Node::File { .. } => 1,
    }
}

impl Node {
    /// The key that orders a listing: directories first, then by name.
    pub fn sort_key(&self) -> (key: (bool, &str))
        ensures
            key.0 == (node_rank(*self) == 1),
            key.1@ == node_name(*self),
    {
        match self {
            Node::Dir { name, .. } => (false, name.as_str()),
            Node::File { name, .. } => (true, name.as_str()),
        }
    }
}

/// The file `path` is in the tree `n`.
pub open spec fn node_has_file(n: Node, path: Seq<char>) -> bool
    decreases n,
{
    match n {
        Node::Dir { children, .. } => tree_has_file(children@, path),
        Node::File { path: p, .. } => p@ == path,
    }
}

/// The file `path` is in one of the trees `nodes`.
pub open spec fn tree_has_file(nodes: Seq<Node>, path: Seq<char>) -> bool
    decreases nodes,
{
    if nodes.len() == 0 {
        false
    } else {
        node_has_file(nodes[0], path) || tree_has_file(nodes.drop_first(), path)
    }
}

/// Compares two strings held as characters.
pub fn str_eq(a: &str, b: &str) -> (res: bool)
    ensures
        res == (a@ == b@),
{
    let x = chars_of(a);
    let y = chars_of(b);
    assert(x@.subrange(0, x@.len() as int) =~= x@);
    range_eq(&x, 0, x.len(), &y)
}

/// Whether the file `path` is in the tree `nodes`, so that the server may read it.
pub fn contains_file(nodes: &[Node], path: &str) -> (res: bool)
    ensures
        res == tree_has_file(nodes@, path@),
    decreases nodes@,
{
    let mut i: usize = 0;
    assert(nodes@.skip(0) =~= nodes@);
    while i < nodes.len()
        invariant
            0 <= i <= nodes@.len(),
            tree_has_file(nodes@, path@) == tree_has_file(nodes@.skip(i as int), path@),
        decreases nodes@.len() - i,
    {
        let found = match &nodes[i] {
            Node::Dir { name, children } => {
                proof {
                    assert(decreases_to!(nodes@ => nodes@[i as int]));
                }
                let r = contains_file(children.as_slice(), path);
                assert(r == node_has_file(nodes@[i as int], path@));
                r
            },
            Node::File { path: file, .. } => {
                let r = str_eq(file.as_str(), path);
                assert(r == node_has_file(nodes@[i as int], path@));
                r
            },
        };
        proof {
            assert(nodes@.skip(i as int).drop_first() =~= nodes@.skip(i + 1));
        }
        if found {
            return true;
        }
        i += 1;
    }
    false
}

/// Whether a directory entry named `name` is listed: hidden entries, whose names start with `.`,
/// are skipped.
pub fn is_listed(name: &str) -> (res: bool)
    ensures
        res == !(name@.len() > 0 && name@[0] == '.'),
{
    let cs = chars_of(name);
    !(cs.len() > 0 && cs[0] == '.')
}

/// The path of `name` inside `dir`, relative to the root.
pub open spec fn child_path_of(dir: Seq<char>, name: Seq<char>) -> Seq<char> {
    if dir.len() == 0 {
        name
    } else {
        dir + seq!['/'] + name
    }
}

/// The path of `name` inside `dir`, relative to the root.
pub fn child_path(dir: &str, name: &str) -> (res: String)
    ensures
        res@ == child_path_of(dir@, name@),
{
    let mut out = String::new();
    if !dir.is_empty() {
        out.push_str(dir);
        out.push('/');
    }
    out.push_str(name);
    proof {
        if dir@.len() == 0 {
            assert(out@ =~= name@);
        }
    }
    out
}

/// What a listed directory entry turned out to be.
pub enum EntryKind {
    /// A directory, with the tree read below it.
    Dir(Vec<Node>),
    /// A regular file.
    File,
    /// Anything else, such as a symbolic link.
    Other,
}

/// The nodes that an entry adds to a listing: a directory only when it holds markdown files, a
/// file only when it is markdown, and nothing else.
pub open spec fn entry_nodes(name: String, path: String, kind: EntryKind) -> Seq<Node> {
    match kind {
        EntryKind::Dir(children) => if children@.len() > 0 {
            seq![Node::Dir { name, children }]
        } else {
            seq![]
        },
        EntryKind::File => if is_markdown_name(name@) {
            seq![Node::File { name, path }]
        } else {
            seq![]
        },
        EntryKind::Other => seq![],
    }
}

/// Adds a directory entry to a listing, as the walk does.
pub fn add_entry(nodes: &mut Vec<Node>, name: String, path: String, kind: EntryKind)
    ensures
        final(nodes)@ == old(nodes)@ + entry_nodes(name, path, kind),
{
    let ghost spec_kind = kind;
    let ghost added = entry_nodes(name, path, kind);
    match kind {
        EntryKind::Dir(children) => {
            if children.len() > 0 {
                nodes.push(Node::Dir { name, children });
            }
        },
        EntryKind::File => {
            if is_markdown(name.as_str()) {
                nodes.push(Node::File { name, path });
            }
        },
        EntryKind::Other => {},
    }
    assert(nodes@ =~= old(nodes)@ + added);
}

/// Strict lexicographic order on strings, by character; it agrees with the byte order of their
/// UTF-8 encodings, which `str` comparison uses.
pub open spec fn chars_lt(a: Seq<char>, b: Seq<char>) -> bool
    decreases a.len(),
{
    if b.len() == 0 {
        false
    } else if a.len() == 0 {
        true
    } else if a[0] != b[0] {
        a[0] < b[0]
    } else {
        chars_lt(a.drop_first(), b.drop_first())
    }
}

proof fn lemma_chars_lt_irreflexive(a: Seq<char>)
    ensures
        !chars_lt(a, a),
    decreases a.len(),
{
    if a.len() > 0 {
        lemma_chars_lt_irreflexive(a.drop_first());
    }
}

proof fn lemma_chars_lt_transitive(a: Seq<char>, b: Seq<char>, c: Seq<char>)
    requires
        chars_lt(a, b),
        chars_lt(b, c),
    ensures
        chars_lt(a, c),
    decreases a.len(),
{
    if a.len() > 0 && b.len() > 0 && c.len() > 0 && a[0] == b[0] && b[0] == c[0] {
        lemma_chars_lt_transitive(a.drop_first(), b.drop_first(), c.drop_first());
    }
}

proof fn lemma_chars_lt_total(a: Seq<char>, b: Seq<char>)
    ensures
        a == b || chars_lt(a, b) || chars_lt(b, a),
    decreases a.len(),
{
    if a.len() > 0 && b.len() > 0 && a[0] == b[0] {
        lemma_chars_lt_total(a.drop_first(), b.drop_first());
        if a.drop_first() == b.drop_first() {
            assert(a =~= seq![a[0]] + a.drop_first());
            assert(b =~= seq![b[0]] + b.drop_first());
        }
    } else if a.len() == 0 && b.len() == 0 {
        assert(a =~= b);
    }
}

/// `a` sorts strictly before `b`: `sort_key` order, directories first and then by name.
pub open spec fn node_before(a: Node, b: Node) -> bool {
    ||| node_rank(a) < node_rank(b)
    ||| node_rank(a) == node_rank(b) && chars_lt(node_name(a), node_name(b))
}

/// Each node of `nodes` sorts no later than the ones after it.
pub open spec fn sorted_nodes(nodes: Seq<Node>) -> bool {
    forall|i: int, j: int| 0 <= i < j < nodes.len() ==> !node_before(#[trigger] nodes[j], #[trigger] nodes[i])
}

proof fn lemma_not_before_transitive(a: Node, b: Node, c: Node)
    requires
        !node_before(b, a),
        !node_before(c, b),
    ensures
        !node_before(c, a),
{
    if node_before(c, a) {
        if node_rank(a) == node_rank(b) && node_rank(b) == node_rank(c) {
            lemma_chars_lt_total(node_name(a), node_name(b));
            lemma_chars_lt_total(node_name(b), node_name(c));
            if chars_lt(node_name(a), node_name(b)) {
                lemma_chars_lt_transitive(node_name(c), node_name(a), node_name(b));
            }
        }
    }
}

proof fn lemma_before_asymmetric(a: Node, b: Node)
    requires
        node_before(a, b),
    ensures
        !node_before(b, a),
{
    if node_rank(a) == node_rank(b) && chars_lt(node_name(b), node_name(a)) {
        lemma_chars_lt_transitive(node_name(a), node_name(b), node_name(a));
        lemma_chars_lt_irreflexive(node_name(a));
    }
}

/// Compares two strings held as characters by `chars_lt`.
fn str_lt(a: &str, b: &str) -> (res: bool)
    ensures
        res == chars_lt(a@, b@),
{
    let x = chars_of(a);
    let y = chars_of(b);
    let mut i: usize = 0;
    assert(x@.skip(0) =~= x@);
    assert(y@.skip(0) =~= y@);
    while i < x.len() && i < y.len() && x[i] == y[i]
        invariant
            0 <= i <= x@.len(),
            i <= y@.len(),
            x@ == a@,
            y@ == b@,
            chars_lt(a@, b@) == chars_lt(x@.skip(i as int), y@.skip(i as int)),
        decreases x@.len() - i,
    {
        proof {
            assert(x@.skip(i as int).drop_first() =~= x@.skip(i + 1));
            assert(y@.skip(i as int).drop_first() =~= y@.skip(i + 1));
        }
        i += 1;
    }
    if i >= y.len() {
        false
    } else if i >= x.len() {
        true
    } else {
        x[i] < y[i]
    }
}

fn before(a: &Node, b: &Node) -> (res: bool)
    ensures
        res == node_before(*a, *b),
{
    let (fa, na) = a.sort_key();
    let (fb, nb) = b.sort_key();
    (!fa && fb) || (fa == fb && str_lt(na, nb))
}

/// Sorts a listing by `sort_key`: directories first, then by name.
pub fn sort_nodes(nodes: Vec<Node>) -> (res: Vec<Node>)
    ensures
        sorted_nodes(res@),
        res@.to_multiset() == nodes@.to_multiset(),
{
    let mut rest = nodes;
    let mut out: Vec<Node> = Vec::new();
    proof {
        broadcast use vstd::multiset::group_multiset_axioms;

        assert(out@.to_multiset() =~= Multiset::empty()) by {
            vstd::seq_lib::to_multiset_len(out@);
        }
        assert(out@.to_multiset().add(rest@.to_multiset()) =~= nodes@.to_multiset());
    }
    while rest.len() > 0
        invariant
            sorted_nodes(out@),
            out@.to_multiset().add(rest@.to_multiset()) == nodes@.to_multiset(),
        decreases rest@.len(),
    {
        let ghost before_pop = rest@;
        let x = rest.pop().unwrap();
        proof {
            assert(before_pop =~= rest@.push(x));
        }
        let mut j: usize = 0;
        while j < out.len() && before(&out[j], &x)
            invariant
                0 <= j <= out@.len(),
                forall|k: int| 0 <= k < j ==> node_before(#[trigger] out@[k], x),
            ensures
                0 <= j <= out@.len(),
                forall|k: int| 0 <= k < j ==> node_before(#[trigger] out@[k], x),
                j == out@.len() || !node_before(out@[j as int], x),
            decreases out@.len() - j,
        {
            j += 1;
        }
        let ghost old_out = out@;
        out.insert(j, x);
        proof {
            assert forall|a: int, b: int| 0 <= a < b < out@.len() implies !node_before(
                #[trigger] out@[b],
                #[trigger] out@[a],
            ) by {
                if b == j {
                    lemma_before_asymmetric(old_out[a], x);
                } else if a == j {
                    if b - 1 == j {
                        lemma_chars_lt_irreflexive(node_name(old_out[j as int]));
                    }
                    lemma_not_before_transitive(x, old_out[j as int], old_out[b - 1]);
                } else if a < j && b > j {
                    assert(!node_before(old_out[b - 1], old_out[a]));
                } else if a > j {
                    assert(!node_before(old_out[b - 1], old_out[a - 1]));
                }
            }
            assert(out@ =~= old_out.insert(j as int, x));
            vstd::seq_lib::to_multiset_insert(old_out, j as int, x);
            vstd::seq_lib::to_multiset_build(rest@, x);
            assert(out@.to_multiset() == old_out.to_multiset().insert(x));
            assert(before_pop.to_multiset() == rest@.to_multiset().insert(x));
            assert(out@.to_multiset().add(rest@.to_multiset()) =~= old_out.to_multiset().add(
                before_pop.to_multiset(),
            ));
        }
    }
    proof {
        broadcast use vstd::multiset::group_multiset_axioms;

        assert(rest@.to_multiset() =~= Multiset::empty()) by {
            vstd::seq_lib::to_multiset_len(rest@);
        }
        assert(out@.to_multiset().add(rest@.to_multiset()) =~= out@.to_multiset());
    }
    out
}

/// The view of an optional string.
pub open spec fn opt_str(s: Option<&str>) -> Option<Seq<char>> {
    match s {
        Some(s) => Some(s@),
        None => None,
    }
}

/// The sidebar entry for a node, marking the file at `current` as active.
pub open spec fn node_html(n: Node, current: Option<Seq<char>>) -> Seq<char>
    decreases n,
{
    match n {
        Node::Dir { name, children } => "<li><span class=\"dir\">"@ + escaped(name@) + "/</span>\n"@
            + "<ul>\n"@ + items_html(children@, current) + "</ul>\n"@ + "</li>\n"@,
        Node::File { name, path } => "<li><a"@ + (if current == Some(path@) {
            " class=\"active\""@
        } else {
            Seq::empty()
        }) + " href=\"/"@ + percent_encoded(encode_utf8(path@)) + "\">"@ + escaped(name@)
            + "</a></li>\n"@,
    }
}

/// The sidebar entries for `nodes`, in order.
pub open spec fn items_html(nodes: Seq<Node>, current: Option<Seq<char>>) -> Seq<char>
    decreases nodes,
{
    if nodes.len() == 0 {
        Seq::empty()
    } else {
        node_html(nodes[0], current) + items_html(nodes.drop_first(), current)
    }
}

/// The nested list that shows `nodes`.
pub open spec fn tree_html(nodes: Seq<Node>, current: Option<Seq<char>>) -> Seq<char> {
    "<ul>\n"@ + items_html(nodes, current) + "</ul>\n"@
}

/// Appends the nested list that shows `nodes` to `out`, with the file at `current` marked.
pub fn push_tree(out: &mut String, nodes: &[Node], current: Option<&str>)
    ensures
        final(out)@ == old(out)@ + tree_html(nodes@, opt_str(current)),
    decreases nodes@,
{
    let ghost cur = opt_str(current);
    out.push_str("<ul>\n");
    let ghost start = out@;
    let mut i: usize = 0;
    assert(nodes@.skip(0) =~= nodes@);
    while i < nodes.len()
        invariant
            0 <= i <= nodes@.len(),
            cur == opt_str(current),
            start + items_html(nodes@, cur) == out@ + items_html(nodes@.skip(i as int), cur),
        decreases nodes@.len() - i,
    {
        let ghost before = out@;
        match &nodes[i] {
            Node::Dir { name, children } => {
                proof {
                    assert(decreases_to!(nodes@ => nodes@[i as int]));
                }
                out.push_str("<li><span class=\"dir\">");
                out.push_str(&escape_html(name.as_str()));
                out.push_str("/</span>\n");
                push_tree(out, children.as_slice(), current);
                out.push_str("</li>\n");
            },
            Node::File { name, path } => {
                out.push_str("<li><a");
                let active = match current {
                    Some(c) => str_eq(c, path.as_str()),
                    None => false,
                };
                if active {
                    out.push_str(" class=\"active\"");
                }
                out.push_str(" href=\"/");
                out.push_str(&percent_encode(path.as_str()));
                out.push_str("\">");
                out.push_str(&escape_html(name.as_str()));
                out.push_str("</a></li>\n");
            },
        }
        proof {
            assert(out@ =~= before + node_html(nodes@[i as int], cur));
            assert(nodes@.skip(i as int).drop_first() =~= nodes@.skip(i + 1));
            assert(before + items_html(nodes@.skip(i as int), cur) =~= out@ + items_html(
                nodes@.skip(i + 1),
                cur,
            ));
        }
        i += 1;
    }
    proof {
        assert(items_html(nodes@.skip(i as int), cur) =~= Seq::empty());
        assert(out@ =~= start + items_html(nodes@, cur));
    }
    out.push_str("</ul>\n");
}

/// The opening of the sidebar, up to the link back to the root.
pub open spec fn sidebar_head() -> Seq<char> {
    "<nav class=\"sidebar\">\n<div class=\"sidebar-header\">\n\
     <button class=\"menu-toggle\" type=\"button\" aria-label=\"Toggle file list\" \
     aria-controls=\"sidebar-tree\" aria-expanded=\"false\">\
     <svg width=\"20\" height=\"20\" viewBox=\"0 0 20 20\" aria-hidden=\"true\">\
     <path d=\"M3 5h14M3 10h14M3 15h14\" stroke=\"currentColor\" stroke-width=\"2\" \
     stroke-linecap=\"round\"/></svg></button>\n\
     <a class=\"root\" href=\"/\">"@
}

/// The sidebar for a directory titled `title` showing `tree`, with the file at `current` marked.
/// The hamburger button only shows on narrow screens, where the tree starts collapsed; the
/// resizer after the sidebar only shows on wide screens.
pub open spec fn sidebar_html(title: Seq<char>, tree: Seq<Node>, current: Option<Seq<char>>) -> Seq<
    char,
> {
    sidebar_head() + escaped(title) + "</a>\n</div>\n<div id=\"sidebar-tree\" class=\"sidebar-tree\">\n"@
        + tree_html(tree, current)
        + "</div>\n</nav>\n<div class=\"sidebar-resizer\" role=\"separator\" aria-orientation=\"vertical\"></div>\n"@
}

/// Renders the sidebar for a directory titled `title` showing `tree`.
pub fn render_sidebar(title: &str, tree: &[Node], current: Option<&str>) -> (res: String)
    ensures
        res@ == sidebar_html(title@, tree@, opt_str(current)),
{
    let mut out = String::new();
    out.push_str(
        "<nav class=\"sidebar\">\n<div class=\"sidebar-header\">\n\
         <button class=\"menu-toggle\" type=\"button\" aria-label=\"Toggle file list\" \
         aria-controls=\"sidebar-tree\" aria-expanded=\"false\">\
         <svg width=\"20\" height=\"20\" viewBox=\"0 0 20 20\" aria-hidden=\"true\">\
         <path d=\"M3 5h14M3 10h14M3 15h14\" stroke=\"currentColor\" stroke-width=\"2\" \
         stroke-linecap=\"round\"/></svg></button>\n\
         <a class=\"root\" href=\"/\">",
    );
    out.push_str(&escape_html(title));
    out.push_str("</a>\n</div>\n<div id=\"sidebar-tree\" class=\"sidebar-tree\">\n");
    push_tree(&mut out, tree, current);
    out.push_str(
        "</div>\n</nav>\n<div class=\"sidebar-resizer\" role=\"separator\" aria-orientation=\"vertical\"></div>\n",
    );
    proof {
        assert(out@ =~= sidebar_html(title@, tree@, opt_str(current)));
    }
    out
}

} // verus!
